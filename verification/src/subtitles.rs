use vstd::prelude::*;

use crate::lyrics::{
    LyricLine, fields_of_chars, lyric_views, sort_by_time, sort_lyrics, strings_of,
    timestamp_parts,
};
use crate::numbers::{is_decimal, is_decimal_char};
use crate::text::{
    chars_of, find_char, index_of, is_whitespace, string_views, lemma_index_of_bound, is_ws, lines, split_lines, string_of, trim,
    trim_range, views,
};

verus! {

/// A character that may stand in a cue timestamp: a decimal digit of any script, `':'`,
/// `'.'` or `','`.
pub open spec fn is_stamp_char(c: char) -> bool {
    is_decimal(c) || c == ':' || c == '.' || c == ','
}

/// End of the run of timestamp characters of `l` that starts at `i`.
pub open spec fn stamp_run_end(l: Seq<char>, i: int) -> int
    decreases l.len() - i,
{
    if 0 <= i < l.len() && is_stamp_char(l[i]) {
        stamp_run_end(l, i + 1)
    } else {
        i
    }
}

/// End of the run of white space of `l` that starts at `i`.
pub open spec fn ws_run_end(l: Seq<char>, i: int) -> int
    decreases l.len() - i,
{
    if 0 <= i < l.len() && is_ws(l[i]) {
        ws_run_end(l, i + 1)
    } else {
        i
    }
}

/// A timestamp starts at `i`: a decimal digit followed by at least one more timestamp
/// character.
pub open spec fn stamp_at(l: Seq<char>, i: int) -> bool {
    0 <= i < l.len() && is_decimal(l[i]) && stamp_run_end(l, i) >= i + 2
}

/// A cue timing `start --> end` starts at `i`, with optional white space around the arrow.
pub open spec fn cue_timing_at(l: Seq<char>, i: int) -> bool {
    stamp_at(l, i) && {
        let a = ws_run_end(l, stamp_run_end(l, i));
        &&& a + 3 <= l.len()
        &&& l[a] == '-'
        &&& l[a + 1] == '-'
        &&& l[a + 2] == '>'
        &&& stamp_at(l, ws_run_end(l, a + 3))
    }
}

/// The leftmost position at `i` or later where a cue timing starts.
pub open spec fn cue_timing_from(l: Seq<char>, i: int) -> Option<int>
    decreases l.len() - i,
{
    if i < 0 || i >= l.len() {
        None
    } else if cue_timing_at(l, i) {
        Some(i)
    } else {
        cue_timing_from(l, i + 1)
    }
}

/// The timestamp fields of the start of the leftmost cue timing of `l`, when there is one
/// and it reads as a timestamp.
pub open spec fn cue_start_fields(l: Seq<char>) -> Option<Seq<Seq<char>>> {
    match cue_timing_from(l, 0) {
        Some(i) => timestamp_parts(l.subrange(i, stamp_run_end(l, i))),
        None => None,
    }
}

proof fn lemma_run_ends(l: Seq<char>, i: int)
    requires
        0 <= i <= l.len(),
    ensures
        i <= stamp_run_end(l, i) <= l.len(),
        i <= ws_run_end(l, i) <= l.len(),
    decreases l.len() - i,
{
    if i < l.len() {
        lemma_run_ends(l, i + 1);
    }
}

/// `stamp_run_end(l, i)`.
fn stamp_end(l: &[char], i: usize) -> (e: usize)
    requires
        i <= l@.len(),
    ensures
        e == stamp_run_end(l@, i as int),
        i <= e <= l@.len(),
{
    let n = l.len();
    let mut k = i;
    while k < n && (is_decimal_char(l[k]) || l[k] == ':' || l[k] == '.' || l[k] == ',')
        invariant
            i <= k <= n,
            n == l@.len(),
            stamp_run_end(l@, i as int) == stamp_run_end(l@, k as int),
        decreases n - k,
    {
        k = k + 1;
    }
    k
}

/// `ws_run_end(l, i)`.
fn ws_end(l: &[char], i: usize) -> (e: usize)
    requires
        i <= l@.len(),
    ensures
        e == ws_run_end(l@, i as int),
        i <= e <= l@.len(),
{
    let n = l.len();
    let mut k = i;
    while k < n && is_whitespace(l[k])
        invariant
            i <= k <= n,
            n == l@.len(),
            ws_run_end(l@, i as int) == ws_run_end(l@, k as int),
        decreases n - k,
    {
        k = k + 1;
    }
    k
}

/// `stamp_at(l, i)`.
fn stamp_at_exec(l: &[char], i: usize) -> (b: bool)
    requires
        i <= l@.len(),
    ensures
        b == stamp_at(l@, i as int),
{
    if i < l.len() && is_decimal_char(l[i]) {
        let e = stamp_end(l, i);
        e - i >= 2
    } else {
        false
    }
}

/// `cue_timing_at(l, i)`.
fn cue_timing_exec(l: &[char], i: usize) -> (b: bool)
    requires
        i < l@.len(),
    ensures
        b == cue_timing_at(l@, i as int),
{
    if !stamp_at_exec(l, i) {
        return false;
    }
    let n = l.len();
    let e = stamp_end(l, i);
    let a = ws_end(l, e);
    if n - a >= 3 && l[a] == '-' && l[a + 1] == '-' && l[a + 2] == '>' {
        let b = ws_end(l, a + 3);
        stamp_at_exec(l, b)
    } else {
        false
    }
}

/// The start timestamp fields of a cue timing line, as `cue_start_fields` gives them.
fn cue_fields(l: &[char]) -> (r: Option<Vec<Vec<char>>>)
    ensures
        match cue_start_fields(l@) {
            Some(f) => r matches Some(v) && views(v@) == f,
            None => r is None,
        },
{
    let n = l.len();
    let mut i: usize = 0;
    while i < n
        invariant
            n == l@.len(),
            i <= n,
            cue_timing_from(l@, 0) == cue_timing_from(l@, i as int),
        decreases n - i,
    {
        if cue_timing_exec(l, i) {
            let e = stamp_end(l, i);
            let stamp = crate::text::copy_range(l, i, e);
            return fields_of_chars(&stamp);
        }
        i = i + 1;
    }
    None
}

} // verus!

verus! {

/// `s` with every markup tag `<...>` (at least one character between the brackets, none of
/// them `'>'`) removed, scanning from the left.
pub open spec fn strip_tags(s: Seq<char>) -> Seq<char>
    decreases s.len(),
{
    if s.len() == 0 {
        s
    } else if s[0] == '<' && 1 <= index_of(s.drop_first(), '>') < s.len() - 1 {
        strip_tags(s.skip(index_of(s.drop_first(), '>') + 2))
    } else {
        seq![s[0]] + strip_tags(s.drop_first())
    }
}

/// `strip_tags(s)`.
pub fn strip_tags_exec(s: &[char]) -> (r: Vec<char>)
    ensures
        r@ == strip_tags(s@),
{
    let n = s.len();
    let mut out: Vec<char> = Vec::new();
    let mut i: usize = 0;
    assert(s@.skip(0) =~= s@);
    while i < n
        invariant
            n == s@.len(),
            i <= n,
            strip_tags(s@) == out@ + strip_tags(s@.skip(i as int)),
        decreases n - i,
    {
        let ghost rest = s@.skip(i as int);
        if s[i] == '<' {
            let j = find_char(s, '>', i + 1, n);
            assert(s@.subrange(i + 1, n as int) =~= rest.drop_first());
            if j < n && j > i + 1 {
                assert(rest.skip(j - i + 1) =~= s@.skip(j + 1));
                i = j + 1;
                continue;
            }
        }
        out.push(s[i]);
        assert(rest.drop_first() =~= s@.skip(i + 1));
        assert(strip_tags(s@) =~= out@ + strip_tags(s@.skip(i + 1)));
        i = i + 1;
    }
    assert(s@.skip(n as int) =~= Seq::<char>::empty());
    assert(out@ + strip_tags(Seq::<char>::empty()) =~= out@);
    out
}

/// The pieces of cue text from line `j` on: the lines up to the first blank one, trimmed,
/// tags removed, and those that are then empty left out.
pub open spec fn cue_parts(ls: Seq<Seq<char>>, j: int) -> Seq<Seq<char>>
    decreases ls.len() - j,
{
    if j < 0 || j >= ls.len() || trim(ls[j]).len() == 0 {
        seq![]
    } else {
        let c = strip_tags(trim(ls[j]));
        (if c.len() > 0 {
            seq![c]
        } else {
            seq![]
        }) + cue_parts(ls, j + 1)
    }
}

/// The pieces joined with single spaces between them.
pub open spec fn join_space(ps: Seq<Seq<char>>) -> Seq<char>
    decreases ps.len(),
{
    if ps.len() == 0 {
        seq![]
    } else if ps.len() == 1 {
        ps[0]
    } else {
        join_space(ps.drop_last()) + seq![' '] + ps.last()
    }
}

/// The cue that a cue timing at line `i` gives: its start timestamp fields and the joined
/// text of the lines after it, when that text is not empty.
pub open spec fn cue_entry(ls: Seq<Seq<char>>, i: int) -> Option<(Seq<Seq<char>>, Seq<char>)> {
    match cue_start_fields(ls[i]) {
        Some(t) => {
            let text = join_space(cue_parts(ls, i + 1));
            if text.len() > 0 {
                Some((t, text))
            } else {
                None
            }
        },
        None => None,
    }
}

/// The cue entries of the first `n` lines, in order.
pub open spec fn cue_entries(ls: Seq<Seq<char>>, n: int) -> Seq<(Seq<Seq<char>>, Seq<char>)>
    decreases n,
{
    if n <= 0 {
        seq![]
    } else {
        cue_entries(ls, n - 1) + match cue_entry(ls, n - 1) {
            Some(e) => seq![e],
            None => seq![],
        }
    }
}

/// The cues of a WebVTT or SubRip file, in file order.
pub open spec fn vtt_srt_entries(content: Seq<char>) -> Seq<(Seq<Seq<char>>, Seq<char>)> {
    let ls = lines(content);
    cue_entries(ls, ls.len() as int)
}

/// Cues with their times: the `i`-th cue is at `times[i]` milliseconds.
pub open spec fn with_times(es: Seq<(Seq<Seq<char>>, Seq<char>)>, times: Seq<u64>) -> Seq<
    (u64, Seq<char>),
> {
    Seq::new(es.len(), |i: int| (times[i], es[i].1))
}

/// A piece of timed text whose time is still written out: the fields of its timestamp (as
/// `timestamp_parts` gives them) and its text.
pub struct Cue {
    pub fields: Vec<String>,
    pub text: String,
}

impl View for Cue {
    type V = (Seq<Seq<char>>, Seq<char>);

    open spec fn view(&self) -> (Seq<Seq<char>>, Seq<char>) {
        (string_views(self.fields@), self.text@)
    }
}

/// The views of a sequence of cues.
pub open spec fn cue_views(v: Seq<Cue>) -> Seq<(Seq<Seq<char>>, Seq<char>)> {
    v.map_values(|c: Cue| c@)
}

/// The lyric lines of cues at the given times, sorted by time.
pub fn timed_lyrics(cues: &Vec<Cue>, times: &Vec<u64>) -> (r: Vec<LyricLine>)
    requires
        times@.len() == cues@.len(),
    ensures
        lyric_views(r@) == sort_by_time(with_times(cue_views(cues@), times@)),
{
    let n = cues.len();
    let mut out: Vec<LyricLine> = Vec::new();
    for i in 0..n
        invariant
            n == cues@.len(),
            times@.len() == n,
            lyric_views(out@) == with_times(cue_views(cues@), times@).take(i as int),
    {
        let text = string_of(&chars_of(cues[i].text.as_str()));
        assert(cue_views(cues@)[i as int] == cues@[i as int]@);
        assert(with_times(cue_views(cues@), times@)[i as int] == (times@[i as int], text@));
        let ghost prev = out@;
        let line = LyricLine { time_ms: times[i], text };
        out.push(line);
        assert(lyric_views(out@) =~= lyric_views(prev).push(line@));
        assert(with_times(cue_views(cues@), times@).take(i + 1) =~= with_times(
            cue_views(cues@),
            times@,
        ).take(i as int).push(with_times(cue_views(cues@), times@)[i as int]));
        assert(lyric_views(out@) =~= with_times(cue_views(cues@), times@).take(i + 1));
    }
    assert(with_times(cue_views(cues@), times@).take(n as int) =~= with_times(
        cue_views(cues@),
        times@,
    ));
    sort_lyrics(&out)
}

/// The joined cue text from line `from` on, as `join_space(cue_parts(ls, from))`.
fn cue_text(ls: &Vec<Vec<char>>, from: usize) -> (r: Vec<char>)
    requires
        from <= ls@.len(),
    ensures
        r@ == join_space(cue_parts(views(ls@), from as int)),
{
    let ghost all = views(ls@);
    let n = ls.len();
    let mut out: Vec<char> = Vec::new();
    let ghost mut parts: Seq<Seq<char>> = seq![];
    let mut j = from;
    while j < n
        invariant
            n == ls@.len(),
            all == views(ls@),
            from <= j <= n,
            cue_parts(all, from as int) == parts + cue_parts(all, j as int),
            out@ == join_space(parts),
            out@.len() == 0 <==> parts.len() == 0,
        ensures
            cue_parts(all, from as int) == parts + cue_parts(all, j as int),
            out@ == join_space(parts),
            cue_parts(all, j as int) =~= Seq::<Seq<char>>::empty(),
        decreases n - j,
    {
        let line = &ls[j];
        let t = trim_range(line, 0, line.len());
        assert(line@.subrange(0, line@.len() as int) =~= line@);
        assert(all[j as int] == line@);
        if t.len() == 0 {
            break;
        }
        let c = strip_tags_exec(&t);
        if c.len() > 0 {
            if out.len() > 0 {
                out.push(' ');
            }
            let ghost before = out@;
            let m = c.len();
            for k in 0..m
                invariant
                    m == c@.len(),
                    out@ == before + c@.take(k as int),
            {
                out.push(c[k]);
                assert(out@ =~= before + c@.take(k + 1));
            }
            assert(c@.take(m as int) =~= c@);
            proof {
                let np = parts.push(c@);
                assert(np.drop_last() =~= parts);
                if parts.len() == 0 {
                    assert(out@ =~= join_space(np));
                } else {
                    assert(out@ =~= join_space(np));
                }
                assert(parts + cue_parts(all, j as int) =~= np + cue_parts(all, j + 1));
                parts = np;
            }
        } else {
            assert(parts + cue_parts(all, j as int) =~= parts + cue_parts(all, j + 1));
        }
        j = j + 1;
    }
    assert(parts + cue_parts(all, j as int) =~= parts);
    out
}

/// The cues of a WebVTT or SubRip file, in file order: each timing line whose start reads as a
/// timestamp, with the text of the lines below it when that is not empty.
pub fn vtt_srt_cues(content: &str) -> (r: Vec<Cue>)
    ensures
        cue_views(r@) == vtt_srt_entries(content@),
{
    let chars = chars_of(content);
    let ls = split_lines(&chars);
    let ghost all = views(ls@);
    let n = ls.len();
    let mut out: Vec<Cue> = Vec::new();
    for i in 0..n
        invariant
            n == ls@.len(),
            all == views(ls@),
            cue_views(out@) == cue_entries(all, i as int),
    {
        assert(all[i as int] == ls@[i as int]@);
        match cue_fields(&ls[i]) {
            Some(f) => {
                let text = cue_text(&ls, i + 1);
                if text.len() > 0 {
                    out.push(Cue { fields: strings_of(&f), text: string_of(&text) });
                    assert(cue_views(out@) =~= cue_entries(all, i + 1));
                } else {
                    assert(cue_views(out@) =~= cue_entries(all, i + 1));
                }
            },
            None => {
                assert(cue_views(out@) =~= cue_entries(all, i + 1));
            },
        }
    }
    out
}

/// The lyric lines of a WebVTT or SubRip file, sorted by time, given the time in milliseconds
/// of each of its cues (`vtt_srt_cues`) in file order.
pub fn parse_vtt_srt(content: &str, times: &Vec<u64>) -> (r: Vec<LyricLine>)
    requires
        times@.len() == vtt_srt_entries(content@).len(),
    ensures
        lyric_views(r@) == sort_by_time(with_times(vtt_srt_entries(content@), times@)),
{
    let cues = vtt_srt_cues(content);
    timed_lyrics(&cues, times)
}

} // verus!

verus! {

/// `s` with every override block `{...}` (no `'}'` inside) removed, scanning from the left.
pub open spec fn strip_braces(s: Seq<char>) -> Seq<char>
    decreases s.len(),
{
    if s.len() == 0 {
        s
    } else if s[0] == '{' && index_of(s.drop_first(), '}') < s.len() - 1 {
        proof {
            lemma_index_of_bound(s.drop_first(), '}');
        }
        strip_braces(s.skip(index_of(s.drop_first(), '}') + 2))
    } else {
        seq![s[0]] + strip_braces(s.drop_first())
    }
}

/// `s` with every two-character escape `'\\'` `b` replaced by a space, scanning from the left.
pub open spec fn replace_escape(s: Seq<char>, b: char) -> Seq<char>
    decreases s.len(),
{
    if s.len() == 0 {
        s
    } else if s.len() >= 2 && s[0] == '\\' && s[1] == b {
        seq![' '] + replace_escape(s.skip(2), b)
    } else {
        seq![s[0]] + replace_escape(s.drop_first(), b)
    }
}

/// What follows the first `n` commas of `s`, when it has that many.
pub open spec fn after_commas(s: Seq<char>, n: nat) -> Option<Seq<char>>
    decreases n,
{
    if n == 0 {
        Some(s)
    } else {
        let k = index_of(s, ',');
        if k >= s.len() {
            None
        } else {
            after_commas(s.skip(k + 1), (n - 1) as nat)
        }
    }
}

/// The characters of `"Dialogue:"`.
pub open spec fn dialogue_prefix() -> Seq<char> {
    seq!['D', 'i', 'a', 'l', 'o', 'g', 'u', 'e', ':']
}

/// The lyric line that an ASS/SSA line gives: a `Dialogue:` line with at least ten
/// comma-separated fields, whose second field is a timestamp; its text is the tenth field
/// (the rest of the line) with override blocks removed, `\N` and `\n` turned into spaces,
/// and trimmed, when that is not empty.
pub open spec fn ass_entry(l: Seq<char>) -> Option<(Seq<Seq<char>>, Seq<char>)> {
    if l.len() >= 9 && l.take(9) == dialogue_prefix() {
        match after_commas(l, 9) {
            Some(rest) => {
                let f1 = after_commas(l, 1).unwrap();
                let start = f1.take(index_of(f1, ','));
                match timestamp_parts(trim(start)) {
                    Some(t) => {
                        let text = trim(
                            replace_escape(replace_escape(strip_braces(rest), 'N'), 'n'),
                        );
                        if text.len() > 0 {
                            Some((t, text))
                        } else {
                            None
                        }
                    },
                    None => None,
                }
            },
            None => None,
        }
    } else {
        None
    }
}

/// The dialogue cues of an ASS/SSA file, in file order.
pub open spec fn ass_entries(content: Seq<char>) -> Seq<(Seq<Seq<char>>, Seq<char>)> {
    lines(content).filter_map(|l: Seq<char>| ass_entry(l))
}

/// `strip_braces(s)`.
fn strip_braces_exec(s: &[char], lo: usize) -> (r: Vec<char>)
    requires
        lo <= s@.len(),
    ensures
        r@ == strip_braces(s@.skip(lo as int)),
{
    let n = s.len();
    let mut out: Vec<char> = Vec::new();
    let mut i: usize = lo;
    while i < n
        invariant
            n == s@.len(),
            lo <= i <= n,
            strip_braces(s@.skip(lo as int)) == out@ + strip_braces(s@.skip(i as int)),
        decreases n - i,
    {
        let ghost rest = s@.skip(i as int);
        if s[i] == '{' {
            let j = find_char(s, '}', i + 1, n);
            assert(s@.subrange(i + 1, n as int) =~= rest.drop_first());
            if j < n {
                assert(rest.skip(j - i + 1) =~= s@.skip(j + 1));
                i = j + 1;
                continue;
            }
        }
        out.push(s[i]);
        assert(rest.drop_first() =~= s@.skip(i + 1));
        assert(strip_braces(s@.skip(lo as int)) =~= out@ + strip_braces(s@.skip(i + 1)));
        i = i + 1;
    }
    assert(s@.skip(n as int) =~= Seq::<char>::empty());
    assert(out@ + strip_braces(Seq::<char>::empty()) =~= out@);
    out
}

/// `replace_escape(s, b)`.
fn replace_escape_exec(s: &[char], b: char) -> (r: Vec<char>)
    ensures
        r@ == replace_escape(s@, b),
{
    let n = s.len();
    let mut out: Vec<char> = Vec::new();
    let mut i: usize = 0;
    assert(s@.skip(0) =~= s@);
    while i < n
        invariant
            n == s@.len(),
            i <= n,
            replace_escape(s@, b) == out@ + replace_escape(s@.skip(i as int), b),
        decreases n - i,
    {
        let ghost rest = s@.skip(i as int);
        if n - i >= 2 && s[i] == '\\' && s[i + 1] == b {
            out.push(' ');
            assert(rest.skip(2) =~= s@.skip(i + 2));
            assert(replace_escape(s@, b) =~= out@ + replace_escape(s@.skip(i + 2), b));
            i = i + 2;
        } else {
            out.push(s[i]);
            assert(rest.drop_first() =~= s@.skip(i + 1));
            assert(replace_escape(s@, b) =~= out@ + replace_escape(s@.skip(i + 1), b));
            i = i + 1;
        }
    }
    assert(s@.skip(n as int) =~= Seq::<char>::empty());
    assert(out@ + replace_escape(Seq::<char>::empty(), b) =~= out@);
    out
}

proof fn lemma_after_comma_step(s: Seq<char>, k: int, n: nat)
    requires
        0 <= k < s.len(),
        index_of(s, ',') == k,
        n > 0,
    ensures
        after_commas(s, n) == after_commas(s.skip(k + 1), (n - 1) as nat),
{
}

/// The cue of one ASS/SSA line, as `ass_entry` describes it.
fn ass_line(l: &[char]) -> (r: Option<Cue>)
    ensures
        match ass_entry(l@) {
            Some(e) => r matches Some(x) && x@ == e,
            None => r is None,
        },
{
    let n = l.len();
    let prefix = ['D', 'i', 'a', 'l', 'o', 'g', 'u', 'e', ':'];
    if n < 9 {
        return None;
    }
    let mut k: usize = 0;
    while k < 9
        invariant
            9 <= n == l@.len(),
            k <= 9,
            prefix@ == dialogue_prefix(),
            forall|j: int| 0 <= j < k ==> l@[j] == dialogue_prefix()[j],
        decreases 9 - k,
    {
        if l[k] != prefix[k] {
            assert(l@.take(9)[k as int] != dialogue_prefix()[k as int]);
            return None;
        }
        k = k + 1;
    }
    assert(l@.take(9) =~= dialogue_prefix());
    // positions just after each of the first nine commas
    let mut pos: usize = 0;
    let mut c: usize = 0;
    let mut second: usize = 0;
    assert(l@.skip(0) =~= l@);
    while c < 9
        invariant
            n == l@.len(),
            c <= 9,
            pos <= n,
            c >= 1 ==> 1 <= second <= n,
            c >= 1 ==> after_commas(l@, 1) == Some(l@.skip(second as int)),
            after_commas(l@, 9) == after_commas(l@.skip(pos as int), (9 - c) as nat),
            c >= 1 ==> pos >= second,
            c == 0 ==> pos == 0,
        decreases 9 - c,
    {
        let j = find_char(l, ',', pos, n);
        assert(l@.subrange(pos as int, n as int) =~= l@.skip(pos as int));
        if j == n {
            assert(after_commas(l@.skip(pos as int), (9 - c) as nat) is None);
            return None;
        }
        proof {
            lemma_after_comma_step(l@.skip(pos as int), j - pos, (9 - c) as nat);
            assert(l@.skip(pos as int).skip(j - pos + 1) =~= l@.skip(j + 1));
            if c == 0 {
                assert(pos == 0);
                assert(l@.subrange(0, n as int) =~= l@);
                lemma_after_comma_step(l@, j as int, 1);
                assert(after_commas(l@.skip(j + 1), 0) == Some(l@.skip(j + 1)));
            }
        }
        if c == 0 {
            second = j + 1;
        }
        pos = j + 1;
        c = c + 1;
    }
    let ghost rest = l@.skip(pos as int);
    assert(after_commas(l@, 9) == Some(rest));
    let e1 = find_char(l, ',', second, n);
    let ghost f1 = l@.skip(second as int);
    assert(l@.subrange(second as int, n as int) =~= f1);
    assert(f1.take(e1 - second) =~= l@.subrange(second as int, e1 as int));
    let stamp = trim_range(l, second, e1);
    let t = match fields_of_chars(&stamp) {
        Some(t) => t,
        None => {
            return None;
        },
    };
    let a = strip_braces_exec(l, pos);
    let b1 = replace_escape_exec(&a, 'N');
    let b2 = replace_escape_exec(&b1, 'n');
    let text = trim_range(&b2, 0, b2.len());
    assert(b2@.subrange(0, b2@.len() as int) =~= b2@);
    if text.len() == 0 {
        return None;
    }
    Some(Cue { fields: strings_of(&t), text: string_of(&text) })
}

/// The dialogue cues of an ASS/SSA file, in file order.
pub fn ass_cues(content: &str) -> (r: Vec<Cue>)
    ensures
        cue_views(r@) == ass_entries(content@),
{
    let chars = chars_of(content);
    let ls = split_lines(&chars);
    let ghost all = views(ls@);
    let mut out: Vec<Cue> = Vec::new();
    let n = ls.len();
    for i in 0..n
        invariant
            n == ls@.len(),
            all == views(ls@),
            cue_views(out@) == all.take(i as int).filter_map(|l: Seq<char>| ass_entry(l)),
    {
        let e = ass_line(&ls[i]);
        assert(all.take(i + 1).drop_last() =~= all.take(i as int));
        assert(all.take(i + 1).last() == ls@[i as int]@);
        match e {
            Some(x) => {
                out.push(x);
                assert(cue_views(out@) =~= all.take(i as int).filter_map(
                    |l: Seq<char>| ass_entry(l),
                ) + seq![x@]);
            },
            None => {
                assert(cue_views(out@) =~= all.take(i as int).filter_map(
                    |l: Seq<char>| ass_entry(l),
                ));
            },
        }
    }
    assert(all.take(n as int) =~= all);
    out
}

/// The dialogue lines of an ASS/SSA file, sorted by time, given the time in milliseconds of
/// each of its cues (`ass_cues`) in file order.
pub fn parse_ass(content: &str, times: &Vec<u64>) -> (r: Vec<LyricLine>)
    requires
        times@.len() == ass_entries(content@).len(),
    ensures
        lyric_views(r@) == sort_by_time(with_times(ass_entries(content@), times@)),
{
    let cues = ass_cues(content);
    timed_lyrics(&cues, times)
}


/// Joining one more piece after at least one: the pieces so far, one space, then the new one.
pub proof fn lemma_join_space_push(ps: Seq<Seq<char>>, x: Seq<char>)
    requires
        ps.len() > 0,
    ensures
        join_space(ps.push(x)) == join_space(ps) + seq![' '] + x,
{
    assert(ps.push(x).drop_last() =~= ps);
}

} // verus!
