use vstd::prelude::*;

use crate::decimal::{float_syntax, is_float_literal};
use crate::numbers::{
    all_digits, decimal, digit_char, digit_of, digits_value, is_decimal, is_decimal_char, is_digit,
    lemma_digits_value_2, lemma_digits_value_3, lemma_two_digits, push_zero_padded,
    zero_padded,
};
use crate::text::{
    chars_of, find_char, index_of, is_ws, lemma_index_of, lemma_index_of_bound,
    lemma_split_on_len, lines, split_lines, split_on, string_of, strip_cr, trim, trim_end,
    string_views, trim_range, trim_start, views,
};

verus! {

/// One timed line of lyrics.
#[derive(Clone, Debug)]
pub struct LyricLine {
    pub time_ms: u64,
    pub text: String,
}

impl View for LyricLine {
    type V = (u64, Seq<char>);

    open spec fn view(&self) -> (u64, Seq<char>) {
        (self.time_ms, self.text@)
    }
}

/// The views of a sequence of lyric lines.
pub open spec fn lyric_views(v: Seq<LyricLine>) -> Seq<(u64, Seq<char>)> {
    v.map_values(|l: LyricLine| l@)
}

/// `s` with every `','` turned into `'.'`.
pub open spec fn comma_to_dot(s: Seq<char>) -> Seq<char> {
    s.map_values(|c: char| if c == ',' { '.' } else { c })
}

/// The fields of a subtitle timestamp `m:s` or `h:m:s`, as the float parse reads them: commas
/// count as decimal points, the text splits at `':'` into two or three fields, and each field,
/// trimmed of white space, must be a float literal (`float_syntax`). None when it is not such
/// a timestamp.
pub open spec fn timestamp_parts(s: Seq<char>) -> Option<Seq<Seq<char>>> {
    let parts = split_on(comma_to_dot(s), ':');
    let fields = parts.map_values(|p: Seq<char>| trim(p));
    if (parts.len() == 2 || parts.len() == 3) && forall|i: int|
        0 <= i < fields.len() ==> float_syntax(#[trigger] fields[i]) {
        Some(fields)
    } else {
        None
    }
}

proof fn lemma_split_step(s: Seq<char>, k: int)
    requires
        0 <= k < s.len(),
        index_of(s, ':') == k,
    ensures
        split_on(s, ':') == seq![s.take(k)] + split_on(s.skip(k + 1), ':'),
{
}

proof fn lemma_split_last(s: Seq<char>)
    requires
        index_of(s, ':') == s.len(),
    ensures
        split_on(s, ':') == seq![s],
{
}

/// The trimmed fields of a subtitle timestamp (`mm:ss.fff` or `hh:mm:ss,fff`), when each reads
/// as a float, as `timestamp_parts` gives them.
pub fn timestamp_fields(s: &str) -> (r: Option<Vec<String>>)
    ensures
        match timestamp_parts(s@) {
            Some(f) => r matches Some(v) && string_views(v@) == f,
            None => r is None,
        },
{
    let raw = chars_of(s);
    match fields_of_chars(&raw) {
        Some(v) => Some(strings_of(&v)),
        None => None,
    }
}

/// The character vectors `v` as strings.
pub fn strings_of(v: &Vec<Vec<char>>) -> (r: Vec<String>)
    ensures
        string_views(r@) == views(v@),
{
    let mut out: Vec<String> = Vec::new();
    for i in 0..v.len()
        invariant
            string_views(out@) == views(v@).take(i as int),
    {
        let x = string_of(&v[i]);
        assert(views(v@)[i as int] == v@[i as int]@);
        let ghost prev = out@;
        out.push(x);
        assert(string_views(out@) =~= string_views(prev).push(x@));
        assert(views(v@).take(i + 1) =~= views(v@).take(i as int).push(views(v@)[i as int]));
    }
    assert(views(v@).take(v@.len() as int) =~= views(v@));
    out
}


/// The timestamp fields that the characters `raw` spell, as `timestamp_parts` reads them.
#[verifier::rlimit(40)]
pub fn fields_of_chars(raw: &[char]) -> (r: Option<Vec<Vec<char>>>)
    ensures
        match timestamp_parts(raw@) {
            Some(f) => r matches Some(v) && views(v@) == f,
            None => r is None,
        },
{
    let mut t: Vec<char> = Vec::new();
    let n = raw.len();
    for i in 0..n
        invariant
            n == raw@.len(),
            t@ == comma_to_dot(raw@.take(i as int)),
    {
        let c = raw[i];
        t.push(
            if c == ',' {
                '.'
            } else {
                c
            },
        );
        assert(t@ =~= comma_to_dot(raw@.take(i + 1)));
    }
    assert(raw@.take(n as int) =~= raw@);
    let ghost u = t@;
    assert(u == comma_to_dot(raw@));
    let p1 = find_char(&t, ':', 0, n);
    assert(u.subrange(0, n as int) =~= u);
    if p1 == n {
        proof {
            lemma_split_last(u);
        }
        return None;
    }
    let ghost r1 = u.skip(p1 + 1);
    proof {
        lemma_split_step(u, p1 as int);
    }
    let p2 = find_char(&t, ':', p1 + 1, n);
    assert(u.subrange(p1 + 1, n as int) =~= r1);
    let first = trim_range(&t, 0, p1);
    assert(u.subrange(0, p1 as int) =~= u.take(p1 as int));
    if p2 == n {
        proof {
            lemma_split_last(r1);
            assert(split_on(u, ':') =~= seq![u.take(p1 as int), r1]);
            assert(r1 =~= u.subrange(p1 + 1, n as int));
        }
        let sec = trim_range(&t, p1 + 1, n);
        let ghost fields = split_on(u, ':').map_values(|p: Seq<char>| trim(p));
        assert(fields =~= seq![first@, sec@]);
        if !is_float_literal(&first) || !is_float_literal(&sec) {
            proof {
                if !float_syntax(first@) {
                    assert(!float_syntax(fields[0]));
                } else {
                    assert(!float_syntax(fields[1]));
                }
            }
            return None;
        }
        let mut v: Vec<Vec<char>> = Vec::new();
        v.push(first);
        v.push(sec);
        assert(views(v@) =~= fields);
        return Some(v);
    }
    let ghost r2 = r1.skip(p2 - p1);
    proof {
        lemma_index_of(r1, ':', (p2 - p1 - 1) as int);
        lemma_split_step(r1, (p2 - p1 - 1) as int);
        assert(r2 =~= u.skip(p2 + 1));
    }
    let p3 = find_char(&t, ':', p2 + 1, n);
    assert(u.subrange(p2 + 1, n as int) =~= r2);
    if p3 < n {
        proof {
            lemma_split_step(r2, (p3 - p2 - 1) as int);
            lemma_split_on_len(r2.skip(p3 - p2), ':');
        }
        return None;
    }
    proof {
        lemma_split_last(r2);
        assert(r1.take(p2 - p1 - 1) =~= u.subrange(p1 + 1, p2 as int));
        assert(split_on(u, ':') =~= seq![u.take(p1 as int), r1.take(p2 - p1 - 1), r2]);
    }
    let mid = trim_range(&t, p1 + 1, p2);
    let sec = trim_range(&t, p2 + 1, n);
    let ghost fields = split_on(u, ':').map_values(|p: Seq<char>| trim(p));
    assert(fields =~= seq![first@, mid@, sec@]);
    if !is_float_literal(&first) || !is_float_literal(&mid) || !is_float_literal(&sec) {
        proof {
            if !float_syntax(first@) {
                assert(!float_syntax(fields[0]));
            } else if !float_syntax(mid@) {
                assert(!float_syntax(fields[1]));
            } else {
                assert(!float_syntax(fields[2]));
            }
        }
        return None;
    }
    let mut v: Vec<Vec<char>> = Vec::new();
    v.push(first);
    v.push(mid);
    v.push(sec);
    assert(views(v@) =~= fields);
    Some(v)
}

} // verus!

verus! {

/// `s` (sorted by time) with `x` put after every entry whose time is not later than its own.
pub open spec fn insert_by_time(s: Seq<(u64, Seq<char>)>, x: (u64, Seq<char>)) -> Seq<
    (u64, Seq<char>),
>
    decreases s.len(),
{
    if s.len() == 0 {
        seq![x]
    } else if s.last().0 <= x.0 {
        s.push(x)
    } else {
        insert_by_time(s.drop_last(), x).push(s.last())
    }
}

/// `s` sorted by time, entries with equal times kept in their order (a stable sort).
pub open spec fn sort_by_time(s: Seq<(u64, Seq<char>)>) -> Seq<(u64, Seq<char>)>
    decreases s.len(),
{
    if s.len() == 0 {
        s
    } else {
        insert_by_time(sort_by_time(s.drop_last()), s.last())
    }
}

proof fn lemma_insert_at(s: Seq<(u64, Seq<char>)>, x: (u64, Seq<char>), p: int)
    requires
        0 <= p <= s.len(),
        forall|k: int| p <= k < s.len() ==> s[k].0 > x.0,
        p == 0 || s[p - 1].0 <= x.0,
    ensures
        insert_by_time(s, x) == s.insert(p, x),
    decreases s.len(),
{
    if s.len() == 0 {
        assert(s.insert(p, x) =~= seq![x]);
    } else if s.last().0 <= x.0 {
        assert(s.insert(p, x) =~= s.push(x));
    } else {
        lemma_insert_at(s.drop_last(), x, p);
        assert(s.drop_last().insert(p, x).push(s.last()) =~= s.insert(p, x));
    }
}

impl LyricLine {
    /// A copy of this line.
    pub fn duplicate(&self) -> (r: LyricLine)
        ensures
            r@ == self@,
    {
        LyricLine { time_ms: self.time_ms, text: self.text.clone() }
    }
}

/// The lines sorted by time, lines with equal times kept in their order.
pub fn sort_lyrics(v: &Vec<LyricLine>) -> (r: Vec<LyricLine>)
    ensures
        lyric_views(r@) == sort_by_time(lyric_views(v@)),
{
    let mut out: Vec<LyricLine> = Vec::new();
    let n = v.len();
    for i in 0..n
        invariant
            n == v@.len(),
            lyric_views(out@) == sort_by_time(lyric_views(v@.take(i as int))),
    {
        let x = v[i].duplicate();
        let mut p = out.len();
        while p > 0 && out[p - 1].time_ms > x.time_ms
            invariant
                p <= out@.len(),
                forall|k: int| p <= k < out@.len() ==> out@[k].time_ms > x.time_ms,
            decreases p,
        {
            p = p - 1;
        }
        let ghost before = lyric_views(out@);
        proof {
            lemma_insert_at(before, x@, p as int);
            assert(lyric_views(v@.take(i + 1)).drop_last() =~= lyric_views(v@.take(i as int)));
        }
        out.insert(p, x);
        assert(lyric_views(out@) =~= before.insert(p as int, x@));
    }
    assert(v@.take(n as int) =~= v@);
    out
}

} // verus!

verus! {

/// Times never decrease along `s`.
pub open spec fn sorted_by_time(s: Seq<(u64, Seq<char>)>) -> bool {
    forall|i: int, j: int| 0 <= i <= j < s.len() ==> s[i].0 <= s[j].0
}

/// The entries of `s` whose time is `t`, in their order.
pub open spec fn at_time(s: Seq<(u64, Seq<char>)>, t: u64) -> Seq<(u64, Seq<char>)> {
    s.filter(|e: (u64, Seq<char>)| e.0 == t)
}

proof fn lemma_insert_by_time(s: Seq<(u64, Seq<char>)>, x: (u64, Seq<char>))
    requires
        sorted_by_time(s),
    ensures
        sorted_by_time(insert_by_time(s, x)),
        insert_by_time(s, x).to_multiset() == s.to_multiset().insert(x),
        forall|t: u64|
            #[trigger] at_time(insert_by_time(s, x), t) == if x.0 == t {
                at_time(s, t).push(x)
            } else {
                at_time(s, t)
            },
        insert_by_time(s, x).len() == s.len() + 1,
        forall|k: int|
            0 <= k < insert_by_time(s, x).len() ==> #[trigger] insert_by_time(s, x)[k] == x
                || s.contains(insert_by_time(s, x)[k]),
    decreases s.len(),
{
    broadcast use vstd::seq_lib::to_multiset_build;

    if s.len() == 0 {
        assert(insert_by_time(s, x) == s.push(x));
        assert forall|t: u64| #[trigger]
            at_time(insert_by_time(s, x), t) == if x.0 == t {
                at_time(s, t).push(x)
            } else {
                at_time(s, t)
            } by {
            s.lemma_filter_push(x, |e: (u64, Seq<char>)| e.0 == t);
        }
    } else if s.last().0 <= x.0 {
        assert forall|t: u64| #[trigger]
            at_time(insert_by_time(s, x), t) == if x.0 == t {
                at_time(s, t).push(x)
            } else {
                at_time(s, t)
            } by {
            s.lemma_filter_push(x, |e: (u64, Seq<char>)| e.0 == t);
        }
        assert forall|k: int|
            0 <= k < insert_by_time(s, x).len() implies #[trigger] insert_by_time(s, x)[k] == x
                || s.contains(insert_by_time(s, x)[k]) by {
            if k < s.len() {
                assert(insert_by_time(s, x)[k] == s[k]);
            }
        }
    } else {
        let d = s.drop_last();
        let l = s.last();
        assert(sorted_by_time(d));
        lemma_insert_by_time(d, x);
        let r = insert_by_time(d, x);
        assert(s =~= d.push(l));
        assert forall|i: int, j: int|
            0 <= i <= j < r.push(l).len() implies r.push(l)[i].0 <= r.push(l)[j].0 by {
            if j == r.len() && i < r.len() {
                if r[i] == x {
                } else {
                    assert(d.contains(r[i]));
                    let m = choose|m: int| 0 <= m < d.len() && d[m] == r[i];
                    assert(s[m] == d[m]);
                }
            }
        }
        assert forall|t: u64| #[trigger]
            at_time(insert_by_time(s, x), t) == if x.0 == t {
                at_time(s, t).push(x)
            } else {
                at_time(s, t)
            } by {
            r.lemma_filter_push(l, |e: (u64, Seq<char>)| e.0 == t);
            d.lemma_filter_push(l, |e: (u64, Seq<char>)| e.0 == t);
            assert(at_time(r, t) == if x.0 == t {
                at_time(d, t).push(x)
            } else {
                at_time(d, t)
            });
            if l.0 == t {
                assert(at_time(d, t).push(l) == at_time(s, t));
            } else {
                assert(at_time(d, t) == at_time(s, t));
                if x.0 == t {
                    assert(at_time(r.push(l), t) == at_time(d, t).push(x));
                }
            }
        }
        assert forall|k: int|
            0 <= k < insert_by_time(s, x).len() implies #[trigger] insert_by_time(s, x)[k] == x
                || s.contains(insert_by_time(s, x)[k]) by {
            if k < r.len() {
                assert(insert_by_time(s, x)[k] == r[k]);
                if r[k] != x {
                    assert(d.contains(r[k]));
                    let m = choose|m: int| 0 <= m < d.len() && d[m] == r[k];
                    assert(s[m] == d[m]);
                }
            } else {
                assert(s[s.len() - 1] == l);
            }
        }
    }
}

/// Sorting by time gives entries in non-decreasing time, the same entries as before (as a
/// multiset), and, for every time, the entries with that time in their original order.
pub proof fn lemma_sort_by_time(s: Seq<(u64, Seq<char>)>)
    ensures
        sorted_by_time(sort_by_time(s)),
        sort_by_time(s).to_multiset() == s.to_multiset(),
        forall|t: u64| #[trigger] at_time(sort_by_time(s), t) == at_time(s, t),
    decreases s.len(),
{
    broadcast use vstd::seq_lib::to_multiset_build;

    if s.len() == 0 {
        assert forall|t: u64| #[trigger] at_time(sort_by_time(s), t) == at_time(s, t) by {}
    } else {
        let d = s.drop_last();
        let l = s.last();
        lemma_sort_by_time(d);
        lemma_insert_by_time(sort_by_time(d), l);
        assert(s =~= d.push(l));
        assert forall|t: u64| #[trigger] at_time(sort_by_time(s), t) == at_time(s, t) by {
            d.lemma_filter_push(l, |e: (u64, Seq<char>)| e.0 == t);
            assert(at_time(sort_by_time(d), t) == at_time(d, t));
        }
    }
}

} // verus!

verus! {

/// Two or three decimal digits as `str::parse` reads them: ASCII digits give their value, and
/// a digit of another script makes the parse fail, which counts as 0.
pub open spec fn parsed_or_zero(s: Seq<char>) -> nat {
    if all_digits(s) {
        digits_value(s)
    } else {
        0
    }
}

/// The tag `[mm:ss.xx]` or `[mm:ss.xxx]` of an LRC line starting at position `i`, with
/// decimal digits of any script: its time in milliseconds (two fraction digits count as
/// hundredths, each group read as `parsed_or_zero`) and where the text after it starts.
pub open spec fn lrc_tag_at(l: Seq<char>, i: int) -> Option<(nat, int)> {
    if 0 <= i && i + 10 <= l.len() && l[i] == '[' && is_decimal(l[i + 1]) && is_decimal(l[i + 2])
        && l[i + 3] == ':' && is_decimal(l[i + 4]) && is_decimal(l[i + 5]) && l[i + 6] == '.'
        && is_decimal(l[i + 7]) && is_decimal(l[i + 8]) {
        let base = parsed_or_zero(l.subrange(i + 1, i + 3)) * 60000 + parsed_or_zero(
            l.subrange(i + 4, i + 6),
        ) * 1000;
        if i + 11 <= l.len() && is_decimal(l[i + 9]) && l[i + 10] == ']' {
            Some((base + parsed_or_zero(l.subrange(i + 7, i + 10)), i + 11))
        } else if l[i + 9] == ']' {
            Some((base + parsed_or_zero(l.subrange(i + 7, i + 9)) * 10, i + 10))
        } else {
            None
        }
    } else {
        None
    }
}

/// The leftmost LRC tag of `l` at position `i` or later.
pub open spec fn lrc_tag_from(l: Seq<char>, i: int) -> Option<(nat, int)>
    decreases l.len() - i,
{
    if i < 0 || i + 10 > l.len() {
        None
    } else {
        match lrc_tag_at(l, i) {
            Some(r) => Some(r),
            None => lrc_tag_from(l, i + 1),
        }
    }
}

/// The lyric line that an LRC line gives: the time of its leftmost tag and the trimmed text
/// after that tag, when the text is not empty.
pub open spec fn lrc_entry(l: Seq<char>) -> Option<(u64, Seq<char>)> {
    match lrc_tag_from(l, 0) {
        Some((t, start)) => {
            let text = trim(l.skip(start));
            if text.len() > 0 {
                Some((t as u64, text))
            } else {
                None
            }
        },
        None => None,
    }
}

/// The lyrics of an LRC file, sorted by time.
pub open spec fn lrc_lyrics(content: Seq<char>) -> Seq<(u64, Seq<char>)> {
    sort_by_time(lines(content).filter_map(|l: Seq<char>| lrc_entry(l)))
}

/// `parsed_or_zero(l[lo..lo + 2])`.
fn two_digits_or_zero(l: &[char], lo: usize) -> (v: u64)
    requires
        lo + 2 <= l@.len(),
    ensures
        v == parsed_or_zero(l@.subrange(lo as int, lo + 2)),
        v < 100,
{
    let ghost t = l@.subrange(lo as int, lo + 2);
    if '0' <= l[lo] && l[lo] <= '9' && '0' <= l[lo + 1] && l[lo + 1] <= '9' {
        proof {
            lemma_digits_value_2(t);
            assert(all_digits(t)) by {
                assert forall|j: int| 0 <= j < 2 implies is_digit(#[trigger] t[j]) by {
                    assert(t[j] == l@[lo + j]);
                }
            }
        }
        digit_of(l[lo]) * 10 + digit_of(l[lo + 1])
    } else {
        proof {
            if '0' <= l@[lo as int] && l@[lo as int] <= '9' {
                assert(!is_digit(t[1]));
            } else {
                assert(!is_digit(t[0]));
            }
        }
        0
    }
}

/// `parsed_or_zero(l[lo..lo + 3])`.
fn three_digits_or_zero(l: &[char], lo: usize) -> (v: u64)
    requires
        lo + 3 <= l@.len(),
    ensures
        v == parsed_or_zero(l@.subrange(lo as int, lo + 3)),
        v < 1000,
{
    let ghost t = l@.subrange(lo as int, lo + 3);
    if '0' <= l[lo] && l[lo] <= '9' && '0' <= l[lo + 1] && l[lo + 1] <= '9' && '0' <= l[lo + 2]
        && l[lo + 2] <= '9' {
        proof {
            lemma_digits_value_3(t);
            assert(all_digits(t)) by {
                assert forall|j: int| 0 <= j < 3 implies is_digit(#[trigger] t[j]) by {
                    assert(t[j] == l@[lo + j]);
                }
            }
        }
        digit_of(l[lo]) * 100 + digit_of(l[lo + 1]) * 10 + digit_of(l[lo + 2])
    } else {
        proof {
            if !is_digit(l@[lo as int]) {
                assert(!is_digit(t[0]));
            } else if !is_digit(l@[lo + 1]) {
                assert(!is_digit(t[1]));
            } else {
                assert(!is_digit(t[2]));
            }
        }
        0
    }
}

/// The tag of an LRC line at position `i`, as `lrc_tag_at` gives it.
fn lrc_tag_exec(l: &[char], i: usize) -> (r: Option<(u64, usize)>)
    requires
        i + 10 <= l@.len(),
    ensures
        match lrc_tag_at(l@, i as int) {
            Some((t, s)) => r matches Some((t2, s2)) && t2 == t && s2 == s,
            None => r is None,
        },
{
    let n = l.len();
    if !(l[i] == '[' && is_decimal_char(l[i + 1]) && is_decimal_char(l[i + 2]) && l[i + 3] == ':'
        && is_decimal_char(l[i + 4]) && is_decimal_char(l[i + 5]) && l[i + 6] == '.'
        && is_decimal_char(l[i + 7]) && is_decimal_char(l[i + 8])) {
        return None;
    }
    let min = two_digits_or_zero(l, i + 1);
    let sec = two_digits_or_zero(l, i + 4);
    let base = min * 60000 + sec * 1000;
    if n - i >= 11 && is_decimal_char(l[i + 9]) && l[i + 10] == ']' {
        let ms = three_digits_or_zero(l, i + 7);
        Some((base + ms, i + 11))
    } else if l[i + 9] == ']' {
        let cs = two_digits_or_zero(l, i + 7);
        Some((base + cs * 10, i + 10))
    } else {
        None
    }
}

/// The lyric line that one LRC line gives, as `lrc_entry` describes it.
fn lrc_line(l: &[char]) -> (r: Option<LyricLine>)
    ensures
        match lrc_entry(l@) {
            Some(e) => r matches Some(x) && x@ == e,
            None => r is None,
        },
{
    let n = l.len();
    let mut i: usize = 0;
    while n >= 10 && i <= n - 10
        invariant
            n == l@.len(),
            lrc_tag_from(l@, 0) == lrc_tag_from(l@, i as int),
        decreases n - i,
    {
        match lrc_tag_exec(l, i) {
            Some((t, start)) => {
                let text = trim_range(l, start, n);
                assert(l@.subrange(start as int, n as int) =~= l@.skip(start as int));
                if text.len() == 0 {
                    return None;
                }
                return Some(LyricLine { time_ms: t, text: string_of(&text) });
            },
            None => {},
        }
        i = i + 1;
    }
    None
}

/// The lines of an LRC file (`[mm:ss.xx]text`), sorted by time.
pub fn parse_lrc(content: &str) -> (r: Vec<LyricLine>)
    ensures
        lyric_views(r@) == lrc_lyrics(content@),
{
    let chars = chars_of(content);
    let ls = split_lines(&chars);
    let ghost all = views(ls@);
    let mut out: Vec<LyricLine> = Vec::new();
    let n = ls.len();
    for i in 0..n
        invariant
            n == ls@.len(),
            all == views(ls@),
            lyric_views(out@) == all.take(i as int).filter_map(|l: Seq<char>| lrc_entry(l)),
    {
        let e = lrc_line(&ls[i]);
        assert(all.take(i + 1).drop_last() =~= all.take(i as int));
        assert(all.take(i + 1).last() == ls@[i as int]@);
        match e {
            Some(x) => {
                out.push(x);
                assert(lyric_views(out@) =~= all.take(i as int).filter_map(
                    |l: Seq<char>| lrc_entry(l),
                ) + seq![x@]);
            },
            None => {
                assert(lyric_views(out@) =~= all.take(i as int).filter_map(
                    |l: Seq<char>| lrc_entry(l),
                ));
            },
        }
    }
    assert(all.take(n as int) =~= all);
    sort_lyrics(&out)
}

} // verus!

verus! {

/// The LRC text of one lyric line, without its line break: `[mm:ss.cc]text`, minutes,
/// seconds and hundredths each printed with at least two digits.
pub open spec fn lrc_line_text(e: (u64, Seq<char>)) -> Seq<char> {
    seq!['['] + zero_padded((e.0 / 60000) as nat, 2) + seq![':'] + zero_padded(
        ((e.0 % 60000) / 1000) as nat,
        2,
    ) + seq!['.'] + zero_padded(((e.0 % 1000) / 10) as nat, 2) + seq![']'] + e.1
}

/// An LRC file holding the given lines in order, each ended by `'\n'`.
pub open spec fn lrc_file(s: Seq<(u64, Seq<char>)>) -> Seq<char>
    decreases s.len(),
{
    if s.len() == 0 {
        seq![]
    } else {
        lrc_file(s.drop_last()) + lrc_line_text(s.last()) + seq!['\n']
    }
}

/// Appends the LRC text of `l` and a line break.
fn push_lrc_line(out: &mut Vec<char>, l: &LyricLine)
    ensures
        final(out)@ == old(out)@ + lrc_line_text(l@) + seq!['\n'],
{
    let t = l.time_ms;
    let ghost before = out@;
    out.push('[');
    push_zero_padded(out, t / 60000, 2);
    out.push(':');
    push_zero_padded(out, (t % 60000) / 1000, 2);
    out.push('.');
    push_zero_padded(out, (t % 1000) / 10, 2);
    out.push(']');
    let text = chars_of(l.text.as_str());
    let ghost mid = out@;
    for k in 0..text.len()
        invariant
            out@ == mid + text@.take(k as int),
    {
        out.push(text[k]);
        assert(out@ =~= mid + text@.take(k + 1));
    }
    assert(text@.take(text@.len() as int) =~= text@);
    out.push('\n');
    assert(out@ =~= before + lrc_line_text(l@) + seq!['\n']);
}

/// The text of an LRC file that holds `lyrics`, one line each, in their order.
pub fn lyrics_to_lrc(lyrics: &Vec<LyricLine>) -> (r: String)
    ensures
        r@ == lrc_file(lyric_views(lyrics@)),
{
    let mut out: Vec<char> = Vec::new();
    let n = lyrics.len();
    for i in 0..n
        invariant
            n == lyrics@.len(),
            out@ == lrc_file(lyric_views(lyrics@.take(i as int))),
    {
        push_lrc_line(&mut out, &lyrics[i]);
        assert(lyric_views(lyrics@.take(i + 1)).drop_last() =~= lyric_views(lyrics@.take(i as int)));
    }
    assert(lyrics@.take(n as int) =~= lyrics@);
    string_of(&out)
}

} // verus!

verus! {

/// An entry that an LRC file carries unchanged but for its time's last digit: less than 100
/// minutes, and a text that is not empty, has no white space at either end and no line break.
pub open spec fn lrc_writable(e: (u64, Seq<char>)) -> bool {
    &&& e.0 < 6_000_000
    &&& e.1.len() > 0
    &&& trim(e.1) == e.1
    &&& !e.1.contains('\n')
}

/// `e` with its time rounded down to a multiple of 10 milliseconds.
pub open spec fn to_hundredths(e: (u64, Seq<char>)) -> (u64, Seq<char>) {
    ((e.0 / 10 * 10) as u64, e.1)
}

proof fn lemma_lines_append(a: Seq<char>, b: Seq<char>)
    requires
        a.len() == 0 || a.last() == '\n',
    ensures
        lines(a + b) == lines(a) + lines(b),
    decreases a.len(),
{
    if a.len() == 0 {
        assert(a + b =~= b);
        assert(lines(a) + lines(b) =~= lines(b));
    } else {
        lemma_index_of_bound(a, '\n');
        let k = index_of(a, '\n');
        assert(k < a.len()) by {
            if k == a.len() {
                assert(a[a.len() - 1] != '\n');
            }
        }
        lemma_index_of(a + b, '\n', k);
        assert((a + b).take(k) =~= a.take(k));
        assert((a + b).skip(k + 1) =~= a.skip(k + 1) + b);
        let r = a.skip(k + 1);
        assert(r.len() == 0 || r.last() == '\n');
        lemma_lines_append(r, b);
        assert(lines(a + b) =~= lines(a) + lines(b));
    }
}

proof fn lemma_trimmed_last(t: Seq<char>)
    requires
        t.len() > 0,
        trim(t) == t,
    ensures
        !is_ws(t.last()),
{
    if is_ws(t.last()) {
        let s = trim_start(t);
        if s.len() > 0 {
            assert(s.last() == t.last()) by {
                lemma_trim_start_suffix(t);
            }
            assert(trim_end(s).len() < s.len()) by {
                lemma_trim_end_shorter(s);
            }
            lemma_trim_start_len(t);
        } else {
            lemma_trim_start_len(t);
        }
    }
}

proof fn lemma_trim_start_suffix(t: Seq<char>)
    ensures
        trim_start(t) == t.skip(t.len() - trim_start(t).len()),
        trim_start(t).len() <= t.len(),
    decreases t.len(),
{
    if t.len() > 0 && is_ws(t[0]) {
        lemma_trim_start_suffix(t.drop_first());
        assert(t.drop_first().skip(t.drop_first().len() - trim_start(t).len()) =~= t.skip(
            t.len() - trim_start(t).len(),
        ));
    } else {
        assert(t.skip(0) =~= t);
    }
}

proof fn lemma_trim_start_len(t: Seq<char>)
    ensures
        trim_start(t).len() <= t.len(),
    decreases t.len(),
{
    if t.len() > 0 && is_ws(t[0]) {
        lemma_trim_start_len(t.drop_first());
    }
}

proof fn lemma_trim_end_shorter(s: Seq<char>)
    requires
        s.len() > 0,
        is_ws(s.last()),
    ensures
        trim_end(s).len() < s.len(),
    decreases s.len(),
{
    lemma_trim_end_len(s.drop_last());
}

proof fn lemma_trim_end_len(s: Seq<char>)
    ensures
        trim_end(s).len() <= s.len(),
    decreases s.len(),
{
    if s.len() > 0 && is_ws(s.last()) {
        lemma_trim_end_len(s.drop_last());
    }
}

proof fn lemma_two_ascii(s: Seq<char>)
    requires
        s.len() == 2,
        is_digit(s[0]),
        is_digit(s[1]),
    ensures
        parsed_or_zero(s) == digits_value(s),
        is_decimal(s[0]),
        is_decimal(s[1]),
{
    assert(all_digits(s)) by {
        assert forall|j: int| 0 <= j < 2 implies is_digit(#[trigger] s[j]) by {}
    }
}

#[verifier::rlimit(30)]
proof fn lemma_lrc_line_text(e: (u64, Seq<char>))
    requires
        lrc_writable(e),
    ensures
        !lrc_line_text(e).contains('\n'),
        lrc_line_text(e).len() > 0,
        lrc_line_text(e).last() == e.1.last(),
        lrc_entry(lrc_line_text(e)) == Some(to_hundredths(e)),
{
    let t = e.0 as int;
    let a = t / 60000;
    let b = (t % 60000) / 1000;
    let c = (t % 1000) / 10;
    lemma_two_digits(a as nat);
    lemma_two_digits(b as nat);
    lemma_two_digits(c as nat);
    let body = lrc_line_text(e);
    assert(body =~= seq![
        '[',
        digit_char((a / 10) as nat),
        digit_char((a % 10) as nat),
        ':',
        digit_char((b / 10) as nat),
        digit_char((b % 10) as nat),
        '.',
        digit_char((c / 10) as nat),
        digit_char((c % 10) as nat),
        ']',
    ] + e.1);
    assert(!body.contains('\n')) by {
        if body.contains('\n') {
            let k = choose|k: int| 0 <= k < body.len() && body[k] == '\n';
            if k >= 10 {
                assert(e.1[k - 10] == '\n');
            }
        }
    }
    lemma_digits_value_2(body.subrange(1, 3));
    lemma_digits_value_2(body.subrange(4, 6));
    lemma_digits_value_2(body.subrange(7, 9));
    lemma_two_ascii(body.subrange(1, 3));
    lemma_two_ascii(body.subrange(4, 6));
    lemma_two_ascii(body.subrange(7, 9));
    assert(body.skip(10) =~= e.1);
    vstd::arithmetic::div_mod::lemma_fundamental_div_mod(t, 60000);
    vstd::arithmetic::div_mod::lemma_fundamental_div_mod(t % 60000, 1000);
    vstd::arithmetic::div_mod::lemma_fundamental_div_mod(t % 1000, 10);
    vstd::arithmetic::div_mod::lemma_fundamental_div_mod(t, 10);
    vstd::arithmetic::div_mod::lemma_mod_mod(t, 1000, 60);
    vstd::arithmetic::div_mod::lemma_mod_mod(t, 10, 100);
    assert(a * 60000 + b * 1000 + c * 10 == t / 10 * 10);
}

proof fn lemma_lines_of_lrc_file(s: Seq<(u64, Seq<char>)>)
    requires
        forall|i: int| 0 <= i < s.len() ==> lrc_writable(#[trigger] s[i]),
    ensures
        lines(lrc_file(s)) == s.map_values(|e: (u64, Seq<char>)| lrc_line_text(e)),
        lrc_file(s).len() == 0 || lrc_file(s).last() == '\n',
    decreases s.len(),
{
    if s.len() > 0 {
        let d = s.drop_last();
        let e = s.last();
        assert forall|i: int| 0 <= i < d.len() implies lrc_writable(#[trigger] d[i]) by {
            assert(d[i] == s[i]);
        }
        lemma_lines_of_lrc_file(d);
        lemma_lrc_line_text(e);
        let body = lrc_line_text(e);
        let tail = body + seq!['\n'];
        lemma_lines_append(lrc_file(d), tail);
        lemma_index_of(tail, '\n', body.len() as int);
        assert(tail.take(body.len() as int) =~= body);
        assert(tail.skip(body.len() as int + 1) =~= Seq::<char>::empty());
        lemma_trimmed_last(e.1);
        assert(strip_cr(body) == body);
        assert(tail.len() > 0);
        assert(index_of(tail, '\n') == body.len());
        assert(lines(Seq::<char>::empty()) =~= Seq::<Seq<char>>::empty());
        assert(lines(tail) == seq![strip_cr(tail.take(body.len() as int))] + lines(
            tail.skip(body.len() as int + 1),
        ));
        assert(lines(tail) =~= seq![body]);
        assert(lrc_file(s) =~= lrc_file(d) + tail);
        assert(s.map_values(|e: (u64, Seq<char>)| lrc_line_text(e)) =~= d.map_values(
            |e: (u64, Seq<char>)| lrc_line_text(e),
        ) + seq![body]);
    }
}

#[verifier::rlimit(40)]
proof fn lemma_entries_of_lrc_lines(s: Seq<(u64, Seq<char>)>)
    requires
        forall|i: int| 0 <= i < s.len() ==> lrc_writable(#[trigger] s[i]),
    ensures
        s.map_values(|e: (u64, Seq<char>)| lrc_line_text(e)).filter_map(
            |l: Seq<char>| lrc_entry(l),
        ) == s.map_values(|e: (u64, Seq<char>)| to_hundredths(e)),
    decreases s.len(),
{
    let m = s.map_values(|e: (u64, Seq<char>)| lrc_line_text(e));
    if s.len() == 0 {
        assert(m.filter_map(|l: Seq<char>| lrc_entry(l)) =~= s.map_values(
            |e: (u64, Seq<char>)| to_hundredths(e),
        ));
    } else {
        let d = s.drop_last();
        assert forall|i: int| 0 <= i < d.len() implies lrc_writable(#[trigger] d[i]) by {
            assert(d[i] == s[i]);
        }
        lemma_entries_of_lrc_lines(d);
        lemma_lrc_line_text(s.last());
        assert(m.drop_last() =~= d.map_values(|e: (u64, Seq<char>)| lrc_line_text(e)));
        assert(m.filter_map(|l: Seq<char>| lrc_entry(l)) =~= s.map_values(
            |e: (u64, Seq<char>)| to_hundredths(e),
        ));
    }
}

proof fn lemma_sort_sorted(s: Seq<(u64, Seq<char>)>)
    requires
        sorted_by_time(s),
    ensures
        sort_by_time(s) == s,
    decreases s.len(),
{
    if s.len() > 0 {
        lemma_sort_sorted(s.drop_last());
        assert(s.drop_last().push(s.last()) =~= s);
    }
}

/// Reading back an LRC file that holds `s` gives `s` sorted by time, each time rounded down
/// to hundredths of a second, provided each entry is below 100 minutes and has a text that is
/// non-empty, trimmed and free of line breaks.
pub proof fn lemma_lrc_round_trip(s: Seq<(u64, Seq<char>)>)
    requires
        forall|i: int| 0 <= i < s.len() ==> lrc_writable(#[trigger] s[i]),
    ensures
        lrc_lyrics(lrc_file(s)) == sort_by_time(
            s.map_values(|e: (u64, Seq<char>)| to_hundredths(e)),
        ),
{
    lemma_lines_of_lrc_file(s);
    lemma_entries_of_lrc_lines(s);
}

/// What is written as LRC in order of time reads back the same, times rounded down to
/// hundredths of a second (under the conditions of `lemma_lrc_round_trip`).
pub proof fn lemma_lrc_round_trip_sorted(s: Seq<(u64, Seq<char>)>)
    requires
        forall|i: int| 0 <= i < s.len() ==> lrc_writable(#[trigger] s[i]),
        sorted_by_time(s),
    ensures
        lrc_lyrics(lrc_file(s)) == s.map_values(|e: (u64, Seq<char>)| to_hundredths(e)),
{
    lemma_lrc_round_trip(s);
    let f = s.map_values(|e: (u64, Seq<char>)| to_hundredths(e));
    assert(sorted_by_time(f)) by {
        assert forall|i: int, j: int| 0 <= i <= j < f.len() implies f[i].0 <= f[j].0 by {
            let x = s[i].0 as int;
            let y = s[j].0 as int;
            assert(x / 10 * 10 <= y / 10 * 10) by (nonlinear_arith)
                requires
                    0 <= x <= y,
            ;
        }
    }
    lemma_sort_sorted(f);
}

} // verus!

verus! {

/// What matching lyrics online saves and reports: the LRC text of the lines and
/// `"Matched N lines"`, or the error `"No lyrics found online"` when there are none.
pub fn matched_lrc(lyrics: &Vec<LyricLine>) -> (r: Result<(String, String), String>)
    ensures
        lyrics@.len() == 0 ==> (r matches Err(e) && e@ == "No lyrics found online"@),
        lyrics@.len() > 0 ==> (r matches Ok((content, msg)) && content@ == lrc_file(
            lyric_views(lyrics@),
        ) && msg@ == "Matched "@ + decimal(lyrics@.len() as nat) + " lines"@),
{
    if lyrics.len() == 0 {
        return Err(crate::text::owned("No lyrics found online"));
    }
    let content = lyrics_to_lrc(lyrics);
    let mut m: Vec<char> = Vec::new();
    crate::text::push_str_chars(&mut m, "Matched ");
    crate::numbers::push_decimal(&mut m, lyrics.len() as u128);
    crate::text::push_str_chars(&mut m, " lines");
    assert(m@ =~= "Matched "@ + decimal(lyrics@.len() as nat) + " lines"@);
    Ok((content, string_of(&m)))
}

} // verus!
