use vstd::prelude::*;

verus! {

broadcast use vstd::string::group_string_axioms;

/// `String::push` from std: appends one character at the end.
#[verifier::external_body]
fn push_char(s: &mut String, c: char)
    ensures
        final(s)@ == old(s)@.push(c),
{
    s.push(c);
}

/// The characters of a string slice, in order.
pub fn chars_of(s: &str) -> (v: Vec<char>)
    ensures
        v@ == s@,
{
    let mut v: Vec<char> = Vec::new();
    for c in it: s.chars()
        invariant
            it.seq() == s@,
            v@ == it.seq().take(it.index()),
    {
        v.push(c);
    }
    v
}

/// A `String` holding exactly the given characters.
pub fn string_of(v: &[char]) -> (s: String)
    ensures
        s@ == v@,
{
    let mut s = String::new();
    let n = v.len();
    for i in 0..n
        invariant
            n == v@.len(),
            s@ == v@.take(i as int),
    {
        push_char(&mut s, v[i]);
        assert(v@.take(i as int).push(v@[i as int]) =~= v@.take(i + 1));
    }
    assert(v@.take(n as int) =~= v@);
    s
}

} // verus!

verus! {

/// The Unicode `White_Space` property, which `char::is_whitespace` and `str::trim` use.
pub open spec fn is_ws(c: char) -> bool {
    let u = c as u32;
    ||| 0x09 <= u <= 0x0d
    ||| u == 0x20
    ||| u == 0x85
    ||| u == 0xa0
    ||| u == 0x1680
    ||| 0x2000 <= u <= 0x200a
    ||| u == 0x2028
    ||| u == 0x2029
    ||| u == 0x202f
    ||| u == 0x205f
    ||| u == 0x3000
}

/// Whether `c` is a white-space character.
pub fn is_whitespace(c: char) -> (b: bool)
    ensures
        b == is_ws(c),
{
    let u = c as u32;
    (0x09 <= u && u <= 0x0d) || u == 0x20 || u == 0x85 || u == 0xa0 || u == 0x1680 || (0x2000
        <= u && u <= 0x200a) || u == 0x2028 || u == 0x2029 || u == 0x202f || u == 0x205f || u
        == 0x3000
}

/// `s` without its leading white space.
pub open spec fn trim_start(s: Seq<char>) -> Seq<char>
    decreases s.len(),
{
    if s.len() > 0 && is_ws(s[0]) {
        trim_start(s.drop_first())
    } else {
        s
    }
}

/// `s` without its trailing white space.
pub open spec fn trim_end(s: Seq<char>) -> Seq<char>
    decreases s.len(),
{
    if s.len() > 0 && is_ws(s.last()) {
        trim_end(s.drop_last())
    } else {
        s
    }
}

/// `s` without leading and trailing white space, as `str::trim` gives it.
pub open spec fn trim(s: Seq<char>) -> Seq<char> {
    trim_end(trim_start(s))
}

proof fn lemma_trim_start_from(s: Seq<char>, i: int)
    requires
        0 <= i < s.len(),
        is_ws(s[i]),
    ensures
        trim_start(s.subrange(i, s.len() as int)) == trim_start(s.subrange(i + 1, s.len() as int)),
{
    assert(s.subrange(i, s.len() as int).drop_first() =~= s.subrange(i + 1, s.len() as int));
}

proof fn lemma_trim_end_upto(s: Seq<char>, j: int)
    requires
        0 < j <= s.len(),
        is_ws(s[j - 1]),
    ensures
        trim_end(s.subrange(0, j)) == trim_end(s.subrange(0, j - 1)),
{
    assert(s.subrange(0, j).drop_last() =~= s.subrange(0, j - 1));
}

/// The characters `s[lo..hi]` without leading and trailing white space.
pub fn trim_range(s: &[char], lo: usize, hi: usize) -> (r: Vec<char>)
    requires
        lo <= hi <= s@.len(),
    ensures
        r@ == trim(s@.subrange(lo as int, hi as int)),
        r@.len() <= hi - lo,
{
    let ghost t = s@.subrange(lo as int, hi as int);
    let mut a = lo;
    while a < hi && is_whitespace(s[a])
        invariant
            lo <= a <= hi <= s@.len(),
            t == s@.subrange(lo as int, hi as int),
            trim_start(t) == trim_start(s@.subrange(a as int, hi as int)),
        decreases hi - a,
    {
        proof {
            let u = s@.subrange(a as int, hi as int);
            lemma_trim_start_from(s@.subrange(0, hi as int), a as int);
            assert(s@.subrange(0, hi as int).subrange(a as int, hi as int) =~= u);
            assert(s@.subrange(0, hi as int).subrange(a + 1, hi as int) =~= s@.subrange(
                a + 1,
                hi as int,
            ));
        }
        a = a + 1;
    }
    let ghost m = s@.subrange(a as int, hi as int);
    assert(trim_start(m) == m);
    let mut b = hi;
    while b > a && is_whitespace(s[b - 1])
        invariant
            lo <= a <= b <= hi <= s@.len(),
            m == s@.subrange(a as int, hi as int),
            trim_end(m) == trim_end(s@.subrange(a as int, b as int)),
        decreases b - a,
    {
        proof {
            let u = s@.subrange(a as int, b as int);
            lemma_trim_end_upto(u, (b - a) as int);
            assert(u.subrange(0, (b - a) as int) =~= u);
            assert(u.subrange(0, (b - a - 1) as int) =~= s@.subrange(a as int, b - 1));
        }
        b = b - 1;
    }
    let ghost e = s@.subrange(a as int, b as int);
    assert(trim_end(e) == e);
    copy_range(s, a, b)
}

} // verus!

verus! {

/// Position of the first `c` in `s`, or `s.len()` when there is none.
pub open spec fn index_of(s: Seq<char>, c: char) -> int
    decreases s.len(),
{
    if s.len() == 0 {
        0
    } else if s[0] == c {
        0
    } else {
        1 + index_of(s.drop_first(), c)
    }
}

pub proof fn lemma_index_of_bound(s: Seq<char>, c: char)
    ensures
        0 <= index_of(s, c) <= s.len(),
        index_of(s, c) < s.len() ==> s[index_of(s, c)] == c,
        forall|k: int| 0 <= k < index_of(s, c) ==> s[k] != c,
    decreases s.len(),
{
    if s.len() > 0 && s[0] != c {
        lemma_index_of_bound(s.drop_first(), c);
        assert forall|k: int| 0 <= k < index_of(s, c) implies s[k] != c by {
            if k > 0 {
                assert(s[k] == s.drop_first()[k - 1]);
            }
        }
    }
}

pub proof fn lemma_index_of(t: Seq<char>, c: char, j: int)
    requires
        0 <= j <= t.len(),
        forall|k: int| 0 <= k < j ==> t[k] != c,
        j == t.len() || t[j] == c,
    ensures
        index_of(t, c) == j,
    decreases j,
{
    if j > 0 {
        lemma_index_of(t.drop_first(), c, j - 1);
    }
}

/// `s` without one trailing carriage return.
pub open spec fn strip_cr(s: Seq<char>) -> Seq<char> {
    if s.len() > 0 && s.last() == '\r' {
        s.drop_last()
    } else {
        s
    }
}

/// The lines of `s` as `str::lines` yields them: split at `'\n'`, a `'\r'` just before
/// a `'\n'` dropped, and no empty last line after a final line break.
pub open spec fn lines(s: Seq<char>) -> Seq<Seq<char>>
    decreases s.len(),
{
    if s.len() == 0 {
        seq![]
    } else {
        let k = index_of(s, '\n');
        proof {
            lemma_index_of_bound(s, '\n');
        }
        if k == s.len() {
            seq![s]
        } else {
            seq![strip_cr(s.take(k))] + lines(s.skip(k + 1))
        }
    }
}

/// The views of a sequence of strings.
pub open spec fn string_views(v: Seq<String>) -> Seq<Seq<char>> {
    v.map_values(|s: String| s@)
}

/// Views of a sequence of character vectors.
pub open spec fn views(v: Seq<Vec<char>>) -> Seq<Seq<char>> {
    v.map_values(|l: Vec<char>| l@)
}

/// The lines of `s`, as `str::lines` yields them.
pub fn split_lines(s: &[char]) -> (out: Vec<Vec<char>>)
    ensures
        views(out@) == lines(s@),
        forall|k: int| 0 <= k < out@.len() ==> (#[trigger] out@[k])@.len() <= s@.len(),
{
    let n = s.len();
    let mut out: Vec<Vec<char>> = Vec::new();
    let mut cur: Vec<char> = Vec::new();
    let mut start: usize = 0;
    let mut i: usize = 0;
    assert(s@.skip(0) =~= s@);
    assert(views(out@) + lines(s@) =~= lines(s@));
    while i < n
        invariant
            n == s@.len(),
            start <= i <= n,
            cur@ == s@.subrange(start as int, i as int),
            forall|k: int| start <= k < i ==> s@[k] != '\n',
            lines(s@) == views(out@) + lines(s@.skip(start as int)),
            forall|k: int| 0 <= k < out@.len() ==> (#[trigger] out@[k])@.len() <= n,
        decreases n - i,
    {
        let c = s[i];
        if c == '\n' {
            let ghost rest = s@.skip(start as int);
            proof {
                lemma_index_of(rest, '\n', (i - start) as int);
                assert(rest.take((i - start) as int) =~= cur@);
                assert(rest.skip((i - start) + 1) =~= s@.skip(i + 1));
            }
            let mut line = cur;
            let len = line.len();
            if len > 0 && line[len - 1] == '\r' {
                line.pop();
            }
            proof {
                assert(line@ == strip_cr(cur@));
                assert(views(out@.push(line)) =~= views(out@).push(line@));
            }
            out.push(line);
            cur = Vec::new();
            start = i + 1;
            proof {
                assert(lines(s@) =~= views(out@) + lines(s@.skip(start as int)));
            }
        } else {
            cur.push(c);
            assert(s@.subrange(start as int, i as int).push(c) =~= s@.subrange(
                start as int,
                i + 1,
            ));
        }
        i = i + 1;
    }
    let ghost rest = s@.skip(start as int);
    if cur.len() > 0 {
        proof {
            lemma_index_of(rest, '\n', (n - start) as int);
            assert(rest =~= cur@);
            assert(views(out@.push(cur)) =~= views(out@).push(cur@));
        }
        out.push(cur);
        proof {
            assert(lines(s@) =~= views(out@));
        }
    } else {
        assert(rest.len() == 0);
        assert(lines(s@) =~= views(out@));
    }
    out
}

} // verus!

verus! {

/// Pieces of `s` between the occurrences of `c`, as `str::split` yields them.
pub open spec fn split_on(s: Seq<char>, c: char) -> Seq<Seq<char>>
    decreases s.len(),
{
    let k = index_of(s, c);
    proof {
        lemma_index_of_bound(s, c);
    }
    if k == s.len() {
        seq![s]
    } else {
        seq![s.take(k)] + split_on(s.skip(k + 1), c)
    }
}

pub proof fn lemma_split_on_len(s: Seq<char>, c: char)
    ensures
        split_on(s, c).len() >= 1,
    decreases s.len(),
{
    lemma_index_of_bound(s, c);
    if index_of(s, c) < s.len() {
        lemma_split_on_len(s.skip(index_of(s, c) + 1), c);
    }
}

/// Position of the first `c` in `s[from..to]`, or `to` when there is none.
pub fn find_char(s: &[char], c: char, from: usize, to: usize) -> (k: usize)
    requires
        from <= to <= s@.len(),
    ensures
        from <= k <= to,
        k - from == index_of(s@.subrange(from as int, to as int), c),
        k < to ==> s@[k as int] == c,
        forall|j: int| from <= j < k ==> s@[j] != c,
{
    let mut k = from;
    while k < to && s[k] != c
        invariant
            from <= k <= to <= s@.len(),
            forall|j: int| from <= j < k ==> s@[j] != c,
        decreases to - k,
    {
        k = k + 1;
    }
    proof {
        lemma_index_of(s@.subrange(from as int, to as int), c, (k - from) as int);
    }
    k
}

/// A copy of `s[lo..hi]`.
pub fn copy_range(s: &[char], lo: usize, hi: usize) -> (r: Vec<char>)
    requires
        lo <= hi <= s@.len(),
    ensures
        r@ == s@.subrange(lo as int, hi as int),
{
    let mut r: Vec<char> = Vec::new();
    let mut k = lo;
    while k < hi
        invariant
            lo <= k <= hi <= s@.len(),
            r@ == s@.subrange(lo as int, k as int),
        decreases hi - k,
    {
        r.push(s[k]);
        assert(s@.subrange(lo as int, k as int).push(s@[k as int]) =~= s@.subrange(
            lo as int,
            k + 1,
        ));
        k = k + 1;
    }
    r
}

} // verus!

verus! {

/// Appends the characters of `s` to `out`.
pub fn push_str_chars(out: &mut Vec<char>, s: &str)
    ensures
        final(out)@ == old(out)@ + s@,
{
    let c = chars_of(s);
    let ghost before = out@;
    let n = c.len();
    for k in 0..n
        invariant
            n == c@.len(),
            out@ == before + c@.take(k as int),
    {
        out.push(c[k]);
        assert(out@ =~= before + c@.take(k + 1));
    }
    assert(c@.take(n as int) =~= c@);
}

/// `a` followed by `b`.
pub fn concat_str(a: &str, b: &str) -> (r: String)
    ensures
        r@ == a@ + b@,
{
    let mut out: Vec<char> = Vec::new();
    push_str_chars(&mut out, a);
    push_str_chars(&mut out, b);
    assert(out@ =~= a@ + b@);
    string_of(&out)
}

} // verus!

verus! {

/// `s` with every occurrence of the non-empty `pat` replaced by `rep`, scanning from the
/// left without overlaps, as `str::replace` does.
pub open spec fn replace_all(s: Seq<char>, pat: Seq<char>, rep: Seq<char>) -> Seq<char>
    decreases s.len(),
{
    if s.len() == 0 {
        s
    } else if pat.len() > 0 && s.len() >= pat.len() && s.take(pat.len() as int) == pat {
        rep + replace_all(s.skip(pat.len() as int), pat, rep)
    } else {
        seq![s[0]] + replace_all(s.drop_first(), pat, rep)
    }
}

/// Whether `pat` occurs in `s` at position `i`.
pub fn occurs_at(s: &[char], pat: &[char], i: usize) -> (b: bool)
    requires
        i <= s@.len(),
    ensures
        b == (s@.len() - i >= pat@.len() && s@.subrange(i as int, i + pat@.len()) == pat@),
{
    let n = s.len();
    let m = pat.len();
    if n - i < m {
        return false;
    }
    let mut k: usize = 0;
    while k < m
        invariant
            n == s@.len(),
            m == pat@.len(),
            i + m <= n,
            k <= m,
            forall|j: int| 0 <= j < k ==> s@[i + j] == pat@[j],
        decreases m - k,
    {
        if s[i + k] != pat[k] {
            assert(s@.subrange(i as int, i + m)[k as int] != pat@[k as int]);
            return false;
        }
        k = k + 1;
    }
    assert(s@.subrange(i as int, i + m) =~= pat@);
    true
}

/// `replace_all(s, pat, rep)`.
pub fn replace_all_exec(s: &str, pat: &str, rep: &str) -> (r: String)
    ensures
        r@ == replace_all(s@, pat@, rep@),
{
    let sc = chars_of(s);
    let pc = chars_of(pat);
    let n = sc.len();
    let mut out: Vec<char> = Vec::new();
    let mut i: usize = 0;
    assert(sc@.skip(0) =~= sc@);
    while i < n
        invariant
            n == sc@.len(),
            sc@ == s@,
            pc@ == pat@,
            i <= n,
            replace_all(s@, pat@, rep@) == out@ + replace_all(sc@.skip(i as int), pat@, rep@),
        decreases n - i,
    {
        let ghost rest = sc@.skip(i as int);
        if pc.len() > 0 && occurs_at(&sc, &pc, i) {
            assert(rest.take(pc@.len() as int) =~= sc@.subrange(i as int, i + pc@.len()));
            assert(rest.skip(pc@.len() as int) =~= sc@.skip(i + pc@.len()));
            let ghost before = out@;
            push_str_chars(&mut out, rep);
            assert(replace_all(s@, pat@, rep@) =~= out@ + replace_all(
                sc@.skip(i + pc@.len()),
                pat@,
                rep@,
            ));
            i = i + pc.len();
        } else {
            proof {
                if pc@.len() > 0 && rest.len() >= pc@.len() {
                    assert(rest.take(pc@.len() as int) =~= sc@.subrange(i as int, i + pc@.len()));
                }
            }
            out.push(sc[i]);
            assert(rest.drop_first() =~= sc@.skip(i + 1));
            assert(replace_all(s@, pat@, rep@) =~= out@ + replace_all(
                sc@.skip(i + 1),
                pat@,
                rep@,
            ));
            i = i + 1;
        }
    }
    assert(sc@.skip(n as int) =~= Seq::<char>::empty());
    assert(out@ + replace_all(Seq::<char>::empty(), pat@, rep@) =~= out@);
    string_of(&out)
}

} // verus!

verus! {

/// The leftmost position at `i` or later where the non-empty `pat` occurs in `s`, or
/// `s.len()` when it does not.
pub open spec fn find_seq_from(s: Seq<char>, pat: Seq<char>, i: int) -> int
    decreases s.len() - i,
{
    if i < 0 || i >= s.len() {
        s.len() as int
    } else if s.len() - i >= pat.len() && s.subrange(i, i + pat.len()) == pat {
        i
    } else {
        find_seq_from(s, pat, i + 1)
    }
}

/// `find_seq_from(s@, pat@, 0)`.
pub fn find_str(s: &[char], pat: &[char]) -> (k: usize)
    ensures
        k == find_seq_from(s@, pat@, 0),
        k <= s@.len(),
        k < s@.len() ==> s@.len() - k >= pat@.len() && s@.subrange(k as int, k + pat@.len())
            == pat@,
{
    let n = s.len();
    let mut i: usize = 0;
    while i < n
        invariant
            n == s@.len(),
            i <= n,
            find_seq_from(s@, pat@, 0) == find_seq_from(s@, pat@, i as int),
        decreases n - i,
    {
        if occurs_at(s, pat, i) {
            return i;
        }
        i = i + 1;
    }
    i
}

} // verus!

verus! {

/// An owned copy of `s`.
pub fn owned(s: &str) -> (r: String)
    ensures
        r@ == s@,
{
    let c = chars_of(s);
    string_of(&c)
}

} // verus!
