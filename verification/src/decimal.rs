use vstd::prelude::*;

use crate::numbers::is_digit;
use crate::text::copy_range;

verus! {

/// The end of the run of ASCII digits in `s` that starts at `i`.
pub open spec fn digit_run(s: Seq<char>, i: int) -> int
    decreases s.len() - i,
{
    if 0 <= i < s.len() && is_digit(s[i]) {
        digit_run(s, i + 1)
    } else {
        i
    }
}

/// `s` spells `word` (lower-case ASCII letters), each letter in either case.
pub open spec fn letters_match(s: Seq<char>, word: Seq<char>) -> bool {
    s.len() == word.len() && forall|i: int|
        0 <= i < s.len() ==> (#[trigger] s[i] == word[i] || s[i] as u32 + 32 == word[i] as u32)
}

/// `b` is a decimal number: digits with at most one `'.'` among or after them (at least one
/// digit in all), then optionally `e` or `E`, an optional sign and one or more exponent
/// digits.
pub open spec fn number_syntax(b: Seq<char>) -> bool {
    let i1 = digit_run(b, 0);
    let point = i1 < b.len() && b[i1] == '.';
    let i2 = if point {
        digit_run(b, i1 + 1)
    } else {
        i1
    };
    let ndigits = if point {
        i2 - 1
    } else {
        i2
    };
    if ndigits == 0 {
        false
    } else if i2 == b.len() {
        true
    } else if b[i2] == 'e' || b[i2] == 'E' {
        let p = i2 + 1;
        let q = if p < b.len() && (b[p] == '+' || b[p] == '-') {
            p + 1
        } else {
            p
        };
        let r = digit_run(b, q);
        q < r && r == b.len()
    } else {
        false
    }
}

/// `s` is a float literal that the float parse of `str::parse` accepts: an optional sign, then
/// a decimal number as `number_syntax` says, or `inf`, `infinity` or `nan` with letters in any
/// case.
pub open spec fn float_syntax(s: Seq<char>) -> bool {
    let b = if s.len() > 0 && (s[0] == '+' || s[0] == '-') {
        s.drop_first()
    } else {
        s
    };
    b.len() > 0 && (number_syntax(b) || letters_match(b, seq!['i', 'n', 'f']) || letters_match(
        b,
        seq!['i', 'n', 'f', 'i', 'n', 'i', 't', 'y'],
    ) || letters_match(b, seq!['n', 'a', 'n']))
}

fn run_end(s: &[char], i: usize) -> (e: usize)
    requires
        i <= s@.len(),
    ensures
        e == digit_run(s@, i as int),
        i <= e <= s@.len(),
{
    let mut e = i;
    while e < s.len() && '0' <= s[e] && s[e] <= '9'
        invariant
            i <= e <= s@.len(),
            digit_run(s@, i as int) == digit_run(s@, e as int),
        decreases s@.len() - e,
    {
        e = e + 1;
    }
    e
}

fn letters_are(b: &[char], w: &[char]) -> (r: bool)
    ensures
        r == letters_match(b@, w@),
{
    if b.len() != w.len() {
        return false;
    }
    let mut i: usize = 0;
    while i < b.len()
        invariant
            b@.len() == w@.len(),
            i <= b@.len(),
            forall|k: int|
                0 <= k < i ==> (#[trigger] b@[k] == w@[k] || b@[k] as u32 + 32 == w@[k] as u32),
        decreases b@.len() - i,
    {
        let c = b[i];
        let x = w[i];
        if !(c == x || (x as u32 >= 32 && c as u32 == x as u32 - 32)) {
            return false;
        }
        i = i + 1;
    }
    true
}

/// Whether `b` is a decimal number, as `number_syntax` says.
fn is_number(b: &[char]) -> (r: bool)
    ensures
        r == number_syntax(b@),
{
    let n = b.len();
    let i1 = run_end(b, 0);
    let point = i1 < n && b[i1] == '.';
    let i2 = if point {
        run_end(b, i1 + 1)
    } else {
        i1
    };
    let ndigits = if point {
        i2 - 1
    } else {
        i2
    };
    if ndigits == 0 {
        return false;
    }
    if i2 == n {
        return true;
    }
    if !(b[i2] == 'e' || b[i2] == 'E') {
        return false;
    }
    let p = i2 + 1;
    let q = if p < n && (b[p] == '+' || b[p] == '-') {
        p + 1
    } else {
        p
    };
    let r = run_end(b, q);
    q < r && r == n
}

/// Whether `s` is a float literal, as `float_syntax` says.
pub fn is_float_literal(s: &[char]) -> (r: bool)
    ensures
        r == float_syntax(s@),
{
    let n = s.len();
    let st: usize = if n > 0 && (s[0] == '-' || s[0] == '+') {
        1
    } else {
        0
    };
    let b = copy_range(s, st, n);
    assert(b@ =~= if s@.len() > 0 && (s@[0] == '+' || s@[0] == '-') {
        s@.drop_first()
    } else {
        s@
    });
    if b.len() == 0 {
        return false;
    }
    let inf: [char; 3] = ['i', 'n', 'f'];
    let infinity: [char; 8] = ['i', 'n', 'f', 'i', 'n', 'i', 't', 'y'];
    let nan: [char; 3] = ['n', 'a', 'n'];
    assert(inf@ =~= seq!['i', 'n', 'f']);
    assert(infinity@ =~= seq!['i', 'n', 'f', 'i', 'n', 'i', 't', 'y']);
    assert(nan@ =~= seq!['n', 'a', 'n']);
    is_number(&b) || letters_are(&b, &inf) || letters_are(&b, &infinity) || letters_are(&b, &nan)
}

} // verus!
