use vstd::prelude::*;

verus! {

/// An ASCII decimal digit.
pub open spec fn is_digit(c: char) -> bool {
    '0' <= c <= '9'
}

/// The value of an ASCII decimal digit.
pub open spec fn digit_value(c: char) -> nat {
    (c as u32 - '0' as u32) as nat
}

/// Whether every character of `s` is an ASCII decimal digit.
pub open spec fn all_digits(s: Seq<char>) -> bool {
    forall|i: int| 0 <= i < s.len() ==> is_digit(#[trigger] s[i])
}

/// The number that the decimal digits `s` spell (most significant first).
pub open spec fn digits_value(s: Seq<char>) -> nat
    decreases s.len(),
{
    if s.len() == 0 {
        0
    } else {
        digits_value(s.drop_last()) * 10 + digit_value(s.last())
    }
}

/// The least power of two above every `u64`: the bound at which values saturate.
pub open spec fn two_pow_64() -> nat {
    0x1_0000_0000_0000_0000
}

/// `min(digits_value(s[lo..hi]), cap)`, for digits `s[lo..hi]`.
fn digits_value_below(s: &[char], lo: usize, hi: usize, cap: u128) -> (v: u128)
    requires
        lo <= hi <= s@.len(),
        all_digits(s@.subrange(lo as int, hi as int)),
        cap <= 0x1000_0000_0000_0000_0000_0000_0000_0000,
    ensures
        v as nat == if digits_value(s@.subrange(lo as int, hi as int)) < cap {
            digits_value(s@.subrange(lo as int, hi as int))
        } else {
            cap as nat
        },
{
    let mut v: u128 = 0;
    let mut k = lo;
    while k < hi
        invariant
            lo <= k <= hi <= s@.len(),
            all_digits(s@.subrange(lo as int, hi as int)),
            cap <= 0x1000_0000_0000_0000_0000_0000_0000_0000,
            v as nat == if digits_value(s@.subrange(lo as int, k as int)) < cap {
                digits_value(s@.subrange(lo as int, k as int))
            } else {
                cap as nat
            },
        decreases hi - k,
    {
        let ghost pre = s@.subrange(lo as int, k as int);
        let ghost nxt = s@.subrange(lo as int, k + 1);
        assert(nxt.drop_last() =~= pre);
        assert(nxt.last() == s@.subrange(lo as int, hi as int)[k - lo]);
        let c = s[k];
        let d = (c as u32 - '0' as u32) as u128;
        assert(d as nat == digit_value(c));
        if v >= cap {
            assert(digits_value(nxt) >= digits_value(pre)) by (nonlinear_arith)
                requires
                    digits_value(nxt) == digits_value(pre) * 10 + digit_value(c),
            ;
        } else {
            let w = v * 10 + d;
            v = if w >= cap {
                cap
            } else {
                w
            };
        }
        k = k + 1;
    }
    v
}

/// `min(digits_value(s[lo..hi]), 2^64)`, for digits `s[lo..hi]`.
pub fn digits_value_capped(s: &[char], lo: usize, hi: usize) -> (v: u128)
    requires
        lo <= hi <= s@.len(),
        all_digits(s@.subrange(lo as int, hi as int)),
    ensures
        v as nat == if digits_value(s@.subrange(lo as int, hi as int)) < two_pow_64() {
            digits_value(s@.subrange(lo as int, hi as int))
        } else {
            two_pow_64()
        },
{
    digits_value_below(s, lo, hi, 0x1_0000_0000_0000_0000)
}

/// `u32::from_str` / `u16::from_str`: an optional `'+'`, then one or more digits whose value
/// is at most `max`.
pub open spec fn uint_from_str(s: Seq<char>, max: nat) -> Option<nat> {
    let body = if s.len() > 0 && s[0] == '+' {
        s.drop_first()
    } else {
        s
    };
    if body.len() > 0 && all_digits(body) && digits_value(body) <= max {
        Some(digits_value(body))
    } else {
        None
    }
}

/// Parses `s[lo..hi]` as `uint_from_str` does, with `max` below `2^64`.
pub fn parse_uint(s: &[char], lo: usize, hi: usize, max: u64) -> (r: Option<u64>)
    requires
        lo <= hi <= s@.len(),
    ensures
        match uint_from_str(s@.subrange(lo as int, hi as int), max as nat) {
            Some(v) => r == Some(v as u64),
            None => r is None,
        },
{
    let ghost t = s@.subrange(lo as int, hi as int);
    let start = if lo < hi && s[lo] == '+' {
        lo + 1
    } else {
        lo
    };
    let ghost body = s@.subrange(start as int, hi as int);
    assert(body =~= if t.len() > 0 && t[0] == '+' {
        t.drop_first()
    } else {
        t
    });
    if start == hi {
        return None;
    }
    let mut k = start;
    while k < hi
        invariant
            start <= k <= hi <= s@.len(),
            body == s@.subrange(start as int, hi as int),
            t == s@.subrange(lo as int, hi as int),
            body == (if t.len() > 0 && t[0] == '+' {
                t.drop_first()
            } else {
                t
            }),
            forall|j: int| start <= j < k ==> is_digit(s@[j]),
        decreases hi - k,
    {
        if !('0' <= s[k] && s[k] <= '9') {
            assert(!is_digit(body[k - start]));
            return None;
        }
        k = k + 1;
    }
    assert(all_digits(body));
    let v = digits_value_capped(s, start, hi);
    if v > max as u128 {
        None
    } else {
        Some(v as u64)
    }
}

} // verus!

verus! {

/// The ASCII digit for `d < 10`.
pub open spec fn digit_char(d: nat) -> char {
    (d + '0' as u32) as char
}

/// The decimal digits of `n`, most significant first, without leading zeros (`"0"` for 0).
pub open spec fn decimal(n: nat) -> Seq<char>
    decreases n,
{
    if n < 10 {
        seq![digit_char(n)]
    } else {
        decimal(n / 10).push(digit_char(n % 10))
    }
}

/// `decimal(n)` with zeros in front up to `width` characters, as `{:0width$}` prints it.
pub open spec fn zero_padded(n: nat, width: nat) -> Seq<char> {
    let d = decimal(n);
    if d.len() < width {
        Seq::new((width - d.len()) as nat, |i: int| '0') + d
    } else {
        d
    }
}

/// The digit character for `d < 10`.
pub fn digit_to_char(d: u8) -> (c: char)
    requires
        d < 10,
    ensures
        c == digit_char(d as nat),
{
    (d + 48) as char
}

/// Appends the decimal digits of `n` to `out`.
pub fn push_decimal(out: &mut Vec<char>, n: u128)
    ensures
        final(out)@ == old(out)@ + decimal(n as nat),
    decreases n,
{
    if n >= 10 {
        push_decimal(out, n / 10);
    }
    let d = (n % 10) as u8;
    out.push(digit_to_char(d));
    proof {
        if n < 10 {
            assert(decimal(n as nat) =~= seq![digit_char(n as nat)]);
        }
    }
    assert(final(out)@ =~= old(out)@ + decimal(n as nat)) by {
        if n >= 10 {
            assert(decimal(n as nat) == decimal((n / 10) as nat).push(digit_char((n % 10) as nat)));
        }
    }
}

} // verus!

verus! {

/// The value of two digits.
pub proof fn lemma_digits_value_2(s: Seq<char>)
    requires
        s.len() == 2,
    ensures
        digits_value(s) == digit_value(s[0]) * 10 + digit_value(s[1]),
{
    let d = s.drop_last();
    assert(d.drop_last() =~= Seq::<char>::empty());
    assert(d.last() == s[0]);
    assert(digits_value(d.drop_last()) == 0);
    assert(digits_value(d) == digit_value(s[0]));
}

/// The value of three digits.
pub proof fn lemma_digits_value_3(s: Seq<char>)
    requires
        s.len() == 3,
    ensures
        digits_value(s) == digit_value(s[0]) * 100 + digit_value(s[1]) * 10 + digit_value(s[2]),
{
    lemma_digits_value_2(s.drop_last());
    assert(s.drop_last()[0] == s[0]);
    assert(s.drop_last()[1] == s[1]);
}

/// The value of an ASCII digit character.
pub fn digit_of(c: char) -> (d: u64)
    requires
        is_digit(c),
    ensures
        d == digit_value(c),
        d < 10,
{
    (c as u32 - '0' as u32) as u64
}

} // verus!

verus! {

/// Appends `n` in decimal, with zeros in front up to `width` characters.
pub fn push_zero_padded(out: &mut Vec<char>, n: u64, width: usize)
    ensures
        final(out)@ == old(out)@ + zero_padded(n as nat, width as nat),
{
    let ghost start = out@;
    let mut d: Vec<char> = Vec::new();
    push_decimal(&mut d, n as u128);
    assert(d@ =~= decimal(n as nat));
    let len = d.len();
    let ghost pad: Seq<char> = if len < width {
        Seq::new((width - len) as nat, |i: int| '0')
    } else {
        Seq::empty()
    };
    if len < width {
        let mut k: usize = 0;
        while k < width - len
            invariant
                len < width,
                k <= width - len,
                out@ == start + Seq::new(k as nat, |i: int| '0'),
            decreases width - len - k,
        {
            out.push('0');
            assert(out@ =~= start + Seq::new((k + 1) as nat, |i: int| '0'));
            k = k + 1;
        }
        assert(out@ =~= start + pad);
    } else {
        assert(out@ =~= start + pad);
    }
    let ghost mid = out@;
    for i in 0..len
        invariant
            len == d@.len(),
            out@ == mid + d@.take(i as int),
    {
        out.push(d[i]);
        assert(out@ =~= mid + d@.take(i + 1));
    }
    assert(d@.take(len as int) =~= d@);
    assert(out@ =~= start + zero_padded(n as nat, width as nat));
}

/// A number below 100 printed with two digits.
pub proof fn lemma_two_digits(n: nat)
    requires
        n < 100,
    ensures
        zero_padded(n, 2) == seq![digit_char(n / 10), digit_char(n % 10)],
        is_digit(digit_char(n / 10)),
        is_digit(digit_char(n % 10)),
        digit_value(digit_char(n / 10)) == n / 10,
        digit_value(digit_char(n % 10)) == n % 10,
{
    if n < 10 {
        assert(decimal(n) == seq![digit_char(n)]);
        assert(zero_padded(n, 2) =~= seq![digit_char(n / 10), digit_char(n % 10)]);
    } else {
        assert(decimal(n / 10) == seq![digit_char(n / 10)]);
        assert(zero_padded(n, 2) =~= seq![digit_char(n / 10), digit_char(n % 10)]);
    }
}

} // verus!

verus! {

/// A decimal digit of any script (Unicode general category Nd, as of Unicode 16), as the
/// pattern class `\d` matches it.
pub open spec fn is_decimal(c: char) -> bool {
    let v = c as u32;
    ||| 0x30 <= v <= 0x39
    ||| 0x660 <= v <= 0x669
    ||| 0x6F0 <= v <= 0x6F9
    ||| 0x7C0 <= v <= 0x7C9
    ||| 0x966 <= v <= 0x96F
    ||| 0x9E6 <= v <= 0x9EF
    ||| 0xA66 <= v <= 0xA6F
    ||| 0xAE6 <= v <= 0xAEF
    ||| 0xB66 <= v <= 0xB6F
    ||| 0xBE6 <= v <= 0xBEF
    ||| 0xC66 <= v <= 0xC6F
    ||| 0xCE6 <= v <= 0xCEF
    ||| 0xD66 <= v <= 0xD6F
    ||| 0xDE6 <= v <= 0xDEF
    ||| 0xE50 <= v <= 0xE59
    ||| 0xED0 <= v <= 0xED9
    ||| 0xF20 <= v <= 0xF29
    ||| 0x1040 <= v <= 0x1049
    ||| 0x1090 <= v <= 0x1099
    ||| 0x17E0 <= v <= 0x17E9
    ||| 0x1810 <= v <= 0x1819
    ||| 0x1946 <= v <= 0x194F
    ||| 0x19D0 <= v <= 0x19D9
    ||| 0x1A80 <= v <= 0x1A89
    ||| 0x1A90 <= v <= 0x1A99
    ||| 0x1B50 <= v <= 0x1B59
    ||| 0x1BB0 <= v <= 0x1BB9
    ||| 0x1C40 <= v <= 0x1C49
    ||| 0x1C50 <= v <= 0x1C59
    ||| 0xA620 <= v <= 0xA629
    ||| 0xA8D0 <= v <= 0xA8D9
    ||| 0xA900 <= v <= 0xA909
    ||| 0xA9D0 <= v <= 0xA9D9
    ||| 0xA9F0 <= v <= 0xA9F9
    ||| 0xAA50 <= v <= 0xAA59
    ||| 0xABF0 <= v <= 0xABF9
    ||| 0xFF10 <= v <= 0xFF19
    ||| 0x104A0 <= v <= 0x104A9
    ||| 0x10D30 <= v <= 0x10D39
    ||| 0x10D40 <= v <= 0x10D49
    ||| 0x11066 <= v <= 0x1106F
    ||| 0x110F0 <= v <= 0x110F9
    ||| 0x11136 <= v <= 0x1113F
    ||| 0x111D0 <= v <= 0x111D9
    ||| 0x112F0 <= v <= 0x112F9
    ||| 0x11450 <= v <= 0x11459
    ||| 0x114D0 <= v <= 0x114D9
    ||| 0x11650 <= v <= 0x11659
    ||| 0x116C0 <= v <= 0x116C9
    ||| 0x116D0 <= v <= 0x116E3
    ||| 0x11730 <= v <= 0x11739
    ||| 0x118E0 <= v <= 0x118E9
    ||| 0x11950 <= v <= 0x11959
    ||| 0x11BF0 <= v <= 0x11BF9
    ||| 0x11C50 <= v <= 0x11C59
    ||| 0x11D50 <= v <= 0x11D59
    ||| 0x11DA0 <= v <= 0x11DA9
    ||| 0x11F50 <= v <= 0x11F59
    ||| 0x16130 <= v <= 0x16139
    ||| 0x16A60 <= v <= 0x16A69
    ||| 0x16AC0 <= v <= 0x16AC9
    ||| 0x16B50 <= v <= 0x16B59
    ||| 0x16D70 <= v <= 0x16D79
    ||| 0x1CCF0 <= v <= 0x1CCF9
    ||| 0x1D7CE <= v <= 0x1D7FF
    ||| 0x1E140 <= v <= 0x1E149
    ||| 0x1E2F0 <= v <= 0x1E2F9
    ||| 0x1E4F0 <= v <= 0x1E4F9
    ||| 0x1E5F1 <= v <= 0x1E5FA
    ||| 0x1E950 <= v <= 0x1E959
    ||| 0x1FBF0 <= v <= 0x1FBF9
}

/// Whether `c` is a decimal digit of any script, as `is_decimal` says.
pub fn is_decimal_char(c: char) -> (b: bool)
    ensures
        b == is_decimal(c),
{
    let v = c as u32;
    (0x30 <= v && v <= 0x39) || (0x660 <= v && v <= 0x669) || (0x6F0 <= v && v <= 0x6F9)
        || (0x7C0 <= v && v <= 0x7C9) || (0x966 <= v && v <= 0x96F) || (0x9E6 <= v && v <= 0x9EF)
        || (0xA66 <= v && v <= 0xA6F) || (0xAE6 <= v && v <= 0xAEF) || (0xB66 <= v && v <= 0xB6F)
        || (0xBE6 <= v && v <= 0xBEF) || (0xC66 <= v && v <= 0xC6F) || (0xCE6 <= v && v <= 0xCEF)
        || (0xD66 <= v && v <= 0xD6F) || (0xDE6 <= v && v <= 0xDEF) || (0xE50 <= v && v <= 0xE59)
        || (0xED0 <= v && v <= 0xED9) || (0xF20 <= v && v <= 0xF29) || (0x1040 <= v && v <= 0x1049)
        || (0x1090 <= v && v <= 0x1099) || (0x17E0 <= v && v <= 0x17E9) || (0x1810 <= v && v <= 0x1819)
        || (0x1946 <= v && v <= 0x194F) || (0x19D0 <= v && v <= 0x19D9) || (0x1A80 <= v && v <= 0x1A89)
        || (0x1A90 <= v && v <= 0x1A99) || (0x1B50 <= v && v <= 0x1B59) || (0x1BB0 <= v && v <= 0x1BB9)
        || (0x1C40 <= v && v <= 0x1C49) || (0x1C50 <= v && v <= 0x1C59) || (0xA620 <= v && v <= 0xA629)
        || (0xA8D0 <= v && v <= 0xA8D9) || (0xA900 <= v && v <= 0xA909) || (0xA9D0 <= v && v <= 0xA9D9)
        || (0xA9F0 <= v && v <= 0xA9F9) || (0xAA50 <= v && v <= 0xAA59) || (0xABF0 <= v && v <= 0xABF9)
        || (0xFF10 <= v && v <= 0xFF19) || (0x104A0 <= v && v <= 0x104A9) || (0x10D30 <= v && v <= 0x10D39)
        || (0x10D40 <= v && v <= 0x10D49) || (0x11066 <= v && v <= 0x1106F) || (0x110F0 <= v && v <= 0x110F9)
        || (0x11136 <= v && v <= 0x1113F) || (0x111D0 <= v && v <= 0x111D9) || (0x112F0 <= v && v <= 0x112F9)
        || (0x11450 <= v && v <= 0x11459) || (0x114D0 <= v && v <= 0x114D9) || (0x11650 <= v && v <= 0x11659)
        || (0x116C0 <= v && v <= 0x116C9) || (0x116D0 <= v && v <= 0x116E3) || (0x11730 <= v && v <= 0x11739)
        || (0x118E0 <= v && v <= 0x118E9) || (0x11950 <= v && v <= 0x11959) || (0x11BF0 <= v && v <= 0x11BF9)
        || (0x11C50 <= v && v <= 0x11C59) || (0x11D50 <= v && v <= 0x11D59) || (0x11DA0 <= v && v <= 0x11DA9)
        || (0x11F50 <= v && v <= 0x11F59) || (0x16130 <= v && v <= 0x16139) || (0x16A60 <= v && v <= 0x16A69)
        || (0x16AC0 <= v && v <= 0x16AC9) || (0x16B50 <= v && v <= 0x16B59) || (0x16D70 <= v && v <= 0x16D79)
        || (0x1CCF0 <= v && v <= 0x1CCF9) || (0x1D7CE <= v && v <= 0x1D7FF) || (0x1E140 <= v && v <= 0x1E149)
        || (0x1E2F0 <= v && v <= 0x1E2F9) || (0x1E4F0 <= v && v <= 0x1E4F9) || (0x1E5F1 <= v && v <= 0x1E5FA)
        || (0x1E950 <= v && v <= 0x1E959) || (0x1FBF0 <= v && v <= 0x1FBF9)
}

} // verus!
