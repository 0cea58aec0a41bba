use vstd::prelude::*;

use crate::text::string_of;
use vstd::string::StringSliceAdditionalSpecFns;

verus! {

/// The upper-case hexadecimal digit for `v < 16`.
pub open spec fn hex_upper(v: nat) -> char {
    if v < 10 {
        (v + '0' as u32) as char
    } else {
        ((v - 10) + 'A' as u32) as char
    }
}

/// A byte that stays as it is in a URL query: an ASCII letter or digit, `-`, `_`, `.`, `~`.
pub open spec fn is_unreserved(b: u8) -> bool {
    ||| 'A' as u8 <= b <= 'Z' as u8
    ||| 'a' as u8 <= b <= 'z' as u8
    ||| '0' as u8 <= b <= '9' as u8
    ||| b == '-' as u8
    ||| b == '_' as u8
    ||| b == '.' as u8
    ||| b == '~' as u8
}

/// How one byte is written in a URL query: unreserved bytes as they are, a space as `+`,
/// any other byte as `%` and two upper-case hexadecimal digits.
pub open spec fn url_byte(b: u8) -> Seq<char> {
    if is_unreserved(b) {
        seq![b as char]
    } else if b == 32 {
        seq!['+']
    } else {
        seq!['%', hex_upper((b / 16) as nat), hex_upper((b % 16) as nat)]
    }
}

/// The bytes `bs` encoded for a URL query, byte by byte.
pub open spec fn url_encode(bs: Seq<u8>) -> Seq<char>
    decreases bs.len(),
{
    if bs.len() == 0 {
        seq![]
    } else {
        url_encode(bs.drop_last()) + url_byte(bs.last())
    }
}

fn hex_digit(v: u8) -> (c: char)
    requires
        v < 16,
    ensures
        c == hex_upper(v as nat),
{
    if v < 10 {
        (v + 48) as char
    } else {
        (v - 10 + 65) as char
    }
}

/// The UTF-8 bytes of `s` encoded for a URL query (`+` for spaces, `%XX` for other bytes
/// that are not unreserved).
pub fn urlenc(s: &str) -> (r: String)
    ensures
        r@ == url_encode(s.spec_bytes()),
{
    let bytes = s.as_bytes();
    let n = bytes.len();
    let mut out: Vec<char> = Vec::new();
    for i in 0..n
        invariant
            n == bytes@.len(),
            bytes@ == s.spec_bytes(),
            out@ == url_encode(bytes@.take(i as int)),
    {
        let b = bytes[i];
        let ghost before = out@;
        if (65 <= b && b <= 90) || (97 <= b && b <= 122) || (48 <= b && b <= 57) || b == 45 || b
            == 95 || b == 46 || b == 126 {
            out.push(b as char);
        } else if b == 32 {
            out.push('+');
        } else {
            out.push('%');
            out.push(hex_digit(b / 16));
            out.push(hex_digit(b % 16));
        }
        assert(bytes@.take(i + 1).drop_last() =~= bytes@.take(i as int));
        assert(out@ =~= url_encode(bytes@.take(i + 1)));
    }
    assert(bytes@.take(n as int) =~= bytes@);
    string_of(&out)
}

/// The base64 digit for `v < 64` (`A-Z`, `a-z`, `0-9`, `+`, `/`).
pub open spec fn b64_digit(v: nat) -> char {
    if v < 26 {
        (v + 'A' as u32) as char
    } else if v < 52 {
        ((v - 26) + 'a' as u32) as char
    } else if v < 62 {
        ((v - 52) + '0' as u32) as char
    } else if v == 62 {
        '+'
    } else {
        '/'
    }
}

/// The four base64 characters of a group of one to three bytes, `=` standing for the
/// digits that missing bytes would give.
pub open spec fn b64_group(g: Seq<u8>) -> Seq<char> {
    let b0 = g[0] as nat;
    let b1 = if g.len() > 1 {
        g[1] as nat
    } else {
        0
    };
    let b2 = if g.len() > 2 {
        g[2] as nat
    } else {
        0
    };
    let n = b0 * 65536 + b1 * 256 + b2;
    seq![
        b64_digit(n / 262144 % 64),
        b64_digit(n / 4096 % 64),
        if g.len() > 1 {
            b64_digit(n / 64 % 64)
        } else {
            '='
        },
        if g.len() > 2 {
            b64_digit(n % 64)
        } else {
            '='
        },
    ]
}

/// Standard base64 with padding: each group of three bytes (the last may be shorter) as four
/// characters.
pub open spec fn base64(bs: Seq<u8>) -> Seq<char>
    decreases bs.len(),
{
    if bs.len() == 0 {
        seq![]
    } else if bs.len() <= 3 {
        b64_group(bs)
    } else {
        b64_group(bs.take(3)) + base64(bs.skip(3))
    }
}

/// Base64 text is four characters for every three bytes begun.
pub proof fn lemma_base64_len(bs: Seq<u8>)
    ensures
        base64(bs).len() == (bs.len() + 2) / 3 * 4,
    decreases bs.len(),
{
    if bs.len() > 3 {
        lemma_base64_len(bs.skip(3));
    }
}

fn b64_digit_exec(v: u32) -> (c: char)
    requires
        v < 64,
    ensures
        c == b64_digit(v as nat),
{
    let v8 = v as u8;
    if v8 < 26 {
        (v8 + 65) as char
    } else if v8 < 52 {
        (v8 - 26 + 97) as char
    } else if v8 < 62 {
        (v8 - 52 + 48) as char
    } else if v8 == 62 {
        '+'
    } else {
        '/'
    }
}

/// Standard base64 of `data`, with `=` padding.
pub fn base64_encode(data: &[u8]) -> (r: String)
    ensures
        r@ == base64(data@),
        r@.len() == (data@.len() + 2) / 3 * 4,
{
    let n = data.len();
    let mut out: Vec<char> = Vec::new();
    let mut i: usize = 0;
    assert(data@.skip(0) =~= data@);
    while i < n
        invariant
            n == data@.len(),
            i <= n,
            base64(data@) == out@ + base64(data@.skip(i as int)),
        decreases n - i,
    {
        let len = if n - i >= 3 {
            3
        } else {
            n - i
        };
        let ghost rest = data@.skip(i as int);
        let ghost g = data@.subrange(i as int, i + len);
        let b0 = data[i] as u32;
        let b1 = if len > 1 {
            data[i + 1] as u32
        } else {
            0
        };
        let b2 = if len > 2 {
            data[i + 2] as u32
        } else {
            0
        };
        let v = b0 * 65536 + b1 * 256 + b2;
        out.push(b64_digit_exec(v / 262144 % 64));
        out.push(b64_digit_exec(v / 4096 % 64));
        if len > 1 {
            out.push(b64_digit_exec(v / 64 % 64));
        } else {
            out.push('=');
        }
        if len > 2 {
            out.push(b64_digit_exec(v % 64));
        } else {
            out.push('=');
        }
        proof {
            assert(g[0] == data@[i as int]);
            if len > 1 {
                assert(g[1] == data@[i + 1]);
            }
            if len > 2 {
                assert(g[2] == data@[i + 2]);
            }
            if rest.len() <= 3 {
                assert(rest =~= g);
                assert(data@.skip(i + len) =~= Seq::<u8>::empty());
            } else {
                assert(rest.take(3) =~= g);
                assert(rest.skip(3) =~= data@.skip(i + len));
            }
        }
        assert(base64(data@) =~= out@ + base64(data@.skip(i + len)));
        i = i + len;
    }
    assert(data@.skip(n as int) =~= Seq::<u8>::empty());
    assert(out@ + base64(Seq::<u8>::empty()) =~= out@);
    proof {
        lemma_base64_len(data@);
    }
    string_of(&out)
}

/// A `data:` URL of a JPEG image holding `bytes` in base64, or nothing for no bytes.
pub fn image_data_url(bytes: &[u8]) -> (r: Option<String>)
    ensures
        bytes@.len() == 0 ==> r is None,
        bytes@.len() > 0 ==> (r matches Some(u) && u@ == image_data_prefix() + base64(bytes@)),
{
    if bytes.len() == 0 {
        return None;
    }
    let prefix = "data:image/jpeg;base64,";
    proof {
        reveal_strlit("data:image/jpeg;base64,");
    }
    assert(prefix@ =~= image_data_prefix());
    let mut out = crate::text::chars_of(prefix);
    let b = base64_encode(bytes);
    let bc = crate::text::chars_of(b.as_str());
    let ghost before = out@;
    for k in 0..bc.len()
        invariant
            out@ == before + bc@.take(k as int),
    {
        out.push(bc[k]);
        assert(out@ =~= before + bc@.take(k + 1));
    }
    assert(bc@.take(bc@.len() as int) =~= bc@);
    Some(string_of(&out))
}

/// The characters of `"data:image/jpeg;base64,"`.
pub open spec fn image_data_prefix() -> Seq<char> {
    seq![
        'd', 'a', 't', 'a', ':', 'i', 'm', 'a', 'g', 'e', '/', 'j', 'p', 'e', 'g', ';', 'b', 'a',
        's', 'e', '6', '4', ',',
    ]
}

} // verus!

verus! {

/// A character that may stand in an encoded URL query: an ASCII letter or digit, `-`, `_`,
/// `.`, `~`, `+` or `%`.
pub open spec fn is_query_char(c: char) -> bool {
    ||| 'A' <= c <= 'Z'
    ||| 'a' <= c <= 'z'
    ||| '0' <= c <= '9'
    ||| c == '-'
    ||| c == '_'
    ||| c == '.'
    ||| c == '~'
    ||| c == '+'
    ||| c == '%'
}

/// URL encoding yields only characters that are safe in a query, and every byte takes one or
/// three of them.
pub proof fn lemma_url_encode_safe(bs: Seq<u8>)
    ensures
        forall|i: int| 0 <= i < url_encode(bs).len() ==> is_query_char(#[trigger] url_encode(bs)[i]),
        bs.len() <= url_encode(bs).len() <= 3 * bs.len(),
    decreases bs.len(),
{
    if bs.len() > 0 {
        lemma_url_encode_safe(bs.drop_last());
        let a = url_encode(bs.drop_last());
        let b = url_byte(bs.last());
        assert(url_encode(bs) == a + b);
        assert forall|i: int| 0 <= i < b.len() implies is_query_char(#[trigger] b[i]) by {
            let x = bs.last();
            if is_unreserved(x) {
            } else if x == 32 {
            } else {
                assert((x / 16) as nat <= 15);
                assert((x % 16) as nat <= 15);
            }
        }
        assert forall|i: int| 0 <= i < url_encode(bs).len() implies is_query_char(
            #[trigger] url_encode(bs)[i],
        ) by {
            if i < a.len() {
                assert(url_encode(bs)[i] == a[i]);
            } else {
                assert(url_encode(bs)[i] == b[i - a.len()]);
            }
        }
    }
}


/// The value of a hexadecimal digit in either case, if `c` is one.
pub open spec fn hex_value(c: char) -> Option<nat> {
    if '0' <= c <= '9' {
        Some((c as u32 - '0' as u32) as nat)
    } else if 'A' <= c <= 'F' {
        Some((c as u32 - 'A' as u32 + 10) as nat)
    } else if 'a' <= c <= 'f' {
        Some((c as u32 - 'a' as u32 + 10) as nat)
    } else {
        None
    }
}

/// Form decoding of a query: `+` is a space, `%` with two hexadecimal digits is the byte they
/// spell, and any other character stands for the byte of its code.
pub open spec fn form_decode(s: Seq<char>) -> Seq<u8>
    decreases s.len(),
{
    if s.len() == 0 {
        seq![]
    } else if s[0] == '+' {
        seq![32u8] + form_decode(s.drop_first())
    } else if s[0] == '%' && s.len() >= 3 && hex_value(s[1]) is Some && hex_value(s[2]) is Some {
        seq![(hex_value(s[1]).unwrap() * 16 + hex_value(s[2]).unwrap()) as u8] + form_decode(
            s.skip(3),
        )
    } else {
        seq![s[0] as u8] + form_decode(s.drop_first())
    }
}

proof fn lemma_url_encode_first(bs: Seq<u8>)
    requires
        bs.len() > 0,
    ensures
        url_encode(bs) == url_byte(bs[0]) + url_encode(bs.drop_first()),
    decreases bs.len(),
{
    if bs.len() == 1 {
        assert(bs.drop_last() =~= Seq::<u8>::empty());
        assert(bs.drop_first() =~= Seq::<u8>::empty());
        assert(url_encode(bs.drop_last()) =~= Seq::<char>::empty());
        assert(bs.last() == bs[0]);
        assert(url_encode(bs) == url_encode(bs.drop_last()) + url_byte(bs.last()));
        assert(url_encode(bs) =~= url_byte(bs[0]));
        assert(url_byte(bs[0]) + url_encode(bs.drop_first()) =~= url_byte(bs[0]));
    } else {
        lemma_url_encode_first(bs.drop_last());
        assert(bs.drop_last().drop_first() =~= bs.drop_first().drop_last());
        assert(bs.drop_first().last() == bs.last());
        assert(url_encode(bs) =~= url_byte(bs[0]) + url_encode(bs.drop_first()));
    }
}

proof fn lemma_decode_byte(b: u8, rest: Seq<char>)
    ensures
        form_decode(url_byte(b) + rest) == seq![b] + form_decode(rest),
{
    let e = url_byte(b) + rest;
    if is_unreserved(b) {
        assert(e[0] == b as char);
        assert(e.drop_first() =~= rest);
        assert((b as char) as u8 == b);
    } else if b == 32 {
        assert(e[0] == '+');
        assert(e.drop_first() =~= rest);
    } else {
        let hi = (b / 16) as nat;
        let lo = (b % 16) as nat;
        assert(e[0] == '%');
        assert(e[1] == hex_upper(hi));
        assert(e[2] == hex_upper(lo));
        assert(hex_value(hex_upper(hi)) == Some(hi));
        assert(hex_value(hex_upper(lo)) == Some(lo));
        assert(e.skip(3) =~= rest);
        assert((hi * 16 + lo) as u8 == b);
    }
}

/// Form decoding gives back the bytes that URL encoding was given.
pub proof fn lemma_url_round_trip(bs: Seq<u8>)
    ensures
        form_decode(url_encode(bs)) == bs,
    decreases bs.len(),
{
    if bs.len() == 0 {
        assert(url_encode(bs) =~= Seq::<char>::empty());
    } else {
        lemma_url_encode_first(bs);
        lemma_decode_byte(bs[0], url_encode(bs.drop_first()));
        lemma_url_round_trip(bs.drop_first());
        assert(seq![bs[0]] + bs.drop_first() =~= bs);
    }
}

/// The value of a base64 digit (`A-Z`, `a-z`, `0-9`, `+`, `/`).
pub open spec fn b64_value(c: char) -> nat {
    if 'A' <= c <= 'Z' {
        (c as u32 - 'A' as u32) as nat
    } else if 'a' <= c <= 'z' {
        (c as u32 - 'a' as u32 + 26) as nat
    } else if '0' <= c <= '9' {
        (c as u32 - '0' as u32 + 52) as nat
    } else if c == '+' {
        62
    } else {
        63
    }
}

/// Standard base64 decoding of text in groups of four characters, where `=` pads the last
/// group: each group gives three bytes, or two or one before padding.
pub open spec fn base64_decode(s: Seq<char>) -> Seq<u8>
    decreases s.len(),
{
    if s.len() < 4 {
        seq![]
    } else {
        let n = b64_value(s[0]) * 262144 + b64_value(s[1]) * 4096 + (if s[2] == '=' {
            0
        } else {
            b64_value(s[2]) * 64
        }) + (if s[3] == '=' {
            0
        } else {
            b64_value(s[3])
        });
        let group = if s[2] == '=' {
            seq![(n / 65536) as u8]
        } else if s[3] == '=' {
            seq![(n / 65536) as u8, (n / 256 % 256) as u8]
        } else {
            seq![(n / 65536) as u8, (n / 256 % 256) as u8, (n % 256) as u8]
        };
        group + base64_decode(s.skip(4))
    }
}

proof fn lemma_b64_digit(v: nat)
    requires
        v < 64,
    ensures
        b64_value(b64_digit(v)) == v,
        b64_digit(v) != '=',
{
}

proof fn lemma_b64_arith(b0: u32, b1: u32, b2: u32)
    requires
        b0 < 256,
        b1 < 256,
        b2 < 256,
    ensures
        ({
            let n = b0 * 65536 + b1 * 256 + b2;
            &&& (n / 262144 % 64) * 262144 + (n / 4096 % 64) * 4096 + (n / 64 % 64) * 64 + n % 64
                == n
            &&& n / 65536 == b0
            &&& n / 256 % 256 == b1
            &&& n % 256 == b2
            &&& b1 == 0 && b2 == 0 ==> n / 64 % 64 == 0
            &&& b2 == 0 ==> n % 64 == 0
        }),
{
    assert({
        let n = b0 * 65536 + b1 * 256 + b2;
        &&& (n / 262144 % 64) * 262144 + (n / 4096 % 64) * 4096 + (n / 64 % 64) * 64 + n % 64
            == n
        &&& n / 65536 == b0
        &&& n / 256 % 256 == b1
        &&& n % 256 == b2
        &&& b1 == 0 && b2 == 0 ==> n / 64 % 64 == 0
        &&& b2 == 0 ==> n % 64 == 0
    }) by (bit_vector)
        requires
            b0 < 256,
            b1 < 256,
            b2 < 256,
    ;
}

proof fn lemma_decode_group(g: Seq<u8>, rest: Seq<char>)
    requires
        1 <= g.len() <= 3,
    ensures
        base64_decode(b64_group(g) + rest) == g + base64_decode(rest),
{
    let b0 = g[0] as u32;
    let b1: u32 = if g.len() > 1 {
        g[1] as u32
    } else {
        0
    };
    let b2: u32 = if g.len() > 2 {
        g[2] as u32
    } else {
        0
    };
    lemma_b64_arith(b0, b1, b2);
    let n = b0 * 65536 + b1 * 256 + b2;
    let e = b64_group(g) + rest;
    lemma_b64_digit((n / 262144 % 64) as nat);
    lemma_b64_digit((n / 4096 % 64) as nat);
    lemma_b64_digit((n / 64 % 64) as nat);
    lemma_b64_digit((n % 64) as nat);
    assert(e.skip(4) =~= rest);
    assert(e[0] == b64_group(g)[0]);
    assert(e[1] == b64_group(g)[1]);
    assert(e[2] == b64_group(g)[2]);
    assert(e[3] == b64_group(g)[3]);
    if g.len() == 1 {
        assert(seq![(n / 65536) as u8] =~= g);
    } else if g.len() == 2 {
        assert(seq![(n / 65536) as u8, (n / 256 % 256) as u8] =~= g);
    } else {
        assert(seq![(n / 65536) as u8, (n / 256 % 256) as u8, (n % 256) as u8] =~= g);
    }
}

/// Base64 decoding gives back the bytes that base64 encoding was given.
pub proof fn lemma_base64_round_trip(bs: Seq<u8>)
    ensures
        base64_decode(base64(bs)) == bs,
    decreases bs.len(),
{
    if bs.len() == 0 {
    } else if bs.len() <= 3 {
        lemma_decode_group(bs, seq![]);
        assert(b64_group(bs) + Seq::<char>::empty() =~= b64_group(bs));
        assert(bs + Seq::<u8>::empty() =~= bs);
    } else {
        lemma_decode_group(bs.take(3), base64(bs.skip(3)));
        lemma_base64_round_trip(bs.skip(3));
        assert(bs.take(3) + bs.skip(3) =~= bs);
    }
}

} // verus!
