//! Character-level encodings for the token wire format.
//!
//! Every payload character is written as six lowercase hex digits of its
//! Unicode scalar value, a `u64` as sixteen hex digits, and a byte sequence
//! as two hex digits per byte. Each encoding is fixed-width and emits hex
//! digits only, so decoding is exact and segments framed by non-hex
//! delimiters split unambiguously; the inverses are proved below.

use vstd::prelude::*;

verus! {

use vstd::string::StrSliceExecFns;
use vstd::utf8::is_scalar;

broadcast use vstd::utf8::char_is_scalar, vstd::utf8::char_u32_cast;

pub open spec fn is_hex_digit(c: char) -> bool {
    (48 <= c as u32 && c as u32 <= 57) || (97 <= c as u32 && c as u32 <= 102)
}

/// The lowercase hex digit of a value below 16.
pub open spec fn hex_digit(v: u32) -> char {
    if v == 0 {
        '0'
    } else if v == 1 {
        '1'
    } else if v == 2 {
        '2'
    } else if v == 3 {
        '3'
    } else if v == 4 {
        '4'
    } else if v == 5 {
        '5'
    } else if v == 6 {
        '6'
    } else if v == 7 {
        '7'
    } else if v == 8 {
        '8'
    } else if v == 9 {
        '9'
    } else if v == 10 {
        'a'
    } else if v == 11 {
        'b'
    } else if v == 12 {
        'c'
    } else if v == 13 {
        'd'
    } else if v == 14 {
        'e'
    } else {
        'f'
    }
}

/// The value of a hex digit character.
pub open spec fn hex_val(c: char) -> u32 {
    if c as u32 <= 57 {
        (c as u32 - 48) as u32
    } else {
        (c as u32 - 87) as u32
    }
}

pub proof fn lemma_hex_digit_props(v: u32)
    requires
        v < 16,
    ensures
        is_hex_digit(hex_digit(v)),
        hex_val(hex_digit(v)) == v,
{
}

pub proof fn lemma_hex_val_digit(c: char)
    requires
        is_hex_digit(c),
    ensures
        hex_val(c) < 16,
        hex_digit(hex_val(c)) == c,
{
    let v = hex_val(c);
    assert(hex_digit(v) as u32 == c as u32);
    assert((hex_digit(v) as u32) as char == hex_digit(v));
    assert((c as u32) as char == c);
}

fn hex_digit_x(v: u32) -> (c: char)
    requires
        v < 16,
    ensures
        c == hex_digit(v),
{
    if v == 0 {
        '0'
    } else if v == 1 {
        '1'
    } else if v == 2 {
        '2'
    } else if v == 3 {
        '3'
    } else if v == 4 {
        '4'
    } else if v == 5 {
        '5'
    } else if v == 6 {
        '6'
    } else if v == 7 {
        '7'
    } else if v == 8 {
        '8'
    } else if v == 9 {
        '9'
    } else if v == 10 {
        'a'
    } else if v == 11 {
        'b'
    } else if v == 12 {
        'c'
    } else if v == 13 {
        'd'
    } else if v == 14 {
        'e'
    } else {
        'f'
    }
}

fn hex_val_x(c: char) -> (r: Option<u32>)
    ensures
        r matches Some(v) ==> v < 16 && is_hex_digit(c) && v == hex_val(c) && hex_digit(v)
            == c,
        r is None ==> !is_hex_digit(c),
{
    let u = c as u32;
    if 48 <= u && u <= 57 {
        proof {
            lemma_hex_val_digit(c);
        }
        Some(u - 48)
    } else if 97 <= u && u <= 102 {
        proof {
            lemma_hex_val_digit(c);
        }
        Some(u - 87)
    } else {
        None
    }
}

/// Relies on `char::from_u32` of core: it returns the character of exactly
/// the given Unicode scalar value, and `None` on a surrogate or a value
/// above the scalar range.
pub assume_specification[ char::from_u32 ](v: u32) -> (r: Option<char>)
    ensures
        r is Some <==> vstd::utf8::is_scalar(v),
        r matches Some(c) ==> c as u32 == v,
;

/// Six hex digits of a Unicode scalar value, most significant first.
pub open spec fn enc_scalar(n: u32) -> Seq<char> {
    seq![
        hex_digit((n >> 20) & 15),
        hex_digit((n >> 16) & 15),
        hex_digit((n >> 12) & 15),
        hex_digit((n >> 8) & 15),
        hex_digit((n >> 4) & 15),
        hex_digit(n & 15),
    ]
}

/// The fixed-width encoding of one character.
pub open spec fn enc_char(c: char) -> Seq<char> {
    enc_scalar(c as u32)
}

pub open spec fn combine6(v0: u32, v1: u32, v2: u32, v3: u32, v4: u32, v5: u32) -> u32 {
    (v0 << 20) | (v1 << 16) | (v2 << 12) | (v3 << 8) | (v4 << 4) | v5
}

proof fn lemma_scalar_digits_bound(n: u32)
    ensures
        (n >> 20) & 15 < 16,
        (n >> 16) & 15 < 16,
        (n >> 12) & 15 < 16,
        (n >> 8) & 15 < 16,
        (n >> 4) & 15 < 16,
        n & 15 < 16,
{
    assert((n >> 20) & 15 < 16 && (n >> 16) & 15 < 16 && (n >> 12) & 15 < 16 && (n >> 8) & 15
        < 16 && (n >> 4) & 15 < 16 && n & 15 < 16) by (bit_vector);
}

proof fn lemma_scalar_rebuild(n: u32)
    requires
        n < 0x1000000,
    ensures
        combine6((n >> 20) & 15, (n >> 16) & 15, (n >> 12) & 15, (n >> 8) & 15, (n >> 4) & 15, n & 15)
            == n,
{
    assert(((((n >> 20) & 15) << 20) | (((n >> 16) & 15) << 16) | (((n >> 12) & 15) << 12) | (((n
        >> 8) & 15) << 8) | (((n >> 4) & 15) << 4) | (n & 15)) == n) by (bit_vector)
        requires
            n < 0x1000000,
    ;
}

proof fn lemma_combine6_digits(v0: u32, v1: u32, v2: u32, v3: u32, v4: u32, v5: u32)
    requires
        v0 < 16,
        v1 < 16,
        v2 < 16,
        v3 < 16,
        v4 < 16,
        v5 < 16,
    ensures
        (combine6(v0, v1, v2, v3, v4, v5) >> 20) & 15 == v0,
        (combine6(v0, v1, v2, v3, v4, v5) >> 16) & 15 == v1,
        (combine6(v0, v1, v2, v3, v4, v5) >> 12) & 15 == v2,
        (combine6(v0, v1, v2, v3, v4, v5) >> 8) & 15 == v3,
        (combine6(v0, v1, v2, v3, v4, v5) >> 4) & 15 == v4,
        combine6(v0, v1, v2, v3, v4, v5) & 15 == v5,
        combine6(v0, v1, v2, v3, v4, v5) < 0x1000000,
{
    let n = (v0 << 20) | (v1 << 16) | (v2 << 12) | (v3 << 8) | (v4 << 4) | v5;
    assert((n >> 20) & 15 == v0 && (n >> 16) & 15 == v1 && (n >> 12) & 15 == v2 && (n >> 8) & 15
        == v3 && (n >> 4) & 15 == v4 && n & 15 == v5 && n < 0x1000000) by (bit_vector)
        requires
            v0 < 16 && v1 < 16 && v2 < 16 && v3 < 16 && v4 < 16 && v5 < 16,
            n == (v0 << 20) | (v1 << 16) | (v2 << 12) | (v3 << 8) | (v4 << 4) | v5,
    ;
}

pub proof fn lemma_enc_scalar_hex(n: u32)
    ensures
        forall|i: int| 0 <= i < 6 ==> is_hex_digit(#[trigger] enc_scalar(n)[i]),
        enc_scalar(n).len() == 6,
{
    lemma_scalar_digits_bound(n);
    lemma_hex_digit_props((n >> 20) & 15);
    lemma_hex_digit_props((n >> 16) & 15);
    lemma_hex_digit_props((n >> 12) & 15);
    lemma_hex_digit_props((n >> 8) & 15);
    lemma_hex_digit_props((n >> 4) & 15);
    lemma_hex_digit_props(n & 15);
    assert forall|i: int| 0 <= i < 6 implies is_hex_digit(#[trigger] enc_scalar(n)[i]) by {
        if i == 0 {
        } else if i == 1 {
        } else if i == 2 {
        } else if i == 3 {
        } else if i == 4 {
        } else {
        }
    }
}

/// Two characters with the same encoding are the same character.
pub proof fn lemma_enc_char_injective(c1: char, c2: char)
    requires
        enc_char(c1) == enc_char(c2),
    ensures
        c1 == c2,
{
    let n1 = c1 as u32;
    let n2 = c2 as u32;
    lemma_scalar_digits_bound(n1);
    lemma_scalar_digits_bound(n2);
    assert(enc_scalar(n1)[0] == enc_scalar(n2)[0]);
    assert(enc_scalar(n1)[1] == enc_scalar(n2)[1]);
    assert(enc_scalar(n1)[2] == enc_scalar(n2)[2]);
    assert(enc_scalar(n1)[3] == enc_scalar(n2)[3]);
    assert(enc_scalar(n1)[4] == enc_scalar(n2)[4]);
    assert(enc_scalar(n1)[5] == enc_scalar(n2)[5]);
    lemma_hex_digit_props((n1 >> 20) & 15);
    lemma_hex_digit_props((n1 >> 16) & 15);
    lemma_hex_digit_props((n1 >> 12) & 15);
    lemma_hex_digit_props((n1 >> 8) & 15);
    lemma_hex_digit_props((n1 >> 4) & 15);
    lemma_hex_digit_props(n1 & 15);
    lemma_hex_digit_props((n2 >> 20) & 15);
    lemma_hex_digit_props((n2 >> 16) & 15);
    lemma_hex_digit_props((n2 >> 12) & 15);
    lemma_hex_digit_props((n2 >> 8) & 15);
    lemma_hex_digit_props((n2 >> 4) & 15);
    lemma_hex_digit_props(n2 & 15);
    assert(is_scalar(n1) && is_scalar(n2));
    assert(n1 < 0x1000000 && n2 < 0x1000000);
    lemma_scalar_rebuild(n1);
    lemma_scalar_rebuild(n2);
    assert(n1 == n2);
    assert((n1 as char) == c1);
    assert((n2 as char) == c2);
}

/// Writes the six digits of `c` onto the end of `out`.
fn push_enc_char(out: &mut Vec<char>, c: char)
    ensures
        final(out)@ == old(out)@ + enc_char(c),
{
    let n = c as u32;
    proof {
        lemma_scalar_digits_bound(n);
    }
    out.push(hex_digit_x((n >> 20) & 15));
    out.push(hex_digit_x((n >> 16) & 15));
    out.push(hex_digit_x((n >> 12) & 15));
    out.push(hex_digit_x((n >> 8) & 15));
    out.push(hex_digit_x((n >> 4) & 15));
    out.push(hex_digit_x(n & 15));
    assert(out@ =~= old(out)@ + enc_char(c));
}

/// Reads one encoded character at offset `i`.
fn decode_one_char(v: &Vec<char>, i: usize) -> (r: Option<char>)
    requires
        i + 6 <= v@.len(),
    ensures
        r matches Some(c) ==> enc_char(c) == v@.subrange(i as int, i as int + 6),
        r is None ==> forall|c: char| enc_char(c) != v@.subrange(i as int, i as int + 6),
{
    let ghost chunk = v@.subrange(i as int, i as int + 6);
    let vlen: usize = v.len();
    proof {
        assert(i + 6 <= vlen);
    }
    let d0 = hex_val_x(v[i]);
    let d1 = hex_val_x(v[i + 1]);
    let d2 = hex_val_x(v[i + 2]);
    let d3 = hex_val_x(v[i + 3]);
    let d4 = hex_val_x(v[i + 4]);
    let d5 = hex_val_x(v[i + 5]);
    match (d0, d1, d2, d3, d4, d5) {
        (Some(v0), Some(v1), Some(v2), Some(v3), Some(v4), Some(v5)) => {
            let n = combine6_x(v0, v1, v2, v3, v4, v5);
            proof {
                lemma_combine6_digits(v0, v1, v2, v3, v4, v5);
            }
            match char::from_u32(n) {
                Some(c) => {
                    proof {
                        assert(c as u32 == n);
                        assert(enc_char(c) =~= chunk);
                    }
                    Some(c)
                },
                None => {
                    proof {
                        assert forall|c: char| enc_char(c) != chunk by {
                            if enc_char(c) == chunk {
                                let m = c as u32;
                                lemma_scalar_digits_bound(m);
                                vstd::utf8::char_is_scalar(c);
                                assert(is_scalar(m));
                                assert(m < 0x1000000);
                                assert(hex_digit((m >> 20) & 15) == hex_digit(v0));
                                assert(hex_digit((m >> 16) & 15) == hex_digit(v1));
                                assert(hex_digit((m >> 12) & 15) == hex_digit(v2));
                                assert(hex_digit((m >> 8) & 15) == hex_digit(v3));
                                assert(hex_digit((m >> 4) & 15) == hex_digit(v4));
                                assert(hex_digit(m & 15) == hex_digit(v5));
                                lemma_hex_digit_props((m >> 20) & 15);
                                lemma_hex_digit_props((m >> 16) & 15);
                                lemma_hex_digit_props((m >> 12) & 15);
                                lemma_hex_digit_props((m >> 8) & 15);
                                lemma_hex_digit_props((m >> 4) & 15);
                                lemma_hex_digit_props(m & 15);
                                lemma_hex_digit_props(v0);
                                lemma_hex_digit_props(v1);
                                lemma_hex_digit_props(v2);
                                lemma_hex_digit_props(v3);
                                lemma_hex_digit_props(v4);
                                lemma_hex_digit_props(v5);
                                lemma_scalar_rebuild(m);
                                assert(m == n);
                            }
                        }
                    }
                    None
                },
            }
        },
        _ => {
            proof {
                assert forall|c: char| enc_char(c) != chunk by {
                    if enc_char(c) == chunk {
                        lemma_enc_scalar_hex(c as u32);
                        assert(is_hex_digit(chunk[0]));
                        assert(is_hex_digit(chunk[1]));
                        assert(is_hex_digit(chunk[2]));
                        assert(is_hex_digit(chunk[3]));
                        assert(is_hex_digit(chunk[4]));
                        assert(is_hex_digit(chunk[5]));
                    }
                }
            }
            None
        },
    }
}

/// The fixed-width encoding of a character sequence: six hex digits per
/// character, in order.
pub open spec fn enc_str(s: Seq<char>) -> Seq<char>
    decreases s.len(),
{
    if s.len() == 0 {
        Seq::empty()
    } else {
        enc_char(s[0]) + enc_str(s.drop_first())
    }
}

pub proof fn lemma_enc_str_len(s: Seq<char>)
    ensures
        enc_str(s).len() == 6 * s.len(),
    decreases s.len(),
{
    if s.len() > 0 {
        lemma_enc_str_len(s.drop_first());
    }
}

pub proof fn lemma_enc_str_push(s: Seq<char>, c: char)
    ensures
        enc_str(s.push(c)) == enc_str(s) + enc_char(c),
    decreases s.len(),
{
    let t = s.push(c);
    if s.len() == 0 {
        assert(t.drop_first() =~= Seq::<char>::empty());
        assert(t[0] == c);
        assert(enc_str(t) == enc_char(c) + enc_str(t.drop_first()));
        assert(enc_str(t.drop_first()).len() == 0);
        assert(enc_str(s).len() == 0);
        assert(enc_str(t) =~= enc_str(s) + enc_char(c));
    } else {
        lemma_enc_str_push(s.drop_first(), c);
        assert(t.drop_first() =~= s.drop_first().push(c));
        assert(t[0] == s[0]);
        assert(enc_str(t) == enc_char(s[0]) + (enc_str(s.drop_first()) + enc_char(c)));
        assert(enc_str(t) =~= enc_str(s) + enc_char(c));
    }
}

pub proof fn lemma_enc_str_chunk(s: Seq<char>, k: int)
    requires
        0 <= k < s.len(),
    ensures
        6 * k + 6 <= enc_str(s).len(),
        enc_str(s).subrange(6 * k, 6 * k + 6) == enc_char(s[k]),
    decreases k,
{
    lemma_enc_str_len(s);
    lemma_enc_str_len(s.drop_first());
    if k == 0 {
        assert(enc_str(s).subrange(0, 6) =~= enc_char(s[0]));
    } else {
        lemma_enc_str_chunk(s.drop_first(), k - 1);
        assert(enc_str(s).subrange(6 * k, 6 * k + 6) =~= enc_str(s.drop_first()).subrange(
            6 * (k - 1),
            6 * (k - 1) + 6,
        ));
    }
}

pub proof fn lemma_enc_str_hex(s: Seq<char>)
    ensures
        forall|i: int| 0 <= i < enc_str(s).len() ==> is_hex_digit(#[trigger] enc_str(s)[i]),
    decreases s.len(),
{
    if s.len() > 0 {
        lemma_enc_scalar_hex(s[0] as u32);
        lemma_enc_str_hex(s.drop_first());
        assert forall|i: int| 0 <= i < enc_str(s).len() implies is_hex_digit(
            #[trigger] enc_str(s)[i],
        ) by {
            if i < 6 {
                assert(enc_str(s)[i] == enc_char(s[0])[i]);
            } else {
                assert(enc_str(s)[i] == enc_str(s.drop_first())[i - 6]);
            }
        }
    }
}

/// Two character sequences with the same encoding are the same sequence.
pub proof fn lemma_enc_str_injective(s1: Seq<char>, s2: Seq<char>)
    requires
        enc_str(s1) == enc_str(s2),
    ensures
        s1 == s2,
    decreases s1.len(),
{
    lemma_enc_str_len(s1);
    lemma_enc_str_len(s2);
    if s1.len() == 0 {
        assert(s1 =~= s2);
    } else {
        assert(enc_str(s1).subrange(0, 6) =~= enc_char(s1[0]));
        assert(enc_str(s2).subrange(0, 6) =~= enc_char(s2[0]));
        lemma_enc_char_injective(s1[0], s2[0]);
        lemma_enc_str_len(s1.drop_first());
        lemma_enc_str_len(s2.drop_first());
        assert(enc_str(s1.drop_first()) =~= enc_str(s1).subrange(6, enc_str(s1).len() as int));
        assert(enc_str(s2.drop_first()) =~= enc_str(s2).subrange(6, enc_str(s2).len() as int));
        lemma_enc_str_injective(s1.drop_first(), s2.drop_first());
        assert forall|i: int| 0 <= i < s1.len() implies s1[i] == s2[i] by {
            if i > 0 {
                assert(s1[i] == s1.drop_first()[i - 1]);
                assert(s2[i] == s2.drop_first()[i - 1]);
            }
        }
        assert(s1 =~= s2);
    }
}

/// Encodes a character sequence.
pub fn encode_str_chars(s: &Vec<char>) -> (r: Vec<char>)
    ensures
        r@ == enc_str(s@),
{
    let mut r: Vec<char> = Vec::new();
    let mut i: usize = 0;
    proof {
        assert(s@.subrange(0, 0) =~= Seq::<char>::empty());
    }
    while i < s.len()
        invariant
            i <= s@.len(),
            r@ == enc_str(s@.subrange(0, i as int)),
        decreases s@.len() - i,
    {
        proof {
            lemma_enc_str_push(s@.subrange(0, i as int), s@[i as int]);
            assert(s@.subrange(0, i as int).push(s@[i as int]) =~= s@.subrange(0, i as int + 1));
        }
        push_enc_char(&mut r, s[i]);
        i += 1;
    }
    proof {
        assert(s@.subrange(0, s@.len() as int) =~= s@);
    }
    r
}

/// Decodes a character sequence; `None` exactly when `v` is the encoding of
/// no sequence.
pub fn decode_str_chars(v: &Vec<char>) -> (r: Option<Vec<char>>)
    ensures
        r matches Some(s) ==> enc_str(s@) == v@,
        r is None ==> forall|s: Seq<char>| enc_str(s) != v@,
{
    if v.len() % 6 != 0 {
        proof {
            assert forall|s: Seq<char>| enc_str(s) != v@ by {
                if enc_str(s) == v@ {
                    lemma_enc_str_len(s);
                }
            }
        }
        return None;
    }
    let mut out: Vec<char> = Vec::new();
    let mut i: usize = 0;
    proof {
        assert(v@.subrange(0, 0) =~= Seq::<char>::empty());
    }
    while i < v.len()
        invariant
            i <= v@.len(),
            i % 6 == 0,
            v@.len() % 6 == 0,
            out@.len() == i / 6,
            enc_str(out@) == v@.subrange(0, i as int),
        decreases v@.len() - i,
    {
        proof {
            assert(i + 6 <= v@.len());
        }
        match decode_one_char(v, i) {
            Some(c) => {
                proof {
                    lemma_enc_str_push(out@, c);
                    assert(v@.subrange(0, i as int + 6) =~= v@.subrange(0, i as int) + v@.subrange(
                        i as int,
                        i as int + 6,
                    ));
                }
                out.push(c);
                i += 6;
            },
            None => {
                proof {
                    assert forall|s: Seq<char>| enc_str(s) != v@ by {
                        if enc_str(s) == v@ {
                            lemma_enc_str_len(s);
                            lemma_enc_str_chunk(s, i as int / 6);
                            assert(enc_char(s[i as int / 6]) == v@.subrange(
                                i as int,
                                i as int + 6,
                            ));
                        }
                    }
                }
                return None;
            },
        }
    }
    proof {
        assert(v@.subrange(0, v@.len() as int) =~= v@);
    }
    Some(out)
}

/// Sixteen hex digits of a `u64`, most significant first.
pub open spec fn hex_u64(n: u64) -> Seq<char> {
    seq![
        hex_digit(((n >> 60) & 15) as u32),
        hex_digit(((n >> 56) & 15) as u32),
        hex_digit(((n >> 52) & 15) as u32),
        hex_digit(((n >> 48) & 15) as u32),
        hex_digit(((n >> 44) & 15) as u32),
        hex_digit(((n >> 40) & 15) as u32),
        hex_digit(((n >> 36) & 15) as u32),
        hex_digit(((n >> 32) & 15) as u32),
        hex_digit(((n >> 28) & 15) as u32),
        hex_digit(((n >> 24) & 15) as u32),
        hex_digit(((n >> 20) & 15) as u32),
        hex_digit(((n >> 16) & 15) as u32),
        hex_digit(((n >> 12) & 15) as u32),
        hex_digit(((n >> 8) & 15) as u32),
        hex_digit(((n >> 4) & 15) as u32),
        hex_digit((n & 15) as u32),
    ]
}

proof fn lemma_u64_digits_bound(n: u64)
    ensures
        (n >> 60) & 15 < 16,
        (n >> 56) & 15 < 16,
        (n >> 52) & 15 < 16,
        (n >> 48) & 15 < 16,
        (n >> 44) & 15 < 16,
        (n >> 40) & 15 < 16,
        (n >> 36) & 15 < 16,
        (n >> 32) & 15 < 16,
        (n >> 28) & 15 < 16,
        (n >> 24) & 15 < 16,
        (n >> 20) & 15 < 16,
        (n >> 16) & 15 < 16,
        (n >> 12) & 15 < 16,
        (n >> 8) & 15 < 16,
        (n >> 4) & 15 < 16,
        n & 15 < 16,
{
    assert((n >> 60) & 15 < 16 && (n >> 56) & 15 < 16 && (n >> 52) & 15 < 16 && (n >> 48) & 15 < 16
        && (n >> 44) & 15 < 16 && (n >> 40) & 15 < 16 && (n >> 36) & 15 < 16 && (n >> 32) & 15 < 16
        && (n >> 28) & 15 < 16 && (n >> 24) & 15 < 16 && (n >> 20) & 15 < 16 && (n >> 16) & 15 < 16
        && (n >> 12) & 15 < 16 && (n >> 8) & 15 < 16 && (n >> 4) & 15 < 16 && n & 15
        < 16) by (bit_vector);
}

proof fn lemma_u64_rebuild(n: u64)
    ensures
        (((n >> 60) & 15) << 60) | (((n >> 56) & 15) << 56) | (((n >> 52) & 15) << 52) | (((n >> 48)
            & 15) << 48) | (((n >> 44) & 15) << 44) | (((n >> 40) & 15) << 40) | (((n >> 36) & 15)
            << 36) | (((n >> 32) & 15) << 32) | (((n >> 28) & 15) << 28) | (((n >> 24) & 15) << 24)
            | (((n >> 20) & 15) << 20) | (((n >> 16) & 15) << 16) | (((n >> 12) & 15) << 12) | (((n
            >> 8) & 15) << 8) | (((n >> 4) & 15) << 4) | (n & 15) == n,
{
    assert((((n >> 60) & 15) << 60) | (((n >> 56) & 15) << 56) | (((n >> 52) & 15) << 52) | (((n
        >> 48) & 15) << 48) | (((n >> 44) & 15) << 44) | (((n >> 40) & 15) << 40) | (((n >> 36)
        & 15) << 36) | (((n >> 32) & 15) << 32) | (((n >> 28) & 15) << 28) | (((n >> 24) & 15)
        << 24) | (((n >> 20) & 15) << 20) | (((n >> 16) & 15) << 16) | (((n >> 12) & 15) << 12) | (
    ((n >> 8) & 15) << 8) | (((n >> 4) & 15) << 4) | (n & 15) == n) by (bit_vector);
}

proof fn lemma_u64_combine_digits(
    n: u64,
    v0: u64,
    v1: u64,
    v2: u64,
    v3: u64,
    v4: u64,
    v5: u64,
    v6: u64,
    v7: u64,
    v8: u64,
    v9: u64,
    v10: u64,
    v11: u64,
    v12: u64,
    v13: u64,
    v14: u64,
    v15: u64,
)
    requires
        v0 < 16 && v1 < 16 && v2 < 16 && v3 < 16 && v4 < 16 && v5 < 16 && v6 < 16 && v7 < 16 && v8
            < 16 && v9 < 16 && v10 < 16 && v11 < 16 && v12 < 16 && v13 < 16 && v14 < 16 && v15
            < 16,
        n == (v0 << 60) | (v1 << 56) | (v2 << 52) | (v3 << 48) | (v4 << 44) | (v5 << 40) | (v6
            << 36) | (v7 << 32) | (v8 << 28) | (v9 << 24) | (v10 << 20) | (v11 << 16) | (v12 << 12)
            | (v13 << 8) | (v14 << 4) | v15,
    ensures
        (n >> 60) & 15 == v0,
        (n >> 56) & 15 == v1,
        (n >> 52) & 15 == v2,
        (n >> 48) & 15 == v3,
        (n >> 44) & 15 == v4,
        (n >> 40) & 15 == v5,
        (n >> 36) & 15 == v6,
        (n >> 32) & 15 == v7,
        (n >> 28) & 15 == v8,
        (n >> 24) & 15 == v9,
        (n >> 20) & 15 == v10,
        (n >> 16) & 15 == v11,
        (n >> 12) & 15 == v12,
        (n >> 8) & 15 == v13,
        (n >> 4) & 15 == v14,
        n & 15 == v15,
{
    assert((n >> 60) & 15 == v0 && (n >> 56) & 15 == v1 && (n >> 52) & 15 == v2 && (n >> 48) & 15
        == v3 && (n >> 44) & 15 == v4 && (n >> 40) & 15 == v5 && (n >> 36) & 15 == v6 && (n >> 32)
        & 15 == v7 && (n >> 28) & 15 == v8 && (n >> 24) & 15 == v9 && (n >> 20) & 15 == v10 && (n
        >> 16) & 15 == v11 && (n >> 12) & 15 == v12 && (n >> 8) & 15 == v13 && (n >> 4) & 15 == v14
        && n & 15 == v15) by (bit_vector)
        requires
            v0 < 16 && v1 < 16 && v2 < 16 && v3 < 16 && v4 < 16 && v5 < 16 && v6 < 16 && v7 < 16
                && v8 < 16 && v9 < 16 && v10 < 16 && v11 < 16 && v12 < 16 && v13 < 16 && v14 < 16
                && v15 < 16,
            n == (v0 << 60) | (v1 << 56) | (v2 << 52) | (v3 << 48) | (v4 << 44) | (v5 << 40) | (v6
                << 36) | (v7 << 32) | (v8 << 28) | (v9 << 24) | (v10 << 20) | (v11 << 16) | (v12
                << 12) | (v13 << 8) | (v14 << 4) | v15,
    ;
}

pub proof fn lemma_hex_u64_hex(n: u64)
    ensures
        hex_u64(n).len() == 16,
        forall|i: int| 0 <= i < 16 ==> is_hex_digit(#[trigger] hex_u64(n)[i]),
{
    lemma_u64_digits_bound(n);
    assert forall|v: u32| v < 16 implies is_hex_digit(#[trigger] hex_digit(v)) by {
        lemma_hex_digit_props(v);
    }
    assert forall|i: int| 0 <= i < 16 implies is_hex_digit(#[trigger] hex_u64(n)[i]) by {
        if i == 0 {
        } else if i == 1 {
        } else if i == 2 {
        } else if i == 3 {
        } else if i == 4 {
        } else if i == 5 {
        } else if i == 6 {
        } else if i == 7 {
        } else if i == 8 {
        } else if i == 9 {
        } else if i == 10 {
        } else if i == 11 {
        } else if i == 12 {
        } else if i == 13 {
        } else if i == 14 {
        } else {
        }
    }
}

/// Two nibbles whose hex digits agree are equal.
proof fn lemma_nib_eq(x: u64, y: u64)
    requires
        x < 16,
        y < 16,
        hex_digit(x as u32) == hex_digit(y as u32),
    ensures
        x == y,
{
    lemma_hex_digit_props(x as u32);
    lemma_hex_digit_props(y as u32);
}

/// Two `u64`s with the same hex form are equal.
pub proof fn lemma_hex_u64_injective(n1: u64, n2: u64)
    requires
        hex_u64(n1) == hex_u64(n2),
    ensures
        n1 == n2,
{
    lemma_u64_digits_bound(n1);
    lemma_u64_digits_bound(n2);
    lemma_nib_eq((n1 >> 60) & 15, (n2 >> 60) & 15);
    lemma_nib_eq((n1 >> 56) & 15, (n2 >> 56) & 15);
    lemma_nib_eq((n1 >> 52) & 15, (n2 >> 52) & 15);
    lemma_nib_eq((n1 >> 48) & 15, (n2 >> 48) & 15);
    lemma_nib_eq((n1 >> 44) & 15, (n2 >> 44) & 15);
    lemma_nib_eq((n1 >> 40) & 15, (n2 >> 40) & 15);
    lemma_nib_eq((n1 >> 36) & 15, (n2 >> 36) & 15);
    lemma_nib_eq((n1 >> 32) & 15, (n2 >> 32) & 15);
    lemma_nib_eq((n1 >> 28) & 15, (n2 >> 28) & 15);
    lemma_nib_eq((n1 >> 24) & 15, (n2 >> 24) & 15);
    lemma_nib_eq((n1 >> 20) & 15, (n2 >> 20) & 15);
    lemma_nib_eq((n1 >> 16) & 15, (n2 >> 16) & 15);
    lemma_nib_eq((n1 >> 12) & 15, (n2 >> 12) & 15);
    lemma_nib_eq((n1 >> 8) & 15, (n2 >> 8) & 15);
    lemma_nib_eq((n1 >> 4) & 15, (n2 >> 4) & 15);
    lemma_nib_eq(n1 & 15, n2 & 15);
    lemma_u64_rebuild(n1);
    lemma_u64_rebuild(n2);
}

/// Encodes a `u64` as sixteen hex digits.
pub fn encode_u64(n: u64) -> (r: Vec<char>)
    ensures
        r@ == hex_u64(n),
{
    proof {
        lemma_u64_digits_bound(n);
    }
    let mut r: Vec<char> = Vec::new();
    r.push(hex_digit_x(((n >> 60) & 15) as u32));
    r.push(hex_digit_x(((n >> 56) & 15) as u32));
    r.push(hex_digit_x(((n >> 52) & 15) as u32));
    r.push(hex_digit_x(((n >> 48) & 15) as u32));
    r.push(hex_digit_x(((n >> 44) & 15) as u32));
    r.push(hex_digit_x(((n >> 40) & 15) as u32));
    r.push(hex_digit_x(((n >> 36) & 15) as u32));
    r.push(hex_digit_x(((n >> 32) & 15) as u32));
    r.push(hex_digit_x(((n >> 28) & 15) as u32));
    r.push(hex_digit_x(((n >> 24) & 15) as u32));
    r.push(hex_digit_x(((n >> 20) & 15) as u32));
    r.push(hex_digit_x(((n >> 16) & 15) as u32));
    r.push(hex_digit_x(((n >> 12) & 15) as u32));
    r.push(hex_digit_x(((n >> 8) & 15) as u32));
    r.push(hex_digit_x(((n >> 4) & 15) as u32));
    r.push(hex_digit_x((n & 15) as u32));
    proof {
        assert(r@ =~= hex_u64(n));
    }
    r
}

/// Decodes sixteen hex digits into a `u64`; `None` exactly when `v` is the
/// hex form of no `u64`.
pub fn decode_u64(v: &Vec<char>) -> (r: Option<u64>)
    ensures
        r matches Some(n) ==> hex_u64(n) == v@,
        r is None ==> forall|n: u64| hex_u64(n) != v@,
{
    if v.len() != 16 {
        proof {
            assert forall|n: u64| hex_u64(n) != v@ by {
                if hex_u64(n) == v@ {
                    lemma_hex_u64_hex(n);
                }
            }
        }
        return None;
    }
    let mut vals: Vec<u32> = Vec::new();
    let mut i: usize = 0;
    while i < 16
        invariant
            v@.len() == 16,
            i <= 16,
            vals@.len() == i,
            forall|k: int|
                0 <= k < i ==> (#[trigger] vals@[k]) < 16 && hex_digit(vals@[k]) == v@[k],
        decreases 16 - i,
    {
        match hex_val_x(v[i]) {
            Some(x) => {
                vals.push(x);
                i += 1;
            },
            None => {
                proof {
                    assert forall|n: u64| hex_u64(n) != v@ by {
                        if hex_u64(n) == v@ {
                            lemma_hex_u64_hex(n);
                            assert(is_hex_digit(v@[i as int]));
                        }
                    }
                }
                return None;
            },
        }
    }
    let n: u64 = ((vals[0] as u64) << 60) | ((vals[1] as u64) << 56) | ((vals[2] as u64) << 52) | (
    (vals[3] as u64) << 48) | ((vals[4] as u64) << 44) | ((vals[5] as u64) << 40) | ((vals[6]
        as u64) << 36) | ((vals[7] as u64) << 32) | ((vals[8] as u64) << 28) | ((vals[9] as u64)
        << 24) | ((vals[10] as u64) << 20) | ((vals[11] as u64) << 16) | ((vals[12] as u64) << 12)
        | ((vals[13] as u64) << 8) | ((vals[14] as u64) << 4) | (vals[15] as u64);
    proof {
        lemma_u64_combine_digits(
            n,
            vals@[0] as u64,
            vals@[1] as u64,
            vals@[2] as u64,
            vals@[3] as u64,
            vals@[4] as u64,
            vals@[5] as u64,
            vals@[6] as u64,
            vals@[7] as u64,
            vals@[8] as u64,
            vals@[9] as u64,
            vals@[10] as u64,
            vals@[11] as u64,
            vals@[12] as u64,
            vals@[13] as u64,
            vals@[14] as u64,
            vals@[15] as u64,
        );
        assert(hex_u64(n) =~= v@);
    }
    Some(n)
}

/// Two hex digits per byte, high nibble first.
pub open spec fn hex_bytes(b: Seq<u8>) -> Seq<char>
    decreases b.len(),
{
    if b.len() == 0 {
        Seq::empty()
    } else {
        seq![hex_digit((b[0] >> 4) as u32), hex_digit((b[0] & 15) as u32)] + hex_bytes(
            b.drop_first(),
        )
    }
}

proof fn lemma_byte_digits_bound(b: u8)
    ensures
        b >> 4 < 16,
        b & 15 < 16,
        ((b >> 4) << 4) | (b & 15) == b,
{
    assert(b >> 4 < 16 && b & 15 < 16 && ((b >> 4) << 4) | (b & 15) == b) by (bit_vector);
}

proof fn lemma_byte_pack(hi: u8, lo: u8)
    requires
        hi < 16,
        lo < 16,
    ensures
        ((hi << 4) | lo) >> 4 == hi,
        ((hi << 4) | lo) & 15 == lo,
{
    assert(((hi << 4) | lo) >> 4 == hi && ((hi << 4) | lo) & 15 == lo) by (bit_vector)
        requires
            hi < 16 && lo < 16,
    ;
}

pub proof fn lemma_hex_bytes_len(b: Seq<u8>)
    ensures
        hex_bytes(b).len() == 2 * b.len(),
    decreases b.len(),
{
    if b.len() > 0 {
        lemma_hex_bytes_len(b.drop_first());
    }
}

pub proof fn lemma_hex_bytes_push(b: Seq<u8>, x: u8)
    ensures
        hex_bytes(b.push(x)) == hex_bytes(b) + seq![
            hex_digit((x >> 4) as u32),
            hex_digit((x & 15) as u32),
        ],
    decreases b.len(),
{
    let t = b.push(x);
    let pair = seq![hex_digit((x >> 4) as u32), hex_digit((x & 15) as u32)];
    if b.len() == 0 {
        assert(t.drop_first() =~= Seq::<u8>::empty());
        assert(t[0] == x);
        assert(hex_bytes(t) == pair + hex_bytes(t.drop_first()));
        assert(hex_bytes(t) =~= hex_bytes(b) + pair);
    } else {
        lemma_hex_bytes_push(b.drop_first(), x);
        assert(t.drop_first() =~= b.drop_first().push(x));
        assert(t[0] == b[0]);
        assert(hex_bytes(t) == seq![hex_digit((b[0] >> 4) as u32), hex_digit((b[0] & 15) as u32)]
            + (hex_bytes(b.drop_first()) + pair));
        assert(hex_bytes(t) =~= hex_bytes(b) + pair);
    }
}

pub proof fn lemma_hex_bytes_chunk(b: Seq<u8>, k: int)
    requires
        0 <= k < b.len(),
    ensures
        2 * k + 2 <= hex_bytes(b).len(),
        hex_bytes(b).subrange(2 * k, 2 * k + 2) == seq![
            hex_digit((b[k] >> 4) as u32),
            hex_digit((b[k] & 15) as u32),
        ],
    decreases k,
{
    lemma_hex_bytes_len(b);
    lemma_hex_bytes_len(b.drop_first());
    if k == 0 {
        assert(hex_bytes(b).subrange(0, 2) =~= seq![
            hex_digit((b[0] >> 4) as u32),
            hex_digit((b[0] & 15) as u32),
        ]);
    } else {
        lemma_hex_bytes_chunk(b.drop_first(), k - 1);
        assert(hex_bytes(b).subrange(2 * k, 2 * k + 2) =~= hex_bytes(b.drop_first()).subrange(
            2 * (k - 1),
            2 * (k - 1) + 2,
        ));
    }
}

pub proof fn lemma_hex_bytes_hex(b: Seq<u8>)
    ensures
        forall|i: int| 0 <= i < hex_bytes(b).len() ==> is_hex_digit(#[trigger] hex_bytes(b)[i]),
    decreases b.len(),
{
    if b.len() > 0 {
        lemma_byte_digits_bound(b[0]);
        lemma_hex_digit_props((b[0] >> 4) as u32);
        lemma_hex_digit_props((b[0] & 15) as u32);
        lemma_hex_bytes_hex(b.drop_first());
        assert forall|i: int| 0 <= i < hex_bytes(b).len() implies is_hex_digit(
            #[trigger] hex_bytes(b)[i],
        ) by {
            if i >= 2 {
                assert(hex_bytes(b)[i] == hex_bytes(b.drop_first())[i - 2]);
            }
        }
    }
}

/// Two byte sequences with the same hex form are the same sequence.
pub proof fn lemma_hex_bytes_injective(b1: Seq<u8>, b2: Seq<u8>)
    requires
        hex_bytes(b1) == hex_bytes(b2),
    ensures
        b1 == b2,
    decreases b1.len(),
{
    lemma_hex_bytes_len(b1);
    lemma_hex_bytes_len(b2);
    if b1.len() == 0 {
        assert(b1 =~= b2);
    } else {
        let pair1 = seq![hex_digit((b1[0] >> 4) as u32), hex_digit((b1[0] & 15) as u32)];
        let pair2 = seq![hex_digit((b2[0] >> 4) as u32), hex_digit((b2[0] & 15) as u32)];
        assert(hex_bytes(b1) == pair1 + hex_bytes(b1.drop_first()));
        assert(hex_bytes(b2) == pair2 + hex_bytes(b2.drop_first()));
        assert(hex_bytes(b1)[0] == pair1[0] && hex_bytes(b1)[1] == pair1[1]);
        assert(hex_bytes(b2)[0] == pair2[0] && hex_bytes(b2)[1] == pair2[1]);
        assert(hex_digit((b1[0] >> 4) as u32) == hex_digit((b2[0] >> 4) as u32));
        assert(hex_digit((b1[0] & 15) as u32) == hex_digit((b2[0] & 15) as u32));
        lemma_byte_digits_bound(b1[0]);
        lemma_byte_digits_bound(b2[0]);
        assert(((b1[0] >> 4) as u64) as u32 == (b1[0] >> 4) as u32);
        assert(((b2[0] >> 4) as u64) as u32 == (b2[0] >> 4) as u32);
        assert(((b1[0] & 15) as u64) as u32 == (b1[0] & 15) as u32);
        assert(((b2[0] & 15) as u64) as u32 == (b2[0] & 15) as u32);
        lemma_nib_eq((b1[0] >> 4) as u64, (b2[0] >> 4) as u64);
        lemma_nib_eq((b1[0] & 15) as u64, (b2[0] & 15) as u64);
        assert(b1[0] == b2[0]);
        lemma_hex_bytes_len(b1.drop_first());
        lemma_hex_bytes_len(b2.drop_first());
        assert(hex_bytes(b1.drop_first()) =~= hex_bytes(b1).subrange(
            2,
            hex_bytes(b1).len() as int,
        ));
        assert(hex_bytes(b2.drop_first()) =~= hex_bytes(b2).subrange(
            2,
            hex_bytes(b2).len() as int,
        ));
        lemma_hex_bytes_injective(b1.drop_first(), b2.drop_first());
        assert forall|i: int| 0 <= i < b1.len() implies b1[i] == b2[i] by {
            if i > 0 {
                assert(b1[i] == b1.drop_first()[i - 1]);
                assert(b2[i] == b2.drop_first()[i - 1]);
            }
        }
        assert(b1 =~= b2);
    }
}

/// Encodes a byte sequence as hex.
pub fn encode_bytes_hex(b: &Vec<u8>) -> (r: Vec<char>)
    ensures
        r@ == hex_bytes(b@),
{
    let mut r: Vec<char> = Vec::new();
    let mut i: usize = 0;
    proof {
        assert(b@.subrange(0, 0) =~= Seq::<u8>::empty());
    }
    while i < b.len()
        invariant
            i <= b@.len(),
            r@ == hex_bytes(b@.subrange(0, i as int)),
        decreases b@.len() - i,
    {
        let x = b[i];
        proof {
            lemma_byte_digits_bound(x);
            lemma_hex_bytes_push(b@.subrange(0, i as int), x);
            assert(b@.subrange(0, i as int).push(x) =~= b@.subrange(0, i as int + 1));
        }
        r.push(hex_digit_x((x >> 4) as u32));
        r.push(hex_digit_x((x & 15) as u32));
        i += 1;
        assert(r@ =~= hex_bytes(b@.subrange(0, i as int)));
    }
    proof {
        assert(b@.subrange(0, b@.len() as int) =~= b@);
    }
    r
}

/// Decodes a hex form back into bytes; `None` exactly when `v` is the hex
/// form of no byte sequence.
pub fn decode_bytes_hex(v: &Vec<char>) -> (r: Option<Vec<u8>>)
    ensures
        r matches Some(b) ==> hex_bytes(b@) == v@,
        r is None ==> forall|b: Seq<u8>| hex_bytes(b) != v@,
{
    if v.len() % 2 != 0 {
        proof {
            assert forall|b: Seq<u8>| hex_bytes(b) != v@ by {
                if hex_bytes(b) == v@ {
                    lemma_hex_bytes_len(b);
                }
            }
        }
        return None;
    }
    let mut out: Vec<u8> = Vec::new();
    let mut i: usize = 0;
    proof {
        assert(v@.subrange(0, 0) =~= Seq::<char>::empty());
    }
    while i < v.len()
        invariant
            i <= v@.len(),
            i % 2 == 0,
            v@.len() % 2 == 0,
            out@.len() == i / 2,
            hex_bytes(out@) == v@.subrange(0, i as int),
        decreases v@.len() - i,
    {
        let vlen: usize = v.len();
        proof {
            assert(i + 2 <= vlen);
        }
        let d0 = hex_val_x(v[i]);
        let d1 = hex_val_x(v[i + 1]);
        match (d0, d1) {
            (Some(hi), Some(lo)) => {
                let x: u8 = ((hi as u8) << 4) | (lo as u8);
                proof {
                    lemma_byte_pack(hi as u8, lo as u8);
                    assert(x >> 4 == hi as u8 && x & 15 == lo as u8);
                    lemma_hex_bytes_push(out@, x);
                    assert(v@.subrange(0, i as int + 2) =~= v@.subrange(0, i as int) + v@.subrange(
                        i as int,
                        i as int + 2,
                    ));
                    assert(seq![hex_digit((x >> 4) as u32), hex_digit((x & 15) as u32)]
                        =~= v@.subrange(i as int, i as int + 2));
                }
                out.push(x);
                i += 2;
            },
            _ => {
                proof {
                    assert forall|b: Seq<u8>| hex_bytes(b) != v@ by {
                        if hex_bytes(b) == v@ {
                            lemma_hex_bytes_len(b);
                            lemma_hex_bytes_hex(b);
                            assert(is_hex_digit(v@[i as int]));
                            assert(is_hex_digit(v@[i as int + 1]));
                        }
                    }
                }
                return None;
            },
        }
    }
    proof {
        assert(v@.subrange(0, v@.len() as int) =~= v@);
    }
    Some(out)
}

fn combine6_x(v0: u32, v1: u32, v2: u32, v3: u32, v4: u32, v5: u32) -> (n: u32)
    requires
        v0 < 16,
        v1 < 16,
        v2 < 16,
        v3 < 16,
        v4 < 16,
        v5 < 16,
    ensures
        n == combine6(v0, v1, v2, v3, v4, v5),
{
    (v0 << 20u32) | (v1 << 16u32) | (v2 << 12u32) | (v3 << 8u32) | (v4 << 4u32) | v5
}

/// The characters of a string slice, in order.
pub fn str_chars(s: &str) -> (r: Vec<char>)
    ensures
        r@ == s@,
{
    let n = s.unicode_len();
    let mut r: Vec<char> = Vec::new();
    let mut i: usize = 0;
    while i < n
        invariant
            n == s@.len(),
            i <= n,
            r@ == s@.subrange(0, i as int),
        decreases n - i,
    {
        r.push(s.get_char(i));
        i += 1;
        assert(r@ =~= s@.subrange(0, i as int));
    }
    proof {
        assert(s@.subrange(0, s@.len() as int) =~= s@);
    }
    r
}

/// Relies on `String: FromIterator<char>` of std: collecting characters
/// builds the string of exactly those characters, in order.
#[verifier::external_body]
pub fn chars_to_string(v: &Vec<char>) -> (s: String)
    ensures
        s@ == v@,
{
    v.iter().collect()
}

/// Copies `v[from..to]` out.
pub fn sub_chars(v: &Vec<char>, from: usize, to: usize) -> (r: Vec<char>)
    requires
        from <= to <= v@.len(),
    ensures
        r@ == v@.subrange(from as int, to as int),
{
    let mut r: Vec<char> = Vec::new();
    let mut i: usize = from;
    proof {
        assert(v@.subrange(from as int, from as int) =~= Seq::<char>::empty());
    }
    while i < to
        invariant
            from <= i <= to <= v@.len(),
            r@ == v@.subrange(from as int, i as int),
        decreases to - i,
    {
        r.push(v[i]);
        i += 1;
        assert(r@ =~= v@.subrange(from as int, i as int));
    }
    r
}

/// The first occurrence of `sep` in `v` at or after `from`.
pub fn find_char(v: &Vec<char>, from: usize, sep: char) -> (r: Option<usize>)
    requires
        from <= v@.len(),
    ensures
        r matches Some(p) ==> from <= p < v@.len() && v@[p as int] == sep && forall|j: int|
            from <= j < p ==> v@[j] != sep,
        r is None ==> forall|j: int| from <= j < v@.len() ==> v@[j] != sep,
{
    let mut i: usize = from;
    while i < v.len()
        invariant
            from <= i <= v@.len(),
            forall|j: int| from <= j < i ==> v@[j] != sep,
        decreases v@.len() - i,
    {
        if v[i] == sep {
            return Some(i);
        }
        i += 1;
    }
    None
}

/// Whether two character vectors hold the same characters.
pub fn chars_eq(a: &Vec<char>, b: &Vec<char>) -> (r: bool)
    ensures
        r == (a@ == b@),
{
    if a.len() != b.len() {
        return false;
    }
    let mut i: usize = 0;
    while i < a.len()
        invariant
            a@.len() == b@.len(),
            i <= a@.len(),
            forall|j: int| 0 <= j < i ==> a@[j] == b@[j],
        decreases a@.len() - i,
    {
        if a[i] != b[i] {
            return false;
        }
        i += 1;
    }
    proof {
        assert(a@ =~= b@);
    }
    true
}

/// A head segment free of the separator, the separator, and a remainder
/// determine each other: the decomposition of a sequence as
/// `head + [sep] + rest` with a separator-free head is unique.
pub proof fn lemma_sep_head_unique(
    a1: Seq<char>,
    r1: Seq<char>,
    a2: Seq<char>,
    r2: Seq<char>,
    sep: char,
)
    requires
        !a1.contains(sep),
        !a2.contains(sep),
        a1 + seq![sep] + r1 == a2 + seq![sep] + r2,
    ensures
        a1 == a2,
        r1 == r2,
{
    let t = a1 + seq![sep] + r1;
    if a1.len() < a2.len() {
        assert(t[a1.len() as int] == sep);
        assert(t[a1.len() as int] == a2[a1.len() as int]);
        assert(a2.contains(sep));
        assert(false);
    }
    if a2.len() < a1.len() {
        assert(t[a2.len() as int] == sep);
        assert(t[a2.len() as int] == a1[a2.len() as int]);
        assert(a1.contains(sep));
        assert(false);
    }
    assert forall|i: int| 0 <= i < a1.len() implies a1[i] == a2[i] by {
        assert(t[i] == a1[i]);
        assert(t[i] == a2[i]);
    }
    assert(a1 =~= a2);
    let u = a2 + seq![sep] + r2;
    assert(t == u);
    assert(t.len() == a1.len() + 1 + r1.len());
    assert(u.len() == a2.len() + 1 + r2.len());
    assert(r1.len() == r2.len());
    assert forall|i: int| 0 <= i < r1.len() implies r1[i] == r2[i] by {
        assert(t[a1.len() + 1 + i] == r1[i]);
        assert(u[a2.len() + 1 + i] == r2[i]);
    }
    assert(r1 =~= r2);
}

} // verus!
