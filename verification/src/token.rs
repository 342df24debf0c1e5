//! Stateless bearer tokens (the TokenService component).
//!
//! A token is three segments joined by `.`: a fixed header naming the
//! algorithm, the encoded claims, and the hex form of an HMAC-SHA-256 tag
//! computed over the first two segments with a process-wide symmetric
//! secret. Signing and verification share that secret; no state is kept per
//! token. The framing and the claims encoding are defined and proved here;
//! only the keyed hash itself is the hmac crate's.

use vstd::prelude::*;
use vstd::string::StringExecFns;
use crate::codec::enc_str;
use crate::codec::hex_bytes;
use crate::codec::hex_u64;
use crate::codec::is_hex_digit;
use crate::codec::lemma_enc_str_hex;
use crate::codec::lemma_enc_str_injective;
use crate::codec::lemma_hex_bytes_hex;
use crate::codec::lemma_hex_bytes_injective;
use crate::codec::lemma_hex_u64_hex;
use crate::codec::lemma_hex_u64_injective;
use crate::codec::lemma_sep_head_unique;
use crate::codec::chars_to_string;
use crate::codec::decode_bytes_hex;
use crate::codec::decode_str_chars;
use crate::codec::decode_u64;
use crate::codec::encode_bytes_hex;
use crate::codec::encode_str_chars;
use crate::codec::encode_u64;
use crate::codec::str_chars;
use crate::codec::sub_chars;
use crate::codec::find_char;
use crate::codec::chars_eq;

verus! {

/// The process-wide symmetric signing key: loaded once at startup, immutable
/// afterwards, shared by signing and verification, never exposed.
pub struct ServerSecret {
    key: Vec<u8>,
}

impl View for ServerSecret {
    type V = Seq<u8>;

    closed spec fn view(&self) -> Seq<u8> {
        self.key@
    }
}

impl ServerSecret {
    pub fn new(key: Vec<u8>) -> (s: ServerSecret)
        ensures
            s@ == key@,
    {
        ServerSecret { key }
    }
}

/// The identity a token carries: enough to authorize a request without a
/// storage lookup, and never the password hash or any secret material.
pub struct TokenClaims {
    pub id: u64,
    pub firstname: String,
    pub lastname: String,
    pub email: String,
}

/// The mathematical content of `TokenClaims`.
#[verifier::ext_equal]
pub ghost struct ClaimsView {
    pub id: u64,
    pub firstname: Seq<char>,
    pub lastname: Seq<char>,
    pub email: Seq<char>,
}

impl View for TokenClaims {
    type V = ClaimsView;

    open spec fn view(&self) -> ClaimsView {
        ClaimsView {
            id: self.id,
            firstname: self.firstname@,
            lastname: self.lastname@,
            email: self.email@,
        }
    }
}

/// A malformed or tampered token: wrong framing, undecodable segments, or a
/// signature that does not match.
#[derive(Clone, Copy, Debug, PartialEq, Eq, Structural)]
pub struct InvalidTokenError;

/// The HMAC-SHA-256 tag of the UTF-8 bytes of `msg` under `key`: a function
/// of key and message alone.
pub uninterp spec fn hmac_sha256_of(key: Seq<u8>, msg: Seq<char>) -> Seq<u8>;

/// Relies on hmac with sha2: `Hmac::<Sha256>::new_from_slice` accepts a key
/// of any length, and the finalized output is the 32-byte HMAC-SHA-256 tag
/// of the bytes fed to `update`.
#[verifier::external_body]
fn hmac_sha256(key: &Vec<u8>, msg: &str) -> (t: Vec<u8>)
    ensures
        t@ == hmac_sha256_of(key@, msg@),
        t@.len() == 32,
{
    let mut mac = <hmac::Hmac<sha2::Sha256> as hmac::Mac>::new_from_slice(key.as_slice())
        .expect("HMAC accepts a key of any length");
    hmac::Mac::update(&mut mac, msg.as_bytes());
    hmac::Mac::finalize(mac).into_bytes().to_vec()
}

/// Relies on hmac with sha2: `Mac::verify_slice` recomputes the tag over the
/// bytes fed to `update` and compares it to the candidate in constant time,
/// accepting exactly the equal one.
#[verifier::external_body]
fn hmac_sha256_check(key: &Vec<u8>, msg: &str, tag: &Vec<u8>) -> (r: bool)
    ensures
        r == (tag@ == hmac_sha256_of(key@, msg@)),
{
    let mut mac = <hmac::Hmac<sha2::Sha256> as hmac::Mac>::new_from_slice(key.as_slice())
        .expect("HMAC accepts a key of any length");
    hmac::Mac::update(&mut mac, msg.as_bytes());
    hmac::Mac::verify_slice(mac, tag.as_slice()).is_ok()
}

/// The fixed header segment: the signing algorithm's name.
pub open spec fn header_chars() -> Seq<char> {
    seq!['H', 'S', '2', '5', '6']
}

/// The claims segment: the id as sixteen hex digits, then the three string
/// fields in the fixed-width character encoding, the four parts joined by
/// `~`. Hex digits and `~` are all it contains.
pub open spec fn claims_seg(c: ClaimsView) -> Seq<char> {
    hex_u64(c.id) + seq!['~'] + enc_str(c.firstname) + seq!['~'] + enc_str(c.lastname) + seq!['~']
        + enc_str(c.email)
}

/// What the tag is computed over: header and claims segments joined by `.`.
pub open spec fn signing_input(c: ClaimsView) -> Seq<char> {
    header_chars() + seq!['.'] + claims_seg(c)
}

/// The signed token for `c` under `key`.
pub open spec fn spec_sign(c: ClaimsView, key: Seq<u8>) -> Seq<char> {
    signing_input(c) + seq!['.'] + hex_bytes(hmac_sha256_of(key, signing_input(c)))
}

/// What verification yields: the unique claims whose signed form under `key`
/// is `t`, if `t` is such a form at all.
pub open spec fn spec_verify(t: Seq<char>, key: Seq<u8>) -> Option<ClaimsView> {
    if exists|c: ClaimsView| t == spec_sign(c, key) {
        Some(choose|c: ClaimsView| t == spec_sign(c, key))
    } else {
        None
    }
}

proof fn lemma_hex_free_of(s: Seq<char>, sep: char)
    requires
        forall|i: int| 0 <= i < s.len() ==> is_hex_digit(#[trigger] s[i]),
        !is_hex_digit(sep),
    ensures
        !s.contains(sep),
{
    if s.contains(sep) {
        let i = choose|i: int| 0 <= i < s.len() && s[i] == sep;
        assert(is_hex_digit(s[i]));
    }
}

/// Where every piece of the claims segment lies, and that `~` marks exactly
/// the three joints.
proof fn lemma_claims_seg_shape(c: ClaimsView)
    ensures
        claims_seg(c).len() == 19 + enc_str(c.firstname).len() + enc_str(c.lastname).len()
            + enc_str(c.email).len(),
        claims_seg(c).subrange(0, 16) == hex_u64(c.id),
        claims_seg(c)[16] == '~',
        claims_seg(c).subrange(17, 17 + enc_str(c.firstname).len() as int) == enc_str(c.firstname),
        claims_seg(c)[17 + enc_str(c.firstname).len() as int] == '~',
        claims_seg(c).subrange(
            18 + enc_str(c.firstname).len() as int,
            18 + enc_str(c.firstname).len() as int + enc_str(c.lastname).len() as int,
        ) == enc_str(c.lastname),
        claims_seg(c)[18 + enc_str(c.firstname).len() as int + enc_str(c.lastname).len() as int] == '~',
        claims_seg(c).subrange(
            19 + enc_str(c.firstname).len() as int + enc_str(c.lastname).len() as int,
            claims_seg(c).len() as int,
        ) == enc_str(c.email),
        forall|i: int|
            0 <= i < claims_seg(c).len() && i != 16 && i != 17 + enc_str(c.firstname).len() as int
                && i != 18 + enc_str(c.firstname).len() as int + enc_str(c.lastname).len() as int ==> (
            #[trigger] claims_seg(c)[i]) != '~',
{
    let s = claims_seg(c);
    let e1 = enc_str(c.firstname);
    let e2 = enc_str(c.lastname);
    let e3 = enc_str(c.email);
    let n1 = e1.len() as int;
    let n2 = e2.len() as int;
    let n3 = e3.len() as int;
    lemma_hex_u64_hex(c.id);
    lemma_enc_str_hex(c.firstname);
    lemma_enc_str_hex(c.lastname);
    lemma_enc_str_hex(c.email);
    assert(s.subrange(0, 16) =~= hex_u64(c.id));
    assert(s.subrange(17, 17 + n1) =~= e1);
    assert(s.subrange(18 + n1, 18 + n1 + n2) =~= e2);
    assert(s.subrange(19 + n1 + n2, s.len() as int) =~= e3);
    assert forall|i: int|
        0 <= i < s.len() && i != 16 && i != 17 + n1 && i != 18 + n1 + n2 implies (
    #[trigger] s[i]) != '~' by {
        if i < 16 {
            assert(s[i] == hex_u64(c.id)[i]);
            assert(is_hex_digit(s[i]));
        } else if 17 <= i < 17 + n1 {
            assert(s[i] == e1[i - 17]);
            assert(is_hex_digit(s[i]));
        } else if 18 + n1 <= i < 18 + n1 + n2 {
            assert(s[i] == e2[i - 18 - n1]);
            assert(is_hex_digit(s[i]));
        } else {
            assert(s[i] == e3[i - 19 - n1 - n2]);
            assert(is_hex_digit(s[i]));
        }
    }
}

/// Two claims with the same segment are the same claims.
proof fn lemma_claims_seg_injective(c1: ClaimsView, c2: ClaimsView)
    requires
        claims_seg(c1) == claims_seg(c2),
    ensures
        c1 == c2,
{
    lemma_hex_u64_hex(c1.id);
    lemma_hex_u64_hex(c2.id);
    lemma_enc_str_hex(c1.firstname);
    lemma_enc_str_hex(c2.firstname);
    lemma_enc_str_hex(c1.lastname);
    lemma_enc_str_hex(c2.lastname);
    assert(!is_hex_digit('~'));
    lemma_hex_free_of(hex_u64(c1.id), '~');
    lemma_hex_free_of(hex_u64(c2.id), '~');
    lemma_hex_free_of(enc_str(c1.firstname), '~');
    lemma_hex_free_of(enc_str(c2.firstname), '~');
    lemma_hex_free_of(enc_str(c1.lastname), '~');
    lemma_hex_free_of(enc_str(c2.lastname), '~');
    let rest1 = enc_str(c1.firstname) + seq!['~'] + (enc_str(c1.lastname) + seq!['~'] + enc_str(
        c1.email,
    ));
    let rest2 = enc_str(c2.firstname) + seq!['~'] + (enc_str(c2.lastname) + seq!['~'] + enc_str(
        c2.email,
    ));
    assert(claims_seg(c1) =~= hex_u64(c1.id) + seq!['~'] + rest1);
    assert(claims_seg(c2) =~= hex_u64(c2.id) + seq!['~'] + rest2);
    lemma_sep_head_unique(hex_u64(c1.id), rest1, hex_u64(c2.id), rest2, '~');
    lemma_hex_u64_injective(c1.id, c2.id);
    let tail1 = enc_str(c1.lastname) + seq!['~'] + enc_str(c1.email);
    let tail2 = enc_str(c2.lastname) + seq!['~'] + enc_str(c2.email);
    assert(rest1 =~= enc_str(c1.firstname) + seq!['~'] + tail1);
    assert(rest2 =~= enc_str(c2.firstname) + seq!['~'] + tail2);
    lemma_sep_head_unique(enc_str(c1.firstname), tail1, enc_str(c2.firstname), tail2, '~');
    lemma_enc_str_injective(c1.firstname, c2.firstname);
    lemma_sep_head_unique(enc_str(c1.lastname), enc_str(c1.email), enc_str(c2.lastname), enc_str(
        c2.email,
    ), '~');
    lemma_enc_str_injective(c1.lastname, c2.lastname);
    lemma_enc_str_injective(c1.email, c2.email);
    assert(c1 =~= c2);
}

/// Two claims with the same signed form under one key are the same claims.
#[verifier::rlimit(100)]
pub proof fn lemma_spec_sign_injective(c1: ClaimsView, c2: ClaimsView, key: Seq<u8>)
    requires
        spec_sign(c1, key) == spec_sign(c2, key),
    ensures
        c1 == c2,
{
    assert(!is_hex_digit('.'));
    lemma_claims_seg_dot_free(c1);
    lemma_claims_seg_dot_free(c2);
    assert(!header_chars().contains('.')) by {
        if header_chars().contains('.') {
            let i = choose|i: int| 0 <= i < 5 && header_chars()[i] == '.';
        }
    }
    let t1 = hex_bytes(hmac_sha256_of(key, signing_input(c1)));
    let t2 = hex_bytes(hmac_sha256_of(key, signing_input(c2)));
    let rest1 = claims_seg(c1) + seq!['.'] + t1;
    let rest2 = claims_seg(c2) + seq!['.'] + t2;
    assert(spec_sign(c1, key) =~= header_chars() + seq!['.'] + rest1);
    assert(spec_sign(c2, key) =~= header_chars() + seq!['.'] + rest2);
    lemma_sep_head_unique(header_chars(), rest1, header_chars(), rest2, '.');
    lemma_sep_head_unique(claims_seg(c1), t1, claims_seg(c2), t2, '.');
    lemma_claims_seg_injective(c1, c2);
}

/// The claims segment never holds a `.`.
proof fn lemma_claims_seg_dot_free(c: ClaimsView)
    ensures
        !claims_seg(c).contains('.'),
{
    let s = claims_seg(c);
    let n1 = enc_str(c.firstname).len() as int;
    let n2 = enc_str(c.lastname).len() as int;
    lemma_claims_seg_shape(c);
    if s.contains('.') {
        let i = choose|i: int| 0 <= i < s.len() && s[i] == '.';
        if i == 16 || i == 17 + n1 || i == 18 + n1 + n2 {
            assert(s[i] == '~');
        } else if i < 16 {
            lemma_hex_u64_hex(c.id);
            assert(s[i] == s.subrange(0, 16)[i]);
            assert(is_hex_digit(s[i]));
        } else if i < 17 + n1 {
            lemma_enc_str_hex(c.firstname);
            assert(s[i] == s.subrange(17, 17 + n1)[i - 17]);
            assert(is_hex_digit(s[i]));
        } else if i < 18 + n1 + n2 {
            lemma_enc_str_hex(c.lastname);
            assert(s[i] == s.subrange(18 + n1, 18 + n1 + n2)[i - 18 - n1]);
            assert(is_hex_digit(s[i]));
        } else {
            lemma_enc_str_hex(c.email);
            assert(s[i] == s.subrange(19 + n1 + n2, s.len() as int)[i - 19 - n1 - n2]);
            assert(is_hex_digit(s[i]));
        }
    }
}

/// Round trip: verifying a token signed with the same secret yields exactly
/// the claims that were signed, for every claims value and every secret.
pub proof fn lemma_token_round_trip(c: ClaimsView, key: Seq<u8>)
    ensures
        spec_verify(spec_sign(c, key), key) == Some(c),
{
    let t = spec_sign(c, key);
    assert(t == spec_sign(c, key));
    assert(exists|c2: ClaimsView| t == spec_sign(c2, key));
    let c2 = choose|c2: ClaimsView| t == spec_sign(c2, key);
    lemma_spec_sign_injective(c, c2, key);
}

/// Builds the claims segment.
fn encode_claims(claims: &TokenClaims) -> (r: Vec<char>)
    ensures
        r@ == claims_seg(claims@),
{
    let mut r = encode_u64(claims.id);
    r.push('~');
    let f = str_chars(claims.firstname.as_str());
    let mut ef = encode_str_chars(&f);
    r.append(&mut ef);
    r.push('~');
    let l = str_chars(claims.lastname.as_str());
    let mut el = encode_str_chars(&l);
    r.append(&mut el);
    r.push('~');
    let e = str_chars(claims.email.as_str());
    let mut ee = encode_str_chars(&e);
    r.append(&mut ee);
    proof {
        assert(r@ =~= claims_seg(claims@));
    }
    r
}

/// Signs `claims` with `secret`: serializes them, computes the keyed tag
/// over header and claims, and joins the three segments with `.`. The result
/// is a deterministic function of the claims and the secret.
pub fn sign(claims: &TokenClaims, secret: &ServerSecret) -> (r: String)
    ensures
        r@ == spec_sign(claims@, secret@),
{
    let seg = encode_claims(claims);
    let seg_s = chars_to_string(&seg);
    let mut input = String::from_str("HS256");
    proof {
        reveal_strlit("HS256");
        reveal_strlit(".");
        assert("HS256"@ =~= header_chars());
        assert("."@ =~= seq!['.']);
    }
    input.append(".");
    input.append(seg_s.as_str());
    proof {
        assert(input@ =~= signing_input(claims@));
    }
    let tag = hmac_sha256(&secret.key, input.as_str());
    let tag_hex = encode_bytes_hex(&tag);
    let tag_s = chars_to_string(&tag_hex);
    let mut token = input;
    token.append(".");
    token.append(tag_s.as_str());
    proof {
        assert(token@ =~= spec_sign(claims@, secret@));
    }
    token
}

/// In a claims segment, the first `~` stands right after the id.
proof fn lemma_claims_first_tilde(c: ClaimsView, s: Seq<char>, p: int)
    requires
        s == claims_seg(c),
        0 <= p < s.len(),
        s[p] == '~',
        forall|j: int| 0 <= j < p ==> s[j] != '~',
    ensures
        p == 16,
{
    lemma_claims_seg_shape(c);
    if p < 16 {
        assert(s[p] != '~');
    }
    if p > 16 {
        assert(s[16] != '~');
    }
}

/// In a claims segment, the first `~` at or after 17 stands right after the
/// first name.
proof fn lemma_claims_second_tilde(c: ClaimsView, s: Seq<char>, p: int)
    requires
        s == claims_seg(c),
        17 <= p < s.len(),
        s[p] == '~',
        forall|j: int| 17 <= j < p ==> s[j] != '~',
    ensures
        p == 17 + enc_str(c.firstname).len(),
{
    lemma_claims_seg_shape(c);
    let t1 = 17 + enc_str(c.firstname).len() as int;
    if p < t1 {
        assert(s[p] != '~');
    }
    if p > t1 {
        assert(s[t1] != '~');
    }
}

/// In a claims segment, the first `~` after the second stands right after
/// the last name.
proof fn lemma_claims_third_tilde(c: ClaimsView, s: Seq<char>, p: int)
    requires
        s == claims_seg(c),
        18 + enc_str(c.firstname).len() <= p < s.len(),
        s[p] == '~',
        forall|j: int| 18 + enc_str(c.firstname).len() <= j < p ==> s[j] != '~',
    ensures
        p == 18 + enc_str(c.firstname).len() + enc_str(c.lastname).len(),
{
    lemma_claims_seg_shape(c);
    let t2 = 18 + enc_str(c.firstname).len() as int + enc_str(c.lastname).len() as int;
    if p < t2 {
        assert(s[p] != '~');
    }
    if p > t2 {
        assert(s[t2] != '~');
    }
}

/// Reads a claims segment back; `None` exactly when `seg` is the claims
/// segment of no claims value.
#[verifier::rlimit(100)]
#[verifier::spinoff_prover]
fn decode_claims(seg: &Vec<char>) -> (r: Option<TokenClaims>)
    ensures
        r matches Some(c) ==> claims_seg(c@) == seg@,
        r is None ==> forall|c: ClaimsView| claims_seg(c) != seg@,
{
    let s_len = seg.len();
    let p0 = match find_char(seg, 0, '~') {
        Some(p) => p,
        None => {
            proof {
                assert forall|c: ClaimsView| claims_seg(c) != seg@ by {
                    if claims_seg(c) == seg@ {
                        lemma_claims_seg_shape(c);
                        assert(seg@[16] == '~');
                    }
                }
            }
            return None;
        },
    };
    if p0 != 16 {
        proof {
            assert forall|c: ClaimsView| claims_seg(c) != seg@ by {
                if claims_seg(c) == seg@ {
                    lemma_claims_first_tilde(c, seg@, p0 as int);
                }
            }
        }
        return None;
    }
    let idpart = sub_chars(seg, 0, 16);
    let id = match decode_u64(&idpart) {
        Some(n) => n,
        None => {
            proof {
                assert forall|c: ClaimsView| claims_seg(c) != seg@ by {
                    if claims_seg(c) == seg@ {
                        lemma_claims_seg_shape(c);
                        assert(idpart@ == hex_u64(c.id));
                    }
                }
            }
            return None;
        },
    };
    let p1 = match find_char(seg, 17, '~') {
        Some(p) => p,
        None => {
            proof {
                assert forall|c: ClaimsView| claims_seg(c) != seg@ by {
                    if claims_seg(c) == seg@ {
                        lemma_claims_seg_shape(c);
                        assert(seg@[17 + enc_str(c.firstname).len() as int] == '~');
                    }
                }
            }
            return None;
        },
    };
    let p2 = match find_char(seg, p1 + 1, '~') {
        Some(p) => p,
        None => {
            proof {
                assert forall|c: ClaimsView| claims_seg(c) != seg@ by {
                    if claims_seg(c) == seg@ {
                        lemma_claims_second_tilde(c, seg@, p1 as int);
                        lemma_claims_seg_shape(c);
                        assert(seg@[18 + enc_str(c.firstname).len() as int + enc_str(
                            c.lastname,
                        ).len() as int] == '~');
                    }
                }
            }
            return None;
        },
    };
    match find_char(seg, p2 + 1, '~') {
        Some(q) => {
            proof {
                assert forall|c: ClaimsView| claims_seg(c) != seg@ by {
                    if claims_seg(c) == seg@ {
                        lemma_claims_second_tilde(c, seg@, p1 as int);
                        lemma_claims_third_tilde(c, seg@, p2 as int);
                        lemma_claims_seg_shape(c);
                        assert(seg@[q as int] != '~');
                    }
                }
            }
            return None;
        },
        None => {},
    }
    let f1part = sub_chars(seg, 17, p1);
    let f1 = match decode_str_chars(&f1part) {
        Some(v) => v,
        None => {
            proof {
                assert forall|c: ClaimsView| claims_seg(c) != seg@ by {
                    if claims_seg(c) == seg@ {
                        lemma_claims_second_tilde(c, seg@, p1 as int);
                        lemma_claims_seg_shape(c);
                        assert(f1part@ == enc_str(c.firstname));
                    }
                }
            }
            return None;
        },
    };
    let f2part = sub_chars(seg, p1 + 1, p2);
    let f2 = match decode_str_chars(&f2part) {
        Some(v) => v,
        None => {
            proof {
                assert forall|c: ClaimsView| claims_seg(c) != seg@ by {
                    if claims_seg(c) == seg@ {
                        lemma_claims_second_tilde(c, seg@, p1 as int);
                        lemma_claims_third_tilde(c, seg@, p2 as int);
                        lemma_claims_seg_shape(c);
                        assert(f2part@ == enc_str(c.lastname));
                    }
                }
            }
            return None;
        },
    };
    let f3part = sub_chars(seg, p2 + 1, s_len);
    let f3 = match decode_str_chars(&f3part) {
        Some(v) => v,
        None => {
            proof {
                assert forall|c: ClaimsView| claims_seg(c) != seg@ by {
                    if claims_seg(c) == seg@ {
                        lemma_claims_second_tilde(c, seg@, p1 as int);
                        lemma_claims_third_tilde(c, seg@, p2 as int);
                        lemma_claims_seg_shape(c);
                        assert(f3part@ == enc_str(c.email));
                    }
                }
            }
            return None;
        },
    };
    let out = TokenClaims {
        id,
        firstname: chars_to_string(&f1),
        lastname: chars_to_string(&f2),
        email: chars_to_string(&f3),
    };
    proof {
        assert(claims_seg(out@) =~= seg@);
    }
    Some(out)
}

/// Where every piece of a signed token lies, and that `.` marks exactly the
/// two joints.
proof fn lemma_spec_sign_shape(c: ClaimsView, key: Seq<u8>)
    ensures
        claims_seg(c).len() >= 19,
        spec_sign(c, key).len() == 7 + claims_seg(c).len() + hex_bytes(
            hmac_sha256_of(key, signing_input(c)),
        ).len(),
        spec_sign(c, key).subrange(0, 5) == header_chars(),
        spec_sign(c, key)[5] == '.',
        spec_sign(c, key).subrange(6, 6 + claims_seg(c).len() as int) == claims_seg(c),
        spec_sign(c, key)[6 + claims_seg(c).len() as int] == '.',
        spec_sign(c, key).subrange(
            7 + claims_seg(c).len() as int,
            spec_sign(c, key).len() as int,
        ) == hex_bytes(hmac_sha256_of(key, signing_input(c))),
        spec_sign(c, key).subrange(0, 6 + claims_seg(c).len() as int) == signing_input(c),
        forall|i: int|
            0 <= i < spec_sign(c, key).len() && i != 5 && i != 6 + claims_seg(c).len() as int ==> (
            #[trigger] spec_sign(c, key)[i]) != '.',
{
    let t = spec_sign(c, key);
    let cl = claims_seg(c).len() as int;
    let tag = hex_bytes(hmac_sha256_of(key, signing_input(c)));
    lemma_claims_seg_shape(c);
    lemma_claims_seg_dot_free(c);
    lemma_hex_bytes_hex(hmac_sha256_of(key, signing_input(c)));
    assert(t.subrange(0, 5) =~= header_chars());
    assert(t.subrange(6, 6 + cl) =~= claims_seg(c));
    assert(t.subrange(7 + cl, t.len() as int) =~= tag);
    assert(t.subrange(0, 6 + cl) =~= signing_input(c));
    assert forall|i: int| 0 <= i < t.len() && i != 5 && i != 6 + cl implies (#[trigger] t[i])
        != '.' by {
        if i < 5 {
            assert(t[i] == header_chars()[i]);
            if i == 0 {
            } else if i == 1 {
            } else if i == 2 {
            } else if i == 3 {
            } else {
            }
        } else if i < 6 + cl {
            assert(t[i] == claims_seg(c)[i - 6]);
            if t[i] == '.' {
                assert(claims_seg(c).contains('.'));
            }
        } else {
            assert(t[i] == tag[i - 7 - cl]);
            assert(is_hex_digit(t[i]));
        }
    }
}

/// In a signed token, the first `.` stands right after the header.
proof fn lemma_token_first_dot(c: ClaimsView, key: Seq<u8>, t: Seq<char>, p: int)
    requires
        t == spec_sign(c, key),
        0 <= p < t.len(),
        t[p] == '.',
        forall|j: int| 0 <= j < p ==> t[j] != '.',
    ensures
        p == 5,
{
    lemma_spec_sign_shape(c, key);
    if p < 5 {
        assert(t[p] != '.');
    }
    if p > 5 {
        assert(t[5] != '.');
    }
}

/// In a signed token, the first `.` at or after 6 stands right after the
/// claims segment.
proof fn lemma_token_second_dot(c: ClaimsView, key: Seq<u8>, t: Seq<char>, p: int)
    requires
        t == spec_sign(c, key),
        6 <= p < t.len(),
        t[p] == '.',
        forall|j: int| 6 <= j < p ==> t[j] != '.',
    ensures
        p == 6 + claims_seg(c).len(),
{
    lemma_spec_sign_shape(c, key);
    let d = 6 + claims_seg(c).len() as int;
    if p < d {
        assert(t[p] != '.');
    }
    if p > d {
        assert(t[d] != '.');
    }
}

/// Verifies `token` against `secret`: splits it on `.`, checks the header,
/// decodes the claims, and compares the presented tag with the recomputed
/// one in constant time. Returns the embedded claims exactly when `token`
/// is a token signed under `secret`, and `InvalidTokenError` otherwise —
/// on wrong framing, undecodable segments, or a tag mismatch alike.
#[verifier::rlimit(100)]
#[verifier::spinoff_prover]
pub fn verify(token: &str, secret: &ServerSecret) -> (r: Result<TokenClaims, InvalidTokenError>)
    ensures
        r matches Ok(c) ==> spec_verify(token@, secret@) == Some(c@),
        r is Err ==> spec_verify(token@, secret@) is None,
{
    let v = str_chars(token);
    let n = v.len();
    let p0 = match find_char(&v, 0, '.') {
        Some(p) => p,
        None => {
            proof {
                assert forall|c: ClaimsView| token@ != spec_sign(c, secret@) by {
                    if token@ == spec_sign(c, secret@) {
                        lemma_spec_sign_shape(c, secret@);
                        assert(v@[5] == '.');
                    }
                }
            }
            return Err(InvalidTokenError);
        },
    };
    if p0 != 5 {
        proof {
            assert forall|c: ClaimsView| token@ != spec_sign(c, secret@) by {
                if token@ == spec_sign(c, secret@) {
                    lemma_token_first_dot(c, secret@, v@, p0 as int);
                }
            }
        }
        return Err(InvalidTokenError);
    }
    let head = sub_chars(&v, 0, 5);
    let hs = str_chars("HS256");
    proof {
        reveal_strlit("HS256");
        assert(hs@ =~= header_chars());
    }
    if !chars_eq(&head, &hs) {
        proof {
            assert forall|c: ClaimsView| token@ != spec_sign(c, secret@) by {
                if token@ == spec_sign(c, secret@) {
                    lemma_spec_sign_shape(c, secret@);
                    assert(head@ == header_chars());
                }
            }
        }
        return Err(InvalidTokenError);
    }
    let p1 = match find_char(&v, 6, '.') {
        Some(p) => p,
        None => {
            proof {
                assert forall|c: ClaimsView| token@ != spec_sign(c, secret@) by {
                    if token@ == spec_sign(c, secret@) {
                        lemma_spec_sign_shape(c, secret@);
                        assert(v@[6 + claims_seg(c).len() as int] == '.');
                    }
                }
            }
            return Err(InvalidTokenError);
        },
    };
    match find_char(&v, p1 + 1, '.') {
        Some(q) => {
            proof {
                assert forall|c: ClaimsView| token@ != spec_sign(c, secret@) by {
                    if token@ == spec_sign(c, secret@) {
                        lemma_token_second_dot(c, secret@, v@, p1 as int);
                        lemma_spec_sign_shape(c, secret@);
                        assert(v@[q as int] != '.');
                    }
                }
            }
            return Err(InvalidTokenError);
        },
        None => {},
    }
    let claims_part = sub_chars(&v, 6, p1);
    let claims = match decode_claims(&claims_part) {
        Some(c) => c,
        None => {
            proof {
                assert forall|c: ClaimsView| token@ != spec_sign(c, secret@) by {
                    if token@ == spec_sign(c, secret@) {
                        lemma_token_second_dot(c, secret@, v@, p1 as int);
                        lemma_spec_sign_shape(c, secret@);
                        assert(claims_part@ == claims_seg(c));
                    }
                }
            }
            return Err(InvalidTokenError);
        },
    };
    let tag_part = sub_chars(&v, p1 + 1, n);
    let tag = match decode_bytes_hex(&tag_part) {
        Some(t) => t,
        None => {
            proof {
                assert forall|c: ClaimsView| token@ != spec_sign(c, secret@) by {
                    if token@ == spec_sign(c, secret@) {
                        lemma_token_second_dot(c, secret@, v@, p1 as int);
                        lemma_spec_sign_shape(c, secret@);
                        assert(tag_part@ == hex_bytes(
                            hmac_sha256_of(secret@, signing_input(c)),
                        ));
                    }
                }
            }
            return Err(InvalidTokenError);
        },
    };
    let input_chars = sub_chars(&v, 0, p1);
    let input = chars_to_string(&input_chars);
    if hmac_sha256_check(&secret.key, input.as_str(), &tag) {
        proof {
            assert(signing_input(claims@) =~= v@.subrange(0, p1 as int));
            assert(hex_bytes(hmac_sha256_of(secret@, signing_input(claims@))) == tag_part@);
            assert(spec_sign(claims@, secret@) =~= v@);
            assert(exists|c2: ClaimsView| v@ == spec_sign(c2, secret@));
            let c2 = choose|c2: ClaimsView| v@ == spec_sign(c2, secret@);
            lemma_spec_sign_injective(claims@, c2, secret@);
        }
        Ok(claims)
    } else {
        proof {
            assert forall|c: ClaimsView| token@ != spec_sign(c, secret@) by {
                if token@ == spec_sign(c, secret@) {
                    lemma_token_second_dot(c, secret@, v@, p1 as int);
                    lemma_spec_sign_shape(c, secret@);
                    assert(tag_part@ == hex_bytes(hmac_sha256_of(secret@, signing_input(c))));
                    lemma_hex_bytes_injective(tag@, hmac_sha256_of(secret@, signing_input(c)));
                    assert(input@ == signing_input(c));
                }
            }
        }
        Err(InvalidTokenError)
    }
}

} // verus!
