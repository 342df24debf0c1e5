use authcore::token::{sign, verify, ServerSecret, TokenClaims};

fn secret(bytes: &[u8]) -> ServerSecret {
    ServerSecret::new(bytes.to_vec())
}

fn sample_claims() -> TokenClaims {
    TokenClaims {
        id: 42,
        firstname: String::from("Ada"),
        lastname: String::from("Lovelace"),
        email: String::from("a@b.com"),
    }
}

#[test]
fn sign_verify_round_trip() {
    let s = secret(b"0123456789abcdef");
    let token = sign(&sample_claims(), &s);
    let got = verify(&token, &s).expect("a freshly signed token must verify");
    assert_eq!(got.id, 42);
    assert_eq!(got.firstname, "Ada");
    assert_eq!(got.lastname, "Lovelace");
    assert_eq!(got.email, "a@b.com");
}

#[test]
fn sign_is_deterministic() {
    let s = secret(b"key");
    let t1 = sign(&sample_claims(), &s);
    let t2 = sign(&sample_claims(), &s);
    assert_eq!(t1, t2);
}

#[test]
fn token_has_three_dot_separated_segments() {
    let s = secret(b"key");
    let token = sign(&sample_claims(), &s);
    let parts: Vec<&str> = token.split('.').collect();
    assert_eq!(parts.len(), 3);
    assert_eq!(parts[0], "HS256");
}

#[test]
fn verify_with_other_secret_fails() {
    let s1 = secret(b"first secret");
    let s2 = secret(b"second secret");
    let token = sign(&sample_claims(), &s1);
    assert!(verify(&token, &s2).is_err());
}

#[test]
fn tampering_with_any_claims_character_fails() {
    let s = secret(b"key");
    let token = sign(&sample_claims(), &s);
    let first_dot = token.find('.').unwrap();
    let second_dot = token.rfind('.').unwrap();
    for i in (first_dot + 1)..second_dot {
        let mut chars: Vec<char> = token.chars().collect();
        chars[i] = if chars[i] == '0' { '1' } else { '0' };
        let mutated: String = chars.into_iter().collect();
        assert!(
            verify(&mutated, &s).is_err(),
            "mutation at {} must invalidate the token",
            i
        );
    }
}

#[test]
fn malformed_tokens_are_rejected() {
    let s = secret(b"key");
    for bad in [
        "",
        ".",
        "..",
        "...",
        "HS256",
        "HS256.",
        "HS256..",
        "HS256.abc",
        "HS256.abc.def.ghi",
        "XX999.abc.def",
        "HS256.not-hex~zz~zz~zz.00",
        "HS256.~~~.00",
    ] {
        assert!(verify(bad, &s).is_err(), "{:?} must be rejected", bad);
    }
}

#[test]
fn truncated_tag_is_rejected() {
    let s = secret(b"key");
    let token = sign(&sample_claims(), &s);
    let mut shorter = token.clone();
    shorter.pop();
    assert!(verify(&shorter, &s).is_err());
}

#[test]
fn empty_fields_round_trip() {
    let s = secret(b"key");
    let claims = TokenClaims {
        id: 0,
        firstname: String::new(),
        lastname: String::new(),
        email: String::new(),
    };
    let token = sign(&claims, &s);
    let got = verify(&token, &s).expect("must verify");
    assert_eq!(got.id, 0);
    assert_eq!(got.firstname, "");
    assert_eq!(got.lastname, "");
    assert_eq!(got.email, "");
}

#[test]
fn unicode_fields_round_trip() {
    let s = secret(b"key");
    let claims = TokenClaims {
        id: u64::MAX,
        firstname: String::from("Ada . Byron ~ King"),
        lastname: String::from("\u{1F680} rocket \u{00E9}\u{4E2D}"),
        email: String::from("weird.~address@example.com"),
    };
    let token = sign(&claims, &s);
    let got = verify(&token, &s).expect("must verify");
    assert_eq!(got.id, u64::MAX);
    assert_eq!(got.firstname, "Ada . Byron ~ King");
    assert_eq!(got.lastname, "\u{1F680} rocket \u{00E9}\u{4E2D}");
    assert_eq!(got.email, "weird.~address@example.com");
}

#[test]
fn empty_secret_still_round_trips() {
    let s = secret(b"");
    let token = sign(&sample_claims(), &s);
    assert!(verify(&token, &s).is_ok());
    let other = secret(b"x");
    assert!(verify(&token, &other).is_err());
}
