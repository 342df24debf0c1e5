use authcore::password::{hash, verify, PasswordRecord};

#[test]
fn hash_then_verify_roundtrip() {
    let rec = hash("hunter2").expect("hashing must succeed");
    assert!(verify("hunter2", &rec));
}

#[test]
fn verify_rejects_wrong_password() {
    let rec = hash("hunter2").expect("hashing must succeed");
    assert!(!verify("hunter3", &rec));
    assert!(!verify("", &rec));
    assert!(!verify("Hunter2", &rec));
}

#[test]
fn distinct_salts_both_verify() {
    let r1 = hash("same password").expect("hashing must succeed");
    let r2 = hash("same password").expect("hashing must succeed");
    assert_ne!(r1.text, r2.text);
    assert!(verify("same password", &r1));
    assert!(verify("same password", &r2));
}

#[test]
fn verify_rejects_malformed_record() {
    let rec = PasswordRecord {
        text: String::from("not a phc string"),
    };
    assert!(!verify("anything", &rec));
    let empty = PasswordRecord {
        text: String::new(),
    };
    assert!(!verify("anything", &empty));
}

#[test]
fn record_is_self_describing_phc() {
    let rec = hash("hunter2").expect("hashing must succeed");
    assert!(rec.text.starts_with('$'));
    assert_ne!(rec.text, "hunter2");
}

#[test]
fn empty_password_hashes_and_verifies() {
    let rec = hash("").expect("hashing must succeed");
    assert!(verify("", &rec));
    assert!(!verify("x", &rec));
}
