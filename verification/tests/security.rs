use opencli::result::OpenCliError;
use opencli::security::SecurityManager;

fn hex(bytes: &[u8]) -> String {
    bytes.iter().map(|b| format!("{:02x}", b)).collect()
}

#[test]
fn fingerprint_is_sha256() {
    let s = SecurityManager::new();
    assert_eq!(
        hex(&s.fingerprint(b"abc")),
        "ba7816bf8f01cfea414140de5dae2223b00361a396177a9cb410ff61f20015ad"
    );
    assert_eq!(
        hex(&s.fingerprint(b"")),
        "e3b0c44298fc1c149afbf4c8996fb92427ae41e4649b934ca495991b7852b855"
    );
}

#[test]
fn hash_then_verify() {
    let s = SecurityManager::new();
    let hash = s.hash_file(b"some content").unwrap();
    assert!(hash.starts_with("$argon2id$v=19$m=19456,t=2,p=1$"));
    assert_eq!(s.verify_file(b"some content", &hash).unwrap(), true);
    assert_eq!(s.verify_file(b"some c0ntent", &hash).unwrap(), false);
}

#[test]
fn two_hashes_of_the_same_content_differ_and_both_verify() {
    let s = SecurityManager::new();
    let a = s.hash_file(b"same").unwrap();
    let b = s.hash_file(b"same").unwrap();
    assert_ne!(a, b);
    assert!(s.verify_file(b"same", &a).unwrap());
    assert!(s.verify_file(b"same", &b).unwrap());
}

#[test]
fn hash_with_a_given_salt_is_determined() {
    let s = SecurityManager::new();
    let fp = s.fingerprint(b"abc");
    let a = s.hash_with_salt(&fp, "c29tZXNhbHRzb21lc2FsdA").unwrap();
    let b = s.hash_with_salt(&fp, "c29tZXNhbHRzb21lc2FsdA").unwrap();
    assert_eq!(a, b);
    assert!(a.starts_with("$argon2id$v=19$m=19456,t=2,p=1$c29tZXNhbHRzb21lc2FsdA$"));
    assert_ne!(a, "c29tZXNhbHRzb21lc2FsdA");
    assert!(s.verify_fingerprint(&fp, &a).unwrap());
    let other = s.fingerprint(b"abd");
    assert!(!s.verify_fingerprint(&other, &a).unwrap());
}

#[test]
fn a_bad_salt_is_a_process_error() {
    let s = SecurityManager::new();
    let err = s.hash_with_salt(b"0123456789abcdef0123456789abcdef", "!").unwrap_err();
    match err {
        OpenCliError::Process(m) => assert!(m.starts_with("Failed to hash content: ")),
        other => panic!("{other:?}"),
    }
}

#[test]
fn hash_file_content_verifies_against_the_fingerprint() {
    let s = SecurityManager::new();
    let fp = s.fingerprint(b"package");
    let hash = s.hash_file_content(&fp).unwrap();
    assert!(s.verify_fingerprint(&fp, &hash).unwrap());
    assert!(s.verify_file(b"package", &hash).unwrap());
}

#[test]
fn a_stored_text_that_is_no_hash_is_an_error() {
    let s = SecurityManager::new();
    for bad in ["", "not a hash", "$argon2id$"] {
        match s.verify_file(b"x", bad).unwrap_err() {
            OpenCliError::Process(m) => assert!(m.starts_with("Invalid hash format: ")),
            other => panic!("{other:?}"),
        }
    }
}

#[test]
fn outcomes_are_mapped_to_results() {
    assert_eq!(SecurityManager::hash_result(Ok("h".to_string()), "L: ").unwrap(), "h");
    match SecurityManager::hash_result(Err("boom".to_string()), "L: ").unwrap_err() {
        OpenCliError::Process(m) => assert_eq!(m, "L: boom"),
        other => panic!("{other:?}"),
    }
    assert_eq!(SecurityManager::verify_result(Ok(false)).unwrap(), false);
    match SecurityManager::verify_result(Err("bad".to_string())).unwrap_err() {
        OpenCliError::Process(m) => assert_eq!(m, "Invalid hash format: bad"),
        other => panic!("{other:?}"),
    }
}
