use simplets::{hash, User};

#[test]
fn hash_is_hex_sha256() {
    assert_eq!(hash("abc"), "ba7816bf8f01cfea414140de5dae2223b00361a396177a9cb410ff61f20015ad");
    assert_eq!(hash(""), "e3b0c44298fc1c149afbf4c8996fb92427ae41e4649b934ca495991b7852b855");
}

#[test]
fn password_checked_against_digest() {
    let u = User {
        id: 1,
        name: "eva".to_string(),
        credit: 0,
        payments_in: 0,
        payments_out: 0,
        password: hash("secret"),
        created: "".to_string(),
        permission: 1,
    };
    assert!(u.check_password("secret"));
    assert!(!u.check_password("Secret"));
    assert!(u.password_matches(&hash("secret")));
    assert!(!u.password_matches(&"secret".to_string()));
}
