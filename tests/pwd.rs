use lib_auth::pwd::{hash_pwd, validate_pwd, ContentToHash, Error, SchemeStatus};
use lib_auth::scheme::{self, get_scheme, Scheme, DEFAULT_SCHEME};

const KEY: &[u8] = b"a process-wide hashing key";

fn content(pwd: &str, salt: &[u8]) -> ContentToHash {
    ContentToHash { content: pwd.to_string(), salt: salt.to_vec() }
}

fn salt_a() -> Vec<u8> {
    (0u8..16).collect()
}

fn salt_b() -> Vec<u8> {
    (100u8..116).collect()
}

#[test]
fn hash_then_validate_is_current() {
    let c = content("welcome", &salt_a());
    let stored = hash_pwd(KEY, &c).unwrap();
    assert!(stored.starts_with("02_"));
    assert_eq!(validate_pwd(KEY, &c, &stored), Ok(SchemeStatus::Current));
}

#[test]
fn hash_is_deterministic_for_same_inputs() {
    let c = content("welcome", &salt_a());
    assert_eq!(hash_pwd(KEY, &c).unwrap(), hash_pwd(KEY, &c).unwrap());
}

#[test]
fn wrong_password_is_rejected() {
    let stored = hash_pwd(KEY, &content("welcome", &salt_a())).unwrap();
    let r = validate_pwd(KEY, &content("welcome2", &salt_a()), &stored);
    assert_eq!(r, Err(Error::Scheme(scheme::Error::PwdValidate)));
}

#[test]
fn wrong_key_is_rejected() {
    let c = content("welcome", &salt_a());
    let stored = hash_pwd(KEY, &c).unwrap();
    let r = validate_pwd(b"another key", &c, &stored);
    assert_eq!(r, Err(Error::Scheme(scheme::Error::PwdValidate)));
}

#[test]
fn different_salts_give_different_hashes() {
    let h1 = hash_pwd(KEY, &content("welcome", &salt_a())).unwrap();
    let h2 = hash_pwd(KEY, &content("welcome", &salt_b())).unwrap();
    assert_ne!(h1, h2);
}

#[test]
fn legacy_hash_validates_as_outdated() {
    let c = content("welcome", &salt_a());
    let payload = Scheme::Scheme01.hash(b"key", c.content.as_bytes(), &c.salt).unwrap();
    let stored = format!("01_{}", String::from_utf8(payload).unwrap());
    let r = validate_pwd(b"key", &c, &stored);
    assert_eq!(r, Ok(SchemeStatus::Outdated("02".to_string())));
}

#[test]
fn legacy_hash_exact_value() {
    let payload = Scheme::Scheme01.hash(b"key", b"welcome", &salt_a()).unwrap();
    assert_eq!(
        String::from_utf8(payload).unwrap(),
        "NfLSbbXlmHC1dMDgcAtDkiUlGBL7PcR2jh1cUQ9jjWdXtGVavREXGpiS0MpUC9ZZ2l1kfKGHpU3dZpcCwTGQOw"
    );
}

#[test]
fn legacy_hash_wrong_password_is_rejected() {
    let payload = Scheme::Scheme01.hash(b"key", b"welcome", &salt_a()).unwrap();
    let stored = format!("01_{}", String::from_utf8(payload).unwrap());
    let r = validate_pwd(b"key", &content("welcome!", &salt_a()), &stored);
    assert_eq!(r, Err(Error::Scheme(scheme::Error::PwdValidate)));
}

#[test]
fn unregistered_scheme_id_is_not_found() {
    let r = validate_pwd(KEY, &content("welcome", &salt_a()), "99_abcdef");
    assert_eq!(r, Err(Error::Scheme(scheme::Error::SchemeNotFound("99".to_string()))));
}

#[test]
fn stored_hash_without_separator_fails_to_parse() {
    let r = validate_pwd(KEY, &content("welcome", &salt_a()), "02abcdef");
    assert_eq!(r, Err(Error::PwdWithSchemeFailedParse));
}

#[test]
fn short_salt_is_refused_by_current_scheme() {
    let c = content("welcome", &[1u8, 2, 3]);
    assert_eq!(hash_pwd(KEY, &c), Err(Error::Scheme(scheme::Error::Salt)));
    assert_eq!(validate_pwd(KEY, &c, "02_abc"), Err(Error::Scheme(scheme::Error::Salt)));
}

#[test]
fn registry_lookup() {
    assert_eq!(get_scheme(b"01"), Some(Scheme::Scheme01));
    assert_eq!(get_scheme(b"02"), Some(Scheme::Scheme02));
    assert_eq!(get_scheme(b"03"), None);
    assert_eq!(get_scheme(b""), None);
    assert_eq!(DEFAULT_SCHEME, Scheme::Scheme02);
    assert_eq!(Scheme::Scheme01.id(), b"01".to_vec());
}

#[test]
fn argon2_digest_is_32_bytes() {
    let d = Scheme::Scheme02.digest(KEY, b"welcome", &salt_a()).unwrap();
    assert_eq!(d.len(), 32);
    let e = Scheme::Scheme02.digest(KEY, b"welcome", &salt_b()).unwrap();
    assert_ne!(d, e);
}
