use lib_auth::bytes::constant_time_eq;
use lib_auth::model::{ConvUserBmc, ConvUserForCreate};
use lib_auth::token::{
    generate_token, generate_token_at, parse_token, split_segments, validate_token,
    validate_token_at, Error,
};

const KEY: &[u8] = b"key";
const PEPPER: &[u8] = b"pep";

#[test]
fn generate_exact_text() {
    let t = generate_token_at("user1", 0, 100, KEY, PEPPER).unwrap();
    assert_eq!(
        t,
        "dXNlcjE.MTk3MC0wMS0wMVQwMDowMTo0MFo.uGfnSH_URVT2VdVnSPJ0Bxt40H-5klUvBCs4T0eD_GFnCKvSd4NkTVUXDPwqBh15_mTCq0naQtAKvrXk6bPpmw"
    );
}

#[test]
fn parse_recovers_ident_and_expiration() {
    let now = 1_700_000_000i64;
    let t = generate_token_at("demo1", now, 1800, KEY, PEPPER).unwrap();
    let tok = parse_token(&t).unwrap();
    assert_eq!(tok.ident, "demo1");
    assert_eq!(tok.exp, now + 1800);
}

#[test]
fn parse_recovers_non_ascii_ident() {
    let t = generate_token_at("jösé", 0, 10, KEY, PEPPER).unwrap();
    assert_eq!(parse_token(&t).unwrap().ident, "jösé");
}

#[test]
fn no_delimiter_is_invalid_format() {
    assert!(matches!(parse_token("abc"), Err(Error::InvalidFormat)));
    assert_eq!(validate_token_at("abc", KEY, PEPPER, 0), Err(Error::InvalidFormat));
}

#[test]
fn too_many_segments_is_invalid_format() {
    assert!(matches!(parse_token("a.b.c.d"), Err(Error::InvalidFormat)));
    assert_eq!(validate_token_at("a.b.c.d", KEY, PEPPER, 0), Err(Error::InvalidFormat));
}

#[test]
fn empty_segment_is_invalid_format() {
    assert_eq!(validate_token_at("a..c", KEY, PEPPER, 0), Err(Error::InvalidFormat));
    assert_eq!(validate_token_at("", KEY, PEPPER, 0), Err(Error::InvalidFormat));
}

#[test]
fn bad_ident_segment() {
    let r = validate_token_at("!!!.MTk3MC0wMS0wMVQwMDowMDowMFo.abc", KEY, PEPPER, 0);
    assert_eq!(r, Err(Error::CannotDecodeIdent));
    let r = validate_token_at("__4.MTk3MC0wMS0wMVQwMDowMDowMFo.abc", KEY, PEPPER, 0);
    assert_eq!(r, Err(Error::CannotDecodeIdent));
}

#[test]
fn bad_exp_segment() {
    let r = validate_token_at("dXNlcjE.!!!.abc", KEY, PEPPER, 0);
    assert_eq!(r, Err(Error::CannotDecodeExp));
    let r = validate_token_at("dXNlcjE.__4.abc", KEY, PEPPER, 0);
    assert_eq!(r, Err(Error::CannotDecodeExp));
}

#[test]
fn exp_not_a_timestamp() {
    let r = validate_token_at("dXNlcjE.bm90IGEgZGF0ZQ.abc", KEY, PEPPER, 0);
    assert_eq!(r, Err(Error::ExpNotIso));
}

#[test]
fn corrupted_signature_is_rejected() {
    let t = generate_token_at("user1", 0, 100, KEY, PEPPER).unwrap();
    let mut corrupted = t[..t.len() - 1].to_string();
    corrupted.push(if t.ends_with('A') { 'B' } else { 'A' });
    assert_eq!(validate_token_at(&corrupted, KEY, PEPPER, 0), Err(Error::SignatureNotMatching));
}

#[test]
fn other_pepper_or_key_is_rejected() {
    let t = generate_token_at("user1", 0, 100, KEY, PEPPER).unwrap();
    assert_eq!(validate_token_at(&t, KEY, b"other", 0), Err(Error::SignatureNotMatching));
    assert_eq!(validate_token_at(&t, b"other", PEPPER, 0), Err(Error::SignatureNotMatching));
}

#[test]
fn negative_ttl_is_expired() {
    let t = generate_token("user1", -1, KEY, PEPPER).unwrap();
    assert_eq!(validate_token(&t, KEY, PEPPER), Err(Error::Expired));
}

#[test]
fn expiry_boundary() {
    let t = generate_token_at("user1", 1000, 60, KEY, PEPPER).unwrap();
    assert_eq!(validate_token_at(&t, KEY, PEPPER, 1060), Ok(()));
    assert_eq!(validate_token_at(&t, KEY, PEPPER, 1061), Err(Error::Expired));
}

#[test]
fn validation_is_repeatable() {
    let t = generate_token("user1", 3600, KEY, PEPPER).unwrap();
    assert_eq!(validate_token(&t, KEY, PEPPER), Ok(()));
    assert_eq!(validate_token(&t, KEY, PEPPER), Ok(()));
    let a = generate_token_at("user1", 5, 7, KEY, PEPPER).unwrap();
    let b = generate_token_at("user1", 5, 7, KEY, PEPPER).unwrap();
    assert_eq!(a, b);
}

#[test]
fn expiration_out_of_range() {
    assert_eq!(generate_token_at("u", 253402300799, 1, KEY, PEPPER), Err(Error::ExpOutOfRange));
    assert_eq!(generate_token_at("u", i64::MIN, -1, KEY, PEPPER), Err(Error::ExpOutOfRange));
    assert!(generate_token_at("u", 253402300799, 0, KEY, PEPPER).is_ok());
}

#[test]
fn split_keeps_empty_pieces() {
    let s = split_segments(b"a..bc.");
    assert_eq!(s, vec![b"a".to_vec(), vec![], b"bc".to_vec(), vec![]]);
    assert_eq!(split_segments(b""), vec![Vec::<u8>::new()]);
}

#[test]
fn constant_time_comparison() {
    assert!(constant_time_eq(b"abc", b"abc"));
    assert!(!constant_time_eq(b"abc", b"abd"));
    assert!(!constant_time_eq(b"abc", b"ab"));
    assert!(constant_time_eq(b"", b""));
}

#[test]
fn conv_user_records() {
    let c = ConvUserForCreate { conv_id: 3, user_id: 4 };
    assert_eq!((c.conv_id, c.user_id), (3, 4));
    let _ = ConvUserBmc;
    assert_eq!(ConvUserBmc::TABLE, "conv_user");
}
