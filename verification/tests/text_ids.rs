//! Identifier text: rendering, parsing in both accepted shapes, parse
//! errors and their messages, decimal rendering and parsing, UTF-8
//! validation, and header parsing.

use figura_backend::backend::{duration_str, Backend};
use figura_backend::headers::{AccessToken, Token, UserAgent};
use figura_backend::idmap::IdMap;
use figura_backend::ids::{encode_uuid, fresh_uuid, parse_uuid, parse_uuid_bytes, random_uuid,
    IdParseError};
use figura_backend::text::{dec_string, utf8_valid};

#[test]
fn encode_renders_canonical_hyphenated_lowercase() {
    assert_eq!(encode_uuid(0), "00000000-0000-0000-0000-000000000000");
    assert_eq!(
        encode_uuid(0x0123_4567_89ab_cdef_0123_4567_89ab_cdef),
        "01234567-89ab-cdef-0123-456789abcdef"
    );
    assert_eq!(encode_uuid(u128::MAX), "ffffffff-ffff-ffff-ffff-ffffffffffff");
}

#[test]
fn parse_accepts_both_shapes_and_either_case() {
    assert_eq!(parse_uuid("01234567-89ab-cdef-0123-456789abcdef"),
        Ok(0x0123_4567_89ab_cdef_0123_4567_89ab_cdef));
    assert_eq!(parse_uuid("0123456789abcdef0123456789abcdef"),
        Ok(0x0123_4567_89ab_cdef_0123_4567_89ab_cdef));
    assert_eq!(parse_uuid("01234567-89AB-CDEF-0123-456789ABCDEF"),
        Ok(0x0123_4567_89ab_cdef_0123_4567_89ab_cdef));
}

#[test]
fn every_encoding_parses_back() {
    for v in [0u128, 1, 0xdead_beef, u128::MAX, 0x8000_0000_0000_0000_0000_0000_0000_0001] {
        let text = encode_uuid(v);
        assert_eq!(parse_uuid(&text), Ok(v));
    }
}

#[test]
fn parse_rejects_wrong_lengths_and_bytes() {
    assert_eq!(parse_uuid(""), Err(IdParseError::Length(0)));
    assert_eq!(parse_uuid("0123456789abcdef0123456789abcde"), Err(IdParseError::Length(31)));
    assert_eq!(parse_uuid("01234567-89ab-cdef-0123-456789abcde"), Err(IdParseError::Length(35)));
    assert_eq!(parse_uuid("0123456789abcdef0123456789abcdeg"), Err(IdParseError::Digit));
    assert_eq!(parse_uuid("01234567x89ab-cdef-0123-456789abcdef"), Err(IdParseError::Digit));
    // A hyphen in a digit position is no digit.
    assert_eq!(parse_uuid("0123-567-89ab-cdef-0123-46789abcdef0"), Err(IdParseError::Digit));
}

#[test]
fn parse_error_messages_name_the_fault() {
    assert_eq!(IdParseError::Length(35).message(), "invalid id length: 35");
    assert_eq!(IdParseError::Digit.message(), "invalid character in id");
}

#[test]
fn random_ids_are_not_degenerate() {
    // Two draws colliding, or a draw hitting zero, has probability far
    // below anything a test run can see.
    let a = random_uuid();
    let b = random_uuid();
    assert_ne!(a, b);
}

#[test]
fn fresh_ids_avoid_live_keys() {
    let mut m: IdMap<u32> = IdMap::new();
    for k in 0u128..50 {
        m.insert(k, 0);
    }
    let fresh = fresh_uuid(&m);
    assert!(!(fresh < 50));
}

#[test]
fn id_map_behaves_like_a_map() {
    let mut m: IdMap<u32> = IdMap::new();
    assert_eq!(m.len(), 0);
    m.insert(1, 10);
    m.insert(2, 20);
    m.insert(1, 11);
    assert_eq!(m.len(), 2);
    assert!(m.contains_key(1));
    assert_eq!(m.get(1), Some(&11));
    assert_eq!(m.remove(1), Some(11));
    assert_eq!(m.get(1), None);
    assert_eq!(m.remove(1), None);
    let keys = m.keys();
    assert_eq!(keys, vec![2]);
}

#[test]
fn decimal_rendering_matches() {
    assert_eq!(dec_string(0), "0");
    assert_eq!(dec_string(7), "7");
    assert_eq!(dec_string(1234567890), "1234567890");
    assert_eq!(dec_string(u64::MAX), "18446744073709551615");
}

#[test]
fn durations_parse_as_whole_seconds() {
    assert_eq!(duration_str("0"), Ok(0));
    assert_eq!(duration_str("600"), Ok(600));
    assert_eq!(duration_str("18446744073709551615"), Ok(u64::MAX));
    assert!(duration_str("").is_err());
    assert!(duration_str("12a").is_err());
    assert!(duration_str("-1").is_err());
    assert!(duration_str("18446744073709551616").is_err());
}

#[test]
fn utf8_validation_agrees_with_the_encoding() {
    assert!(utf8_valid(b""));
    assert!(utf8_valid(b"hello"));
    assert!(utf8_valid("héllo wörld".as_bytes()));
    assert!(utf8_valid("\u{7ff}\u{800}\u{ffff}\u{10000}\u{10ffff}".as_bytes()));
    // A lone continuation byte.
    assert!(!utf8_valid(&[0x80]));
    // A truncated two-byte sequence.
    assert!(!utf8_valid(&[0xC3]));
    // An overlong encoding of '/'.
    assert!(!utf8_valid(&[0xC0, 0xAF]));
    // A surrogate.
    assert!(!utf8_valid(&[0xED, 0xA0, 0x80]));
    // Beyond the last scalar.
    assert!(!utf8_valid(&[0xF4, 0x90, 0x80, 0x80]));
    // A stray leading byte wider than UTF-8 allows.
    assert!(!utf8_valid(&[0xF8, 0x80, 0x80, 0x80, 0x80]));
}

#[test]
fn user_agent_splits_at_the_first_slash() {
    let ua = UserAgent::from_str("figura/0.1.4").unwrap();
    assert_eq!(ua.name, "figura");
    assert_eq!(ua.version, "0.1.4");
    let ua = UserAgent::from_str("a/b/c").unwrap();
    assert_eq!(ua.name, "a");
    assert_eq!(ua.version, "b/c");
    assert!(UserAgent::from_str("noslash").is_err());
    assert!(UserAgent::from_str("/leading").is_err());
    assert!(UserAgent::from_str("trailing/").is_err());
    let ua = UserAgent::from_str("ünïcode/v1").unwrap();
    assert_eq!(ua.name, "ünïcode");
    assert_eq!(ua.version, "v1");
}

#[test]
fn header_wrappers_carry_their_text() {
    let t = Token::from_str("anything at all");
    assert_eq!(t.0, "anything at all");
    let a = AccessToken::from_str("00000000-0000-0000-0000-000000000009").unwrap();
    assert_eq!(a.0, 9);
    assert!(AccessToken::from_str("nonsense").is_err());
}

#[test]
fn backend_packs_its_configuration() {
    let b = Backend::new(443, vec![1, 2], vec![3, 4]);
    assert_eq!(b.port, 443);
    assert_eq!(b.key, vec![1, 2]);
    assert_eq!(b.cert, vec![3, 4]);
    assert_eq!(b.server_id_timeout, 10);
    assert_eq!(b.access_timeout, 600);
}

#[test]
fn byte_level_parse_matches_text_parse() {
    let text = "01234567-89ab-cdef-0123-456789abcdef";
    assert_eq!(parse_uuid_bytes(text.as_bytes()), parse_uuid(text));
}
