//! The binary message codec: decode results for every tag and error
//! region, the server-side encoding, close-code numbering, and error
//! message texts.

use figura_backend::message::{C2S, MsgError, S2C, WsCode};

#[test]
fn empty_buffer_is_a_length_error() {
    match C2S::try_from(&[]) {
        Err(MsgError::BadLength(ctx, req, exact, got)) => {
            assert_eq!(ctx, "C2S");
            assert_eq!(req, 1);
            assert!(!exact);
            assert_eq!(got, 0);
        },
        _ => panic!("empty buffer must be BadLength"),
    }
}

#[test]
fn unknown_tag_is_an_enum_error() {
    match C2S::try_from(&[4]) {
        Err(MsgError::BadEnum(ctx, lo, hi, got)) => {
            assert_eq!(ctx, "C2S");
            assert_eq!(lo, 0);
            assert_eq!(hi, 3);
            assert_eq!(got, 4);
        },
        _ => panic!("tag 4 must be BadEnum"),
    }
}

#[test]
fn auth_reply_round_trips_through_the_tag_space() {
    let bytes = S2C::Auth.to_bytes();
    assert_eq!(bytes, vec![0u8]);
    match C2S::try_from(bytes.as_slice()) {
        Ok(C2S::Token(payload)) => assert!(payload.is_empty()),
        _ => panic!("the auth tag must decode as an empty token"),
    }
}

#[test]
fn token_frame_carries_its_payload() {
    match C2S::try_from(&[0, 0x61, 0x62, 0x63]) {
        Ok(C2S::Token(payload)) => assert_eq!(payload, vec![0x61, 0x62, 0x63]),
        _ => panic!("tag 0 must decode as a token"),
    }
}

#[test]
fn ping_frame_decodes_its_fields() {
    match C2S::try_from(&[1, 0x00, 0x00, 0x01, 0x02, 0x05, 0xAA, 0xBB]) {
        Ok(C2S::Ping(num, flag, rest)) => {
            assert_eq!(num, 0x0102);
            assert!(flag);
            assert_eq!(rest, vec![0xAA, 0xBB]);
        },
        _ => panic!("tag 1 must decode as a ping"),
    }
}

#[test]
fn ping_flag_byte_zero_is_false() {
    match C2S::try_from(&[1, 0, 0, 0, 0, 0]) {
        Ok(C2S::Ping(num, flag, rest)) => {
            assert_eq!(num, 0);
            assert!(!flag);
            assert!(rest.is_empty());
        },
        _ => panic!("a six-byte ping must decode"),
    }
}

#[test]
fn short_ping_is_a_length_error() {
    match C2S::try_from(&[1, 0, 0, 0]) {
        Err(MsgError::BadLength(ctx, req, exact, got)) => {
            assert_eq!(ctx, "C2S::Ping");
            assert_eq!(req, 6);
            assert!(!exact);
            assert_eq!(got, 4);
        },
        _ => panic!("a four-byte ping must be BadLength"),
    }
}

#[test]
fn sub_frame_reads_a_big_endian_subject() {
    let mut buf = vec![2u8];
    buf.extend_from_slice(&[0; 15]);
    buf.push(9);
    match C2S::try_from(buf.as_slice()) {
        Ok(C2S::Sub(v)) => assert_eq!(v, 9),
        _ => panic!("tag 2 must decode as a subscription"),
    }
    let mut big = vec![3u8, 0x01];
    big.extend_from_slice(&[0; 15]);
    match C2S::try_from(big.as_slice()) {
        Ok(C2S::UnSub(v)) => assert_eq!(v, 0x01_u128 << 120),
        _ => panic!("tag 3 must decode as an unsubscription"),
    }
}

#[test]
fn sub_frames_demand_exact_length() {
    match C2S::try_from(&[2, 0, 0]) {
        Err(MsgError::BadLength(ctx, req, exact, got)) => {
            assert_eq!(ctx, "C2S::Sub");
            assert_eq!(req, 17);
            assert!(exact);
            assert_eq!(got, 3);
        },
        _ => panic!("a short subscription must be BadLength"),
    }
    let mut long = vec![3u8];
    long.extend_from_slice(&[0; 17]);
    match C2S::try_from(long.as_slice()) {
        Err(MsgError::BadLength(ctx, req, exact, got)) => {
            assert_eq!(ctx, "C2S::UnSub");
            assert_eq!(req, 17);
            assert!(exact);
            assert_eq!(got, 18);
        },
        _ => panic!("a long unsubscription must be BadLength"),
    }
}

#[test]
fn error_messages_read_like_the_close_reasons() {
    let e = MsgError::BadEnum("C2S", 0, 3, 4);
    assert_eq!(e.message(), "invalid value of C2S: must be 0 to 3 inclusive, got 4");
    let e = MsgError::BadLength("C2S", 1, false, 0);
    assert_eq!(e.message(), "invalid buffer size for C2S: must be at least 1 bytes, got 0");
    let e = MsgError::BadLength("C2S::Sub", 17, true, 3);
    assert_eq!(e.message(), "invalid buffer size for C2S::Sub: must be exactly 17 bytes, got 3");
}

#[test]
fn close_codes_keep_their_numbers() {
    assert_eq!(WsCode::NormalClosure.code(), 1000);
    assert_eq!(WsCode::UnsupportedData.code(), 1003);
    assert_eq!(WsCode::NoStatusReceived.code(), 1005);
    assert_eq!(WsCode::InvalidFramePayloadData.code(), 1007);
    assert_eq!(WsCode::BadGateway.code(), 1014);
    assert_eq!(WsCode::TlsHandshake.code(), 1015);
    assert_eq!(WsCode::Unauthorized.code(), 3000);
    assert_eq!(WsCode::ReAuth.code(), 4000);
    assert_eq!(WsCode::Banned.code(), 4001);
    assert_eq!(WsCode::TooManyConnections.code(), 4002);
}
