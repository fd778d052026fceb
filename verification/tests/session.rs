//! End-to-end connection scenarios: a client obtains a token through the
//! broker, presents it over the socket, and is authorized; malformed
//! presentations close the connection with their specific reasons.

use figura_backend::auth::{AuthService, RosterAuth};
use figura_backend::ids::encode_uuid;
use figura_backend::message::{S2C, WsCode};
use figura_backend::socket::{Frame, Socket, SocketAction};

fn service_with_alice() -> AuthService<RosterAuth> {
    let mut svc: AuthService<RosterAuth> = AuthService::new(10, 600);
    let mut roster = RosterAuth::new();
    roster.insert(String::from("alice"), 0xA11CE);
    svc.add(roster);
    svc
}

fn token_frame(text: &str) -> Frame {
    let mut buf = vec![0u8];
    buf.extend_from_slice(text.as_bytes());
    Frame::Binary(buf)
}

#[test]
fn presented_token_authorizes_the_connection() {
    let mut svc = service_with_alice();
    let id1 = svc.assign_server_id("alice", 0);
    let token1 = svc.obtain_access_token(id1, 0).unwrap();

    let mut socket = Socket::new();
    assert!(!socket.authorized);
    let action = socket.handle(&svc, token_frame(&encode_uuid(token1)));
    match action {
        SocketAction::Reply(S2C::Auth) => {},
        _ => panic!("a live token must authorize"),
    }
    assert!(socket.authorized);
    assert_eq!(S2C::Auth.to_bytes(), vec![0u8]);
}

#[test]
fn invalid_utf8_token_payload_closes_the_connection() {
    let svc = service_with_alice();
    let mut socket = Socket::new();
    // A lone continuation byte is not UTF-8.
    let action = socket.handle(&svc, Frame::Binary(vec![0x00, 0x80]));
    match action {
        SocketAction::Close(code, desc) => {
            assert_eq!(code, WsCode::InvalidFramePayloadData);
            assert_eq!(code.code(), 1007);
            assert_eq!(desc, "invalid UTF-8 access token string");
        },
        _ => panic!("invalid UTF-8 must close the connection"),
    }
    assert!(!socket.authorized);
}

#[test]
fn unparsable_token_text_closes_the_connection() {
    let svc = service_with_alice();
    let mut socket = Socket::new();
    let action = socket.handle(&svc, token_frame("not-an-id"));
    match action {
        SocketAction::Close(code, desc) => {
            assert_eq!(code, WsCode::InvalidFramePayloadData);
            assert_eq!(desc, "broken access token string: invalid id length: 9");
        },
        _ => panic!("an unparsable token must close the connection"),
    }
    assert!(!socket.authorized);
}

#[test]
fn unknown_token_is_unauthorized() {
    let svc = service_with_alice();
    let mut socket = Socket::new();
    let action = socket.handle(
        &svc,
        token_frame("00000000-0000-0000-0000-000000000001"),
    );
    match action {
        SocketAction::Close(code, desc) => {
            assert_eq!(code, WsCode::Unauthorized);
            assert_eq!(code.code(), 3000);
            assert_eq!(desc, "invalid access token");
        },
        _ => panic!("an unminted token must not authorize"),
    }
    assert!(!socket.authorized);
}

#[test]
fn expired_token_is_unauthorized() {
    let mut svc = service_with_alice();
    let id = svc.assign_server_id("alice", 0);
    let token = svc.obtain_access_token(id, 0).unwrap();
    svc.sweep(600);
    let mut socket = Socket::new();
    match socket.handle(&svc, token_frame(&encode_uuid(token))) {
        SocketAction::Close(code, _) => assert_eq!(code, WsCode::Unauthorized),
        _ => panic!("an expired token must not authorize"),
    }
}

#[test]
fn undecodable_frames_close_with_their_codes() {
    let svc = service_with_alice();
    let mut socket = Socket::new();
    match socket.handle(&svc, Frame::Binary(vec![4])) {
        SocketAction::Close(code, desc) => {
            assert_eq!(code, WsCode::UnsupportedData);
            assert_eq!(desc, "invalid value of C2S: must be 0 to 3 inclusive, got 4");
        },
        _ => panic!("an unknown tag must close as unsupported data"),
    }
    match socket.handle(&svc, Frame::Binary(vec![])) {
        SocketAction::Close(code, desc) => {
            assert_eq!(code, WsCode::InvalidFramePayloadData);
            assert_eq!(desc, "invalid buffer size for C2S: must be at least 1 bytes, got 0");
        },
        _ => panic!("an empty frame must close as an invalid payload"),
    }
    assert!(!socket.authorized);
}

#[test]
fn other_messages_have_no_effect_before_authorization() {
    let svc = service_with_alice();
    let mut socket = Socket::new();
    // A well-formed ping.
    match socket.handle(&svc, Frame::Binary(vec![1, 0, 0, 0, 1, 1])) {
        SocketAction::Ignore => {},
        _ => panic!("a ping has no defined effect here"),
    }
    // A well-formed subscription.
    let mut sub = vec![2u8];
    sub.extend_from_slice(&[0; 16]);
    match socket.handle(&svc, Frame::Binary(sub)) {
        SocketAction::Ignore => {},
        _ => panic!("a subscription has no defined effect here"),
    }
    // A non-binary transport item.
    match socket.handle(&svc, Frame::Other) {
        SocketAction::Ignore => {},
        _ => panic!("non-binary items have no defined effect"),
    }
    assert!(!socket.authorized);
}

#[test]
fn compact_token_text_authorizes_too() {
    let mut svc = service_with_alice();
    let id = svc.assign_server_id("alice", 0);
    let token = svc.obtain_access_token(id, 0).unwrap();
    let hyphenated = encode_uuid(token);
    let compact: String = hyphenated.chars().filter(|c| *c != '-').collect();
    let mut socket = Socket::new();
    match socket.handle(&svc, token_frame(&compact)) {
        SocketAction::Reply(S2C::Auth) => {},
        _ => panic!("the 32-digit form must authorize as well"),
    }
    assert!(socket.authorized);
}
