//! The per-connection authorization state machine.  A connection starts
//! unauthorized; its first accepted step is presenting an access token in
//! a binary frame.  Malformed input closes the connection with a specific
//! close code; everything else is ignored.

use vstd::prelude::*;
use crate::auth::{Auth, AuthService};
use crate::ids::{id_error_chars, parse_uuid_bytes, parse_uuid_spec};
use crate::message::{framing_error, msg_error_chars, C2S, MsgError, S2C, WsCode};
use crate::text::utf8_valid;
use vstd::utf8::valid_utf8;

verus! {

/// One inbound transport item, as the handler sees it: a binary frame's
/// payload, or anything else (text, control frames, stream errors), which
/// has no defined effect here.
pub enum Frame {
    Binary(Vec<u8>),
    Other,
}

/// What the handler asks the transport to do in response.
pub enum SocketAction {
    /// Nothing.
    Ignore,
    /// Send the server message as one binary frame.
    Reply(S2C),
    /// Close the connection with the code and a descriptive reason.
    Close(WsCode, String),
}

/// The close code for a frame that did not decode: an unknown tag is
/// unsupported data, a bad length is an invalid payload.
pub open spec fn close_code_of_err(e: MsgError) -> WsCode {
    match e {
        MsgError::BadEnum(_, _, _, _) => WsCode::UnsupportedData,
        MsgError::BadLength(_, _, _, _) => WsCode::InvalidFramePayloadData,
    }
}

/// Per-connection state.
pub struct Socket {
    /// Whether this connection has presented a live access token.
    pub authorized: bool,
}

impl Socket {
    /// A fresh, unauthorized connection.
    pub fn new() -> (r: Socket)
        ensures
            !r.authorized,
    {
        Socket { authorized: false }
    }

    /// Consumes one inbound item.  A binary frame that decodes to a token
    /// message authorizes the connection exactly when the token is valid
    /// UTF-8, parses as an id, and is live in the broker; every failure
    /// on that path closes with its own code and reason.  Frames that
    /// decode to other messages, and non-binary items, do nothing.
    pub fn handle<P: Auth>(&mut self, auth: &AuthService<P>, item: Frame) -> (r: SocketAction)
        requires
            auth.wf(),
        ensures
            item matches Frame::Other ==> (r is Ignore && final(self).authorized == old(
                self,
            ).authorized),
            item matches Frame::Binary(buf) ==> (match framing_error(buf@) {
                Some(e) => {
                    &&& r matches SocketAction::Close(code, desc)
                    &&& code == close_code_of_err(e)
                    &&& desc@ == msg_error_chars(e)
                    &&& final(self).authorized == old(self).authorized
                },
                None => {
                    if buf@[0] != 0 {
                        r is Ignore && final(self).authorized == old(self).authorized
                    } else {
                        let payload = buf@.skip(1);
                        if !valid_utf8(payload) {
                            &&& r matches SocketAction::Close(code, desc)
                            &&& code == WsCode::InvalidFramePayloadData
                            &&& desc@ == "invalid UTF-8 access token string"@
                            &&& final(self).authorized == old(self).authorized
                        } else {
                            match parse_uuid_spec(payload) {
                                Err(e) => {
                                    &&& r matches SocketAction::Close(code, desc)
                                    &&& code == WsCode::InvalidFramePayloadData
                                    &&& desc@ == "broken access token string: "@ + id_error_chars(
                                        e,
                                    )
                                    &&& final(self).authorized == old(self).authorized
                                },
                                Ok(token) => {
                                    if auth.tokens_view().contains_key(token) {
                                        &&& r == SocketAction::Reply(S2C::Auth)
                                        &&& final(self).authorized == true
                                    } else {
                                        &&& r matches SocketAction::Close(code, desc)
                                        &&& code == WsCode::Unauthorized
                                        &&& desc@ == "invalid access token"@
                                        &&& final(self).authorized == old(self).authorized
                                    }
                                },
                            }
                        }
                    }
                },
            }),
    {
        let buf = match item {
            Frame::Binary(b) => b,
            Frame::Other => {
                return SocketAction::Ignore;
            },
        };
        match C2S::try_from(buf.as_slice()) {
            Ok(C2S::Token(payload)) => {
                if !utf8_valid(payload.as_slice()) {
                    return SocketAction::Close(
                        WsCode::InvalidFramePayloadData,
                        "invalid UTF-8 access token string".to_owned(),
                    );
                }
                match parse_uuid_bytes(payload.as_slice()) {
                    Ok(token) => {
                        if auth.check_access_token(token) {
                            self.authorized = true;
                            SocketAction::Reply(S2C::Auth)
                        } else {
                            SocketAction::Close(
                                WsCode::Unauthorized,
                                "invalid access token".to_owned(),
                            )
                        }
                    },
                    Err(e) => {
                        proof {
                            reveal_strlit("broken access token string: ");
                        }
                        let mut desc = String::new();
                        desc.append("broken access token string: ");
                        let tail = e.message();
                        desc.append(tail.as_str());
                        proof {
                            assert(desc@ =~= "broken access token string: "@ + id_error_chars(e));
                        }
                        SocketAction::Close(WsCode::InvalidFramePayloadData, desc)
                    },
                }
            },
            Ok(_) => SocketAction::Ignore,
            Err(e) => {
                let code = match e {
                    MsgError::BadEnum(_, _, _, _) => WsCode::UnsupportedData,
                    MsgError::BadLength(_, _, _, _) => WsCode::InvalidFramePayloadData,
                };
                let desc = e.message();
                SocketAction::Close(code, desc)
            },
        }
    }
}

} // verus!
