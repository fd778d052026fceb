//! The binary message codec: fixed-tag client-to-server frames, the
//! single server-to-client acknowledgment, close-code numbering, and the
//! human-readable text of framing errors.

use vstd::prelude::*;
use vstd::string::StringSliceAdditionalSpecFns;
use crate::digits::{
    digits_in_range,
    lemma_pow_256_16,
    lemma_pow_256_4,
    lemma_radix_val_bound,
    radix_u128,
    radix_val,
};
use crate::text::{dec_chars, dec_string};

verus! {

/// Application-level close codes, layered onto the standard WebSocket
/// close-code space.
#[derive(Clone, Copy, PartialEq, Eq, Structural, Debug)]
pub enum WsCode {
    NormalClosure,
    GoingAway,
    ProtocolError,
    UnsupportedData,
    NoStatusReceived,
    AbnormalClosure,
    InvalidFramePayloadData,
    PolicyViolation,
    MessageTooBig,
    MandatoryExt,
    InternalError,
    ServiceRestart,
    TryAgainLater,
    BadGateway,
    TlsHandshake,
    Unauthorized,
    ReAuth,
    Banned,
    TooManyConnections,
}

/// The numeric close code of each name: the standard codes keep their
/// 1000-series numbers; the application codes take 3000 and the 4000s.
pub open spec fn code_of(c: WsCode) -> u16 {
    match c {
        WsCode::NormalClosure => 1000,
        WsCode::GoingAway => 1001,
        WsCode::ProtocolError => 1002,
        WsCode::UnsupportedData => 1003,
        WsCode::NoStatusReceived => 1005,
        WsCode::AbnormalClosure => 1006,
        WsCode::InvalidFramePayloadData => 1007,
        WsCode::PolicyViolation => 1008,
        WsCode::MessageTooBig => 1009,
        WsCode::MandatoryExt => 1010,
        WsCode::InternalError => 1011,
        WsCode::ServiceRestart => 1012,
        WsCode::TryAgainLater => 1013,
        WsCode::BadGateway => 1014,
        WsCode::TlsHandshake => 1015,
        WsCode::Unauthorized => 3000,
        WsCode::ReAuth => 4000,
        WsCode::Banned => 4001,
        WsCode::TooManyConnections => 4002,
    }
}

impl WsCode {
    /// The numeric close code carried on the wire.
    pub fn code(self) -> (r: u16)
        ensures
            r == code_of(self),
    {
        match self {
            WsCode::NormalClosure => 1000,
            WsCode::GoingAway => 1001,
            WsCode::ProtocolError => 1002,
            WsCode::UnsupportedData => 1003,
            WsCode::NoStatusReceived => 1005,
            WsCode::AbnormalClosure => 1006,
            WsCode::InvalidFramePayloadData => 1007,
            WsCode::PolicyViolation => 1008,
            WsCode::MessageTooBig => 1009,
            WsCode::MandatoryExt => 1010,
            WsCode::InternalError => 1011,
            WsCode::ServiceRestart => 1012,
            WsCode::TryAgainLater => 1013,
            WsCode::BadGateway => 1014,
            WsCode::TlsHandshake => 1015,
            WsCode::Unauthorized => 3000,
            WsCode::ReAuth => 4000,
            WsCode::Banned => 4001,
            WsCode::TooManyConnections => 4002,
        }
    }
}

/// A malformed client frame.
#[derive(Debug)]
pub enum MsgError {
    /// A tag byte outside the accepted range: context, lowest and highest
    /// accepted values, and the value seen.
    BadEnum(&'static str, usize, usize, usize),
    /// A buffer shorter than required, or not of the exact required
    /// length: context, required length, whether the length must be exact,
    /// and the length seen.
    BadLength(&'static str, usize, bool, usize),
}

/// The human-readable text of a framing error.
pub open spec fn msg_error_chars(e: MsgError) -> Seq<char> {
    match e {
        MsgError::BadEnum(ctx, lo, hi, got) => "invalid value of "@ + ctx@ + ": must be "@
            + dec_chars(lo as nat) + " to "@ + dec_chars(hi as nat) + " inclusive, got "@
            + dec_chars(got as nat),
        MsgError::BadLength(ctx, req, exact, got) => "invalid buffer size for "@ + ctx@
            + ": must be "@ + (if exact {
            "exactly "@
        } else {
            "at least "@
        }) + dec_chars(req as nat) + " bytes, got "@ + dec_chars(got as nat),
    }
}

impl MsgError {
    /// Renders the error for a close reason.
    pub fn message(&self) -> (r: String)
        ensures
            r@ == msg_error_chars(*self),
    {
        match self {
            MsgError::BadEnum(ctx, lo, hi, got) => {
                proof {
                    reveal_strlit("invalid value of ");
                    reveal_strlit(": must be ");
                    reveal_strlit(" to ");
                    reveal_strlit(" inclusive, got ");
                }
                let mut s = String::new();
                s.append("invalid value of ");
                s.append(ctx);
                s.append(": must be ");
                let lo_s = dec_string(*lo as u64);
                s.append(lo_s.as_str());
                s.append(" to ");
                let hi_s = dec_string(*hi as u64);
                s.append(hi_s.as_str());
                s.append(" inclusive, got ");
                let got_s = dec_string(*got as u64);
                s.append(got_s.as_str());
                s
            },
            MsgError::BadLength(ctx, req, exact, got) => {
                proof {
                    reveal_strlit("invalid buffer size for ");
                    reveal_strlit(": must be ");
                    reveal_strlit("exactly ");
                    reveal_strlit("at least ");
                    reveal_strlit(" bytes, got ");
                }
                let mut s = String::new();
                s.append("invalid buffer size for ");
                s.append(ctx);
                s.append(": must be ");
                if *exact {
                    s.append("exactly ");
                } else {
                    s.append("at least ");
                }
                let req_s = dec_string(*req as u64);
                s.append(req_s.as_str());
                s.append(" bytes, got ");
                let got_s = dec_string(*got as u64);
                s.append(got_s.as_str());
                s
            },
        }
    }
}

/// A client-to-server message: the first byte of a frame is the tag, the
/// rest is the tag's payload.
#[derive(Debug)]
pub enum C2S {
    /// Tag 0: the access token text, handed over unexamined.
    Token(Vec<u8>),
    /// Tag 1: a big-endian sequence number, a flag byte, and free payload.
    Ping(u32, bool, Vec<u8>),
    /// Tag 2: a big-endian 128-bit subscription subject.
    Sub(u128),
    /// Tag 3: the matching unsubscription.
    UnSub(u128),
}

/// The framing error a buffer decodes to, or `None` when it decodes to a
/// message.
pub open spec fn framing_error(buf: Seq<u8>) -> Option<MsgError> {
    if buf.len() == 0 {
        Some(MsgError::BadLength("C2S", 1, false, 0))
    } else if buf[0] == 1 && buf.len() < 6 {
        Some(MsgError::BadLength("C2S::Ping", 6, false, buf.len() as usize))
    } else if buf[0] == 2 && buf.len() != 17 {
        Some(MsgError::BadLength("C2S::Sub", 17, true, buf.len() as usize))
    } else if buf[0] == 3 && buf.len() != 17 {
        Some(MsgError::BadLength("C2S::UnSub", 17, true, buf.len() as usize))
    } else if buf[0] > 3 {
        Some(MsgError::BadEnum("C2S", 0, 3, buf[0] as usize))
    } else {
        None
    }
}

impl C2S {
    /// Decodes one binary frame.  Each clause below pins the result for
    /// one region of the input space: the empty buffer and short buffers
    /// are length errors, a tag above 3 is an enumeration error, and each
    /// accepted tag yields exactly the fields its payload encodes.
    pub fn try_from(buf: &[u8]) -> (r: Result<C2S, MsgError>)
        ensures
            buf@.len() == 0 ==> (r matches Err(e) && e == MsgError::BadLength(
                "C2S",
                1,
                false,
                0,
            )),
            buf@.len() > 0 && buf@[0] == 0 ==> (r matches Ok(m) && m matches C2S::Token(p)
                && p@ == buf@.skip(1)),
            buf@.len() >= 6 && buf@[0] == 1 ==> (r matches Ok(m) && m matches C2S::Ping(
                num,
                flag,
                p,
            ) && num as int == radix_val(buf@.subrange(1, 5), 256) && flag == (buf@[5] != 0)
                && p@ == buf@.skip(6)),
            0 < buf@.len() < 6 && buf@[0] == 1 ==> (r matches Err(e) && e == MsgError::BadLength(
                "C2S::Ping",
                6,
                false,
                buf@.len() as usize,
            )),
            buf@.len() == 17 && buf@[0] == 2 ==> (r matches Ok(m) && m matches C2S::Sub(v)
                && v as int == radix_val(buf@.skip(1), 256)),
            buf@.len() > 0 && buf@.len() != 17 && buf@[0] == 2 ==> (r matches Err(e) && e
                == MsgError::BadLength("C2S::Sub", 17, true, buf@.len() as usize)),
            buf@.len() == 17 && buf@[0] == 3 ==> (r matches Ok(m) && m matches C2S::UnSub(v)
                && v as int == radix_val(buf@.skip(1), 256)),
            buf@.len() > 0 && buf@.len() != 17 && buf@[0] == 3 ==> (r matches Err(e) && e
                == MsgError::BadLength("C2S::UnSub", 17, true, buf@.len() as usize)),
            buf@.len() > 0 && buf@[0] > 3 ==> (r matches Err(e) && e == MsgError::BadEnum(
                "C2S",
                0,
                3,
                buf@[0] as usize,
            )),
            framing_error(buf@) matches Some(e) ==> r == Err::<C2S, MsgError>(e),
            framing_error(buf@) is None ==> r is Ok,
    {
        let n = buf.len();
        if n == 0 {
            return Err(MsgError::BadLength("C2S", 1, false, 0));
        }
        proof {
            assert(digits_in_range(buf@.skip(1), 256));
        }
        match buf[0] {
            0 => {
                let p = vstd::slice::slice_to_vec(vstd::slice::slice_subrange(buf, 1, n));
                Ok(C2S::Token(p))
            },
            1 => {
                if n >= 6 {
                    let num_bytes = vstd::slice::slice_subrange(buf, 1, 5);
                    proof {
                        lemma_pow_256_4();
                        assert(digits_in_range(num_bytes@, 256));
                        lemma_radix_val_bound(num_bytes@, 256);
                    }
                    let num = radix_u128(num_bytes, 256) as u32;
                    let flag = buf[5] != 0;
                    let p = vstd::slice::slice_to_vec(vstd::slice::slice_subrange(buf, 6, n));
                    Ok(C2S::Ping(num, flag, p))
                } else {
                    Err(MsgError::BadLength("C2S::Ping", 6, false, n))
                }
            },
            2 => {
                if n == 17 {
                    let body = vstd::slice::slice_subrange(buf, 1, 17);
                    proof {
                        lemma_pow_256_16();
                        assert(digits_in_range(body@, 256));
                        assert(body@ =~= buf@.skip(1));
                    }
                    Ok(C2S::Sub(radix_u128(body, 256)))
                } else {
                    Err(MsgError::BadLength("C2S::Sub", 17, true, n))
                }
            },
            3 => {
                if n == 17 {
                    let body = vstd::slice::slice_subrange(buf, 1, 17);
                    proof {
                        lemma_pow_256_16();
                        assert(digits_in_range(body@, 256));
                        assert(body@ =~= buf@.skip(1));
                    }
                    Ok(C2S::UnSub(radix_u128(body, 256)))
                } else {
                    Err(MsgError::BadLength("C2S::UnSub", 17, true, n))
                }
            },
            t => Err(MsgError::BadEnum("C2S", 0, 3, t as usize)),
        }
    }
}

/// The server's authorization acknowledgment occupies the token tag of
/// the client space: its one-byte encoding, read back as a client frame,
/// is a token message with an empty payload.
pub proof fn lemma_auth_tag_round_trip()
    ensures
        framing_error(s2c_bytes(S2C::Auth)) is None,
        s2c_bytes(S2C::Auth)[0] == 0,
        s2c_bytes(S2C::Auth).skip(1) == Seq::<u8>::empty(),
{
    assert(s2c_bytes(S2C::Auth).skip(1) =~= Seq::<u8>::empty());
}

/// A server-to-client message; only the authorization acknowledgment is
/// defined here.
#[derive(Clone, Copy, PartialEq, Eq, Structural, Debug)]
pub enum S2C {
    Auth,
}

/// The tag-only encoding of a server message.
pub open spec fn s2c_bytes(m: S2C) -> Seq<u8> {
    match m {
        S2C::Auth => seq![0u8],
    }
}

impl S2C {
    /// Encodes the message for the wire.
    pub fn to_bytes(self) -> (r: Vec<u8>)
        ensures
            r@ == s2c_bytes(self),
    {
        match self {
            S2C::Auth => {
                let mut v: Vec<u8> = Vec::new();
                v.push(0);
                proof {
                    assert(v@ =~= seq![0u8]);
                }
                v
            },
        }
    }
}

} // verus!
