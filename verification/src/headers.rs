//! Request-surface types: the user-agent and token headers and the query
//! parameter carriers.  The transport layer converts its own header and
//! query machinery to and from these.

use vstd::prelude::*;
use vstd::string::StringSliceAdditionalSpecFns;
use vstd::utf8::{decode_utf8, is_char_boundary, is_continuation_byte, valid_utf8};
use crate::ids::{parse_uuid, parse_uuid_spec, IdParseError};

verus! {

broadcast use vstd::utf8::encode_utf8_valid_utf8, vstd::utf8::encode_utf8_decode_utf8,
    vstd::utf8::valid_utf8_split, vstd::utf8::is_char_boundary_iff_not_is_continuation_byte;

/// The `user-agent` header, split as `name/version`.
pub struct UserAgent {
    pub name: String,
    pub version: String,
}

/// A `user-agent` string without a slash, or with an empty name or
/// version.
#[derive(Clone, Copy, PartialEq, Eq, Structural, Debug)]
pub struct UserAgentParseError;

/// True when `p` is the position of the first slash byte.
pub open spec fn first_slash_at(b: Seq<u8>, p: int) -> bool {
    &&& 0 <= p < b.len()
    &&& b[p] == '/' as u8
    &&& forall|j: int| 0 <= j < p ==> b[j] != '/' as u8
}

fn find_slash(b: &[u8]) -> (r: Option<usize>)
    ensures
        r matches Some(p) ==> first_slash_at(b@, p as int),
        r is None ==> forall|j: int| 0 <= j < b@.len() ==> b@[j] != '/' as u8,
{
    let n = b.len();
    for p in 0..n
        invariant
            n == b@.len(),
            forall|j: int| 0 <= j < p ==> b@[j] != '/' as u8,
    {
        if b[p] == 47 {
            return Some(p);
        }
    }
    None
}

impl UserAgent {
    /// Parses `name/version` at the first slash.  A string without a
    /// slash is rejected, as is one whose name or version part would be
    /// empty.
    pub fn from_str(s: &str) -> (r: Result<UserAgent, UserAgentParseError>)
        ensures
            (forall|j: int|
                0 <= j < s.spec_bytes().len() ==> s.spec_bytes()[j] != '/' as u8) ==> r is Err,
            forall|p: int|
                first_slash_at(s.spec_bytes(), p) && !(0 < p < s.spec_bytes().len() - 1)
                    ==> r is Err,
            forall|p: int|
                first_slash_at(s.spec_bytes(), p) && 0 < p < s.spec_bytes().len() - 1 ==> (
                r matches Ok(ua) && ua.name@ == decode_utf8(s.spec_bytes().subrange(0, p))
                    && ua.version@ == decode_utf8(
                    s.spec_bytes().subrange(p + 1, s.spec_bytes().len() as int),
                )),
    {
        let b = s.as_bytes();
        let n = b.len();
        let ghost sb = s.spec_bytes();
        let p = match find_slash(b) {
            Some(p) => p,
            None => {
                return Err(UserAgentParseError);
            },
        };
        if p == 0 || p == n - 1 {
            return Err(UserAgentParseError);
        }
        proof {
            assert(valid_utf8(sb));
            assert(!is_continuation_byte(sb[p as int]));
            assert(is_char_boundary(sb, p as int));
        }
        let (head, tail) = s.split_at(p);
        let ghost tail_b = sb.subrange(p as int, n as int);
        proof {
            assert(valid_utf8(tail_b));
            assert(tail_b[0] == '/' as u8);
            assert(vstd::utf8::length_of_first_scalar(tail_b) == 1);
            assert(vstd::utf8::pop_first_scalar(tail_b) =~= sb.subrange(p + 1, n as int));
            assert(valid_utf8(vstd::utf8::pop_first_scalar(tail_b)));
            assert(is_char_boundary(vstd::utf8::pop_first_scalar(tail_b), 0));
            assert(is_char_boundary(tail_b, 1));
        }
        let (_, ver) = tail.split_at(1);
        proof {
            assert(ver.spec_bytes() =~= sb.subrange(p + 1, n as int));
            assert(head@ == decode_utf8(sb.subrange(0, p as int)));
            assert(ver@ == decode_utf8(sb.subrange(p + 1, n as int)));
            assert(first_slash_at(sb, p as int));
        }
        Ok(UserAgent { name: head.to_owned(), version: ver.to_owned() })
    }
}

/// The raw `token` header: the text is carried as given.
pub struct Token(pub String);

impl Token {
    /// Wraps the header text; nothing can fail.
    pub fn from_str(s: &str) -> (r: Token)
        ensures
            r.0@ == s@,
    {
        Token(s.to_owned())
    }
}

/// The `token` header parsed as an access-token id.
#[derive(Clone, Copy, PartialEq, Eq, Structural, Debug)]
pub struct AccessToken(pub u128);

impl AccessToken {
    /// Parses the header text as an id.
    pub fn from_str(s: &str) -> (r: Result<AccessToken, IdParseError>)
        ensures
            parse_uuid_spec(s.spec_bytes()) matches Ok(v) ==> r == Ok::<
                AccessToken,
                IdParseError,
            >(AccessToken(v)),
            parse_uuid_spec(s.spec_bytes()) matches Err(e) ==> r == Err::<
                AccessToken,
                IdParseError,
            >(e),
    {
        match parse_uuid(s) {
            Ok(v) => Ok(AccessToken(v)),
            Err(e) => Err(e),
        }
    }
}

/// Query parameters of an assign-server-id request.
pub struct Username {
    pub username: String,
}

/// Query parameters of an obtain-access-token request.
pub struct ServerId {
    pub id: u128,
}

/// Query parameters of an assign-server-id request (older surface).
pub struct GetId {
    pub username: String,
}

/// Query parameters of a verify request carrying the id as raw text
/// (older surface).
pub struct GetToken {
    pub id: String,
}

/// Query parameters of an assign-server-id request (older surface).
pub struct AuthServerId {
    pub username: String,
}

/// Query parameters of a verify request carrying the id as raw text
/// (older surface).
pub struct AuthToken {
    pub id: String,
}

} // verus!
