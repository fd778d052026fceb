//! Startup configuration of the backend process: the listening port, the
//! TLS key and certificate material as PEM bytes, the broker's two
//! eviction timeouts, and the parsing of timeout arguments.  The
//! transport layer consumes this to run a server.

use vstd::prelude::*;
use vstd::string::StringSliceAdditionalSpecFns;
use crate::digits::{lemma_radix_val_prefix, radix_val};
use crate::text::{all_dec_digits, dec_seq_val, dec_val, dec_val_of};

verus! {

/// Stock lifetime of an unconsumed server id, in seconds.
pub const DEFAULT_SERVER_ID_TIMEOUT: u64 = 10;

/// Stock lifetime of an untouched access token, in seconds.
pub const DEFAULT_ACCESS_TIMEOUT: u64 = 600;

/// What the process needs to serve: where to listen, the TLS material,
/// and the broker's eviction timeouts.
pub struct Backend {
    /// Port the server listens to.
    pub port: u16,
    /// PEM bytes of the PKCS#8 private key.
    pub key: Vec<u8>,
    /// PEM bytes of the certificate chain.
    pub cert: Vec<u8>,
    /// Lifetime of an unconsumed server id, in seconds.
    pub server_id_timeout: u64,
    /// Lifetime of an untouched access token, in seconds.
    pub access_timeout: u64,
}

impl Backend {
    /// Packs the listening configuration with the stock timeouts.
    pub fn new(port: u16, key: Vec<u8>, cert: Vec<u8>) -> (r: Backend)
        ensures
            r.port == port,
            r.key@ == key@,
            r.cert@ == cert@,
            r.server_id_timeout == DEFAULT_SERVER_ID_TIMEOUT,
            r.access_timeout == DEFAULT_ACCESS_TIMEOUT,
    {
        Backend {
            port,
            key,
            cert,
            server_id_timeout: DEFAULT_SERVER_ID_TIMEOUT,
            access_timeout: DEFAULT_ACCESS_TIMEOUT,
        }
    }
}

/// An argument that is not a whole number of seconds in range.
#[derive(Clone, Copy, PartialEq, Eq, Structural, Debug)]
pub struct DurationParseError;

/// Parses a command-line duration argument: a nonempty string of decimal
/// digits whose value fits a 64-bit count of seconds.
pub fn duration_str(arg: &str) -> (r: Result<u64, DurationParseError>)
    ensures
        r is Ok <==> (arg.spec_bytes().len() > 0 && all_dec_digits(arg.spec_bytes())
            && dec_seq_val(arg.spec_bytes()) <= u64::MAX as int),
        r matches Ok(v) ==> v as int == dec_seq_val(arg.spec_bytes()),
{
    let b = arg.as_bytes();
    let n = b.len();
    let ghost sb = arg.spec_bytes();
    let ghost digits = sb.map_values(|x: u8| (x - 0x30) as u8);
    if n == 0 {
        return Err(DurationParseError);
    }
    let mut acc: u64 = 0;
    proof {
        assert(digits.take(0) =~= sb.take(0).map_values(|x: u8| (x - 0x30) as u8));
    }
    for i in 0..n
        invariant
            n == sb.len(),
            b@ == sb,
            sb == arg.spec_bytes(),
            n > 0,
            digits == sb.map_values(|x: u8| (x - 0x30) as u8),
            forall|j: int| 0 <= j < i ==> dec_val_of(sb[j]) is Some,
            acc as int == radix_val(digits.take(i as int), 10),
    {
        let d = match dec_val(b[i]) {
            Some(d) => d,
            None => {
                return Err(DurationParseError);
            },
        };
        let ghost pre = digits.take(i as int);
        proof {
            assert(digits.take(i + 1).drop_last() =~= pre);
            assert(digits.take(i + 1).last() == (sb[i as int] - 0x30) as u8);
            assert(radix_val(digits.take(i + 1), 10) == acc as int * 10 + d as int);
        }
        if acc > (u64::MAX - d as u64) / 10 {
            proof {
                let y = (u64::MAX - d) as int;
                vstd::arithmetic::div_mod::lemma_fundamental_div_mod(y, 10);
                assert(radix_val(digits.take(i + 1), 10) > u64::MAX as int);
                lemma_radix_val_prefix(digits, i + 1, 10);
                assert(dec_seq_val(sb) > u64::MAX as int);
            }
            return Err(DurationParseError);
        }
        proof {
            let y = (u64::MAX - d) as int;
            vstd::arithmetic::div_mod::lemma_fundamental_div_mod(y, 10);
            assert(acc as int * 10 + d as int <= u64::MAX as int);
        }
        acc = acc * 10 + d as u64;
    }
    proof {
        assert(digits.take(n as int) =~= digits);
    }
    Ok(acc)
}

} // verus!
