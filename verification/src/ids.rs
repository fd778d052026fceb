//! 128-bit identifiers: random generation, the lowercase hyphenated
//! hexadecimal text form they take on the wire, and parsing that text back.

use vstd::prelude::*;
use vstd::string::StringSliceAdditionalSpecFns;
use crate::digits::{
    digits_of,
    digits_in_range,
    lemma_digits_of_in_range,
    lemma_pow_16_32,
    lemma_radix_roundtrip,
    radix_u128,
    radix_val,
};
use crate::text::{chars_of_digits, digit_char_of, digit_str_of, dec_chars, dec_string, hex_val,
    hex_val_of, hex_digit_of};
use crate::idmap::{lemma_full_range_in_dom, IdMap};

verus! {

/// Relies on `rand::random`: sixteen bytes from the thread-local
/// cryptographically seeded generator.  Nothing is promised of the result;
/// freshness is enforced by the caller.
#[verifier::external_body]
pub fn random_uuid() -> u128 {
    rand::random::<u128>()
}

/// The 32 hexadecimal digit values of `v`, most significant first.
pub open spec fn uuid_digits(v: u128) -> Seq<u8> {
    digits_of(v as int, 16, 32)
}

/// The canonical text of `v`: 32 lowercase hexadecimal digits, hyphenated
/// in the 8-4-4-4-12 grouping.
pub open spec fn uuid_chars(v: u128) -> Seq<char> {
    let d = chars_of_digits(uuid_digits(v));
    d.subrange(0, 8) + seq!['-'] + d.subrange(8, 12) + seq!['-'] + d.subrange(12, 16)
        + seq!['-'] + d.subrange(16, 20) + seq!['-'] + d.subrange(20, 32)
}

/// The low `n` hexadecimal digits of `v`, most significant first.
fn hex_digits(v: u128, n: u32) -> (r: Vec<u8>)
    ensures
        r@ == digits_of(v as int, 16, n as nat),
        r@.len() == n,
        digits_in_range(r@, 16),
    decreases n,
{
    proof {
        lemma_digits_of_in_range(v as int, 16, n as nat);
    }
    if n == 0 {
        Vec::new()
    } else {
        let mut r = hex_digits(v / 16, n - 1);
        r.push((v % 16) as u8);
        r
    }
}

/// Renders an id in its canonical hyphenated lowercase form.
pub fn encode_uuid(v: u128) -> (r: String)
    ensures
        r@ == uuid_chars(v),
        r@.len() == 36,
{
    let digits = hex_digits(v, 32);
    let ghost goal = uuid_chars(v);
    proof {
        assert(goal.len() == 36);
    }
    let mut s = String::new();
    proof {
        assert(s@ =~= goal.take(0));
    }
    for j in 0..36usize
        invariant
            digits@ == uuid_digits(v),
            digits@.len() == 32,
            digits_in_range(digits@, 16),
            goal == uuid_chars(v),
            goal.len() == 36,
            s@ == goal.take(j as int),
    {
        let ghost pre = s@;
        if j == 8 || j == 13 || j == 18 || j == 23 {
            let h = "-";
            proof {
                reveal_strlit("-");
                assert(h@ =~= seq!['-']);
                assert(goal[j as int] == '-');
            }
            s.append(h);
        } else {
            let k = if j < 8 {
                j
            } else if j < 13 {
                j - 1
            } else if j < 18 {
                j - 2
            } else if j < 23 {
                j - 3
            } else {
                j - 4
            };
            let d = digits[k];
            proof {
                assert(goal[j as int] == digit_char_of(digits@[k as int]));
            }
            s.append(digit_str_of(d));
        }
        proof {
            assert(s@ =~= goal.take(j + 1));
        }
    }
    proof {
        assert(goal.take(36) =~= goal);
    }
    s
}

/// Why an id string was rejected.
#[derive(Clone, Copy, PartialEq, Eq, Structural, Debug)]
pub enum IdParseError {
    /// The text length matches neither the 32-digit nor the hyphenated
    /// 36-character form; carries the length seen.
    Length(usize),
    /// A byte where a hexadecimal digit or a grouping hyphen was expected.
    Digit,
}

/// The human-readable text of an id parse error.
pub open spec fn id_error_chars(e: IdParseError) -> Seq<char> {
    match e {
        IdParseError::Length(n) => "invalid id length: "@ + dec_chars(n as nat),
        IdParseError::Digit => "invalid character in id"@,
    }
}

impl IdParseError {
    /// Renders the error for a close reason.
    pub fn message(&self) -> (r: String)
        ensures
            r@ == id_error_chars(*self),
    {
        match self {
            IdParseError::Length(n) => {
                proof {
                    reveal_strlit("invalid id length: ");
                }
                let mut s = String::new();
                s.append("invalid id length: ");
                let n_s = dec_string(*n as u64);
                s.append(n_s.as_str());
                s
            },
            IdParseError::Digit => {
                let s = "invalid character in id".to_owned();
                s
            },
        }
    }
}

/// The hyphen positions of the 36-character form.
pub open spec fn hyphen_pos(i: int) -> bool {
    i == 8 || i == 13 || i == 18 || i == 23
}

/// True when every byte is an ASCII hexadecimal digit.
pub open spec fn all_hex(b: Seq<u8>) -> bool {
    forall|i: int| 0 <= i < b.len() ==> hex_val_of(b[i]) is Some
}

/// True when a 36-byte string has hyphens at the grouping positions and
/// hexadecimal digits everywhere else.
pub open spec fn hyphenated_ok(b: Seq<u8>) -> bool
    recommends
        b.len() == 36,
{
    forall|i: int|
        0 <= i < 36 ==> (if hyphen_pos(i) {
            b[i] == '-' as u8
        } else {
            hex_val_of(b[i]) is Some
        })
}

/// The 32 digit bytes of a hyphenated id string, hyphens stripped.
pub open spec fn compact_uuid(b: Seq<u8>) -> Seq<u8>
    recommends
        b.len() == 36,
{
    b.subrange(0, 8) + b.subrange(9, 13) + b.subrange(14, 18) + b.subrange(19, 23) + b.subrange(
        24,
        36,
    )
}

/// The value denoted by a string of hexadecimal digit bytes.
pub open spec fn hex_bytes_val(b: Seq<u8>) -> int {
    radix_val(b.map_values(|x: u8| hex_digit_of(x)), 16)
}

/// What parsing an id string yields: the 32-digit form and the hyphenated
/// 36-character form are accepted, hexadecimal digits in either case.
pub open spec fn parse_uuid_spec(b: Seq<u8>) -> Result<u128, IdParseError> {
    if b.len() == 32 {
        if all_hex(b) {
            Ok(hex_bytes_val(b) as u128)
        } else {
            Err(IdParseError::Digit)
        }
    } else if b.len() == 36 {
        if hyphenated_ok(b) {
            Ok(hex_bytes_val(compact_uuid(b)) as u128)
        } else {
            Err(IdParseError::Digit)
        }
    } else {
        Err(IdParseError::Length(b.len() as usize))
    }
}

fn parse_compact(b: &[u8]) -> (r: Result<u128, IdParseError>)
    requires
        b@.len() == 32,
    ensures
        all_hex(b@) ==> r == Ok::<u128, IdParseError>(hex_bytes_val(b@) as u128),
        !all_hex(b@) ==> r == Err::<u128, IdParseError>(IdParseError::Digit),
{
    let mut digs: Vec<u8> = Vec::new();
    for i in 0..32usize
        invariant
            b@.len() == 32,
            digs@.len() == i,
            forall|j: int| 0 <= j < i ==> hex_val_of(b@[j]) is Some,
            forall|j: int| 0 <= j < i ==> digs@[j] == hex_digit_of(b@[j]),
            digits_in_range(digs@, 16),
    {
        match hex_val(b[i]) {
            Some(d) => {
                digs.push(d);
            },
            None => {
                return Err(IdParseError::Digit);
            },
        }
    }
    proof {
        assert(digs@ =~= b@.map_values(|x: u8| hex_digit_of(x)));
        lemma_pow_16_32();
    }
    let v = radix_u128(digs.as_slice(), 16u16);
    proof {
        crate::digits::lemma_radix_val_bound(digs@, 16);
        assert(v as int == hex_bytes_val(b@));
    }
    Ok(v)
}

/// Parses the byte form of an id string.
pub fn parse_uuid_bytes(b: &[u8]) -> (r: Result<u128, IdParseError>)
    ensures
        r == parse_uuid_spec(b@),
{
    let n = b.len();
    if n == 32 {
        parse_compact(b)
    } else if n == 36 {
        if !(b[8] == 45 && b[13] == 45 && b[18] == 45 && b[23] == 45) {
            proof {
                assert(!hyphenated_ok(b@));
            }
            return Err(IdParseError::Digit);
        }
        let mut c: Vec<u8> = Vec::new();
        for i in 0..36usize
            invariant
                b@.len() == 36,
                c@ == compact_uuid(b@).take(c@.len() as int),
                c@.len() == (if i <= 8 {
                    i as int
                } else if i <= 13 {
                    i - 1
                } else if i <= 18 {
                    i - 2
                } else if i <= 23 {
                    i - 3
                } else {
                    i - 4
                }),
        {
            if !(i == 8 || i == 13 || i == 18 || i == 23) {
                let ghost prev = c@;
                c.push(b[i]);
                proof {
                    let m = compact_uuid(b@);
                    assert(m[prev.len() as int] == b@[i as int]);
                    assert(c@ =~= m.take(c@.len() as int));
                }
            }
        }
        proof {
            assert(c@ =~= compact_uuid(b@));
            assert(hyphenated_ok(b@) <==> all_hex(c@)) by {
                let m = compact_uuid(b@);
                if all_hex(m) {
                    assert forall|i: int|
                        0 <= i < 36 && !hyphen_pos(i) implies hex_val_of(b@[i]) is Some by {
                        let j = if i < 8 {
                            i
                        } else if i < 13 {
                            i - 1
                        } else if i < 18 {
                            i - 2
                        } else if i < 23 {
                            i - 3
                        } else {
                            i - 4
                        };
                        assert(m[j] == b@[i]);
                    }
                } else if hyphenated_ok(b@) {
                    assert forall|j: int| 0 <= j < 32 implies hex_val_of(m[j]) is Some by {
                        let i = if j < 8 {
                            j
                        } else if j < 12 {
                            j + 1
                        } else if j < 16 {
                            j + 2
                        } else if j < 20 {
                            j + 3
                        } else {
                            j + 4
                        };
                        assert(m[j] == b@[i]);
                        assert(!hyphen_pos(i));
                    }
                }
            }
        }
        parse_compact(c.as_slice())
    } else {
        Err(IdParseError::Length(n))
    }
}

/// Parses an id string.
pub fn parse_uuid(s: &str) -> (r: Result<u128, IdParseError>)
    ensures
        r == parse_uuid_spec(s.spec_bytes()),
{
    parse_uuid_bytes(s.as_bytes())
}

/// The ASCII byte form of the canonical text of `v`.
pub open spec fn uuid_ascii(v: u128) -> Seq<u8> {
    uuid_chars(v).map_values(|c: char| c as u8)
}

/// Rendering an id and parsing the text back recovers the id.
pub proof fn lemma_uuid_roundtrip(v: u128)
    ensures
        parse_uuid_spec(uuid_ascii(v)) == Ok::<u128, IdParseError>(v),
{
    let a = uuid_ascii(v);
    let dd = uuid_digits(v);
    let dc = chars_of_digits(dd);
    lemma_digits_of_in_range(v as int, 16, 32);
    assert(a.len() == 36);
    assert forall|d: u8| d < 16 implies digit_char_of(d) as u8 != '-' as u8 && hex_val_of(
        digit_char_of(d) as u8,
    ) == Some(d) && hex_digit_of(digit_char_of(d) as u8) == d by {
    }
    assert forall|i: int| 0 <= i < 36 && hyphen_pos(i) implies a[i] == '-' as u8 by {
        assert(uuid_chars(v)[i] == '-');
    }
    assert forall|i: int| 0 <= i < 36 && !hyphen_pos(i) implies hex_val_of(a[i]) is Some by {
        let j = if i < 8 {
            i
        } else if i < 13 {
            i - 1
        } else if i < 18 {
            i - 2
        } else if i < 23 {
            i - 3
        } else {
            i - 4
        };
        assert(uuid_chars(v)[i] == dc[j]);
        assert(dc[j] == digit_char_of(dd[j]));
        assert(dd[j] < 16);
    }
    assert(hyphenated_ok(a));
    let m = compact_uuid(a);
    assert(m.map_values(|x: u8| hex_digit_of(x)) =~= dd) by {
        assert forall|j: int| 0 <= j < 32 implies m[j] == digit_char_of(dd[j]) as u8 by {
            let i = if j < 8 {
                j
            } else if j < 12 {
                j + 1
            } else if j < 16 {
                j + 2
            } else if j < 20 {
                j + 3
            } else {
                j + 4
            };
            assert(m[j] == a[i]);
            assert(uuid_chars(v)[i] == dc[j]);
        }
    }
    lemma_radix_roundtrip(v as int, 16, 32);
    lemma_pow_16_32();
    vstd::arithmetic::div_mod::lemma_small_mod(
        v as nat,
        0x1_0000_0000_0000_0000_0000_0000_0000_0000nat,
    );
    assert(hex_bytes_val(m) == v as int);
}

/// Mints an id that is not a live key of the map.  The id is random; on
/// the astronomically unlikely collision with a live key, the smallest
/// free value is taken instead, so freshness holds unconditionally.
pub fn fresh_uuid<V>(m: &IdMap<V>) -> (k: u128)
    requires
        m.wf(),
    ensures
        !m@.contains_key(k),
{
    let r = random_uuid();
    if !m.contains_key(r) {
        return r;
    }
    let n = m.len();
    let bound: u128 = n as u128 + 1;
    let mut i: u128 = 0;
    while i < bound
        invariant
            m.wf(),
            m@.dom().finite(),
            n == m@.dom().len(),
            bound == n as u128 + 1,
            i <= bound,
            forall|j: u128| j < i ==> m@.contains_key(j),
        decreases bound - i,
    {
        if !m.contains_key(i) {
            return i;
        }
        i += 1;
    }
    proof {
        lemma_full_range_in_dom(m@, bound as int);
        assert(false);
    }
    unreached()
}

} // verus!

