//! Text helpers shared by the id codec and the protocol error messages:
//! hexadecimal and decimal digit characters, decimal rendering of numbers,
//! and digit-value lookup for parsing.

use vstd::prelude::*;
use crate::digits::radix_val;

verus! {

/// The character for a digit value below 16, lowercase.
pub open spec fn digit_char_of(d: u8) -> char
    recommends
        d < 16,
{
    if d == 0 {
        '0'
    } else if d == 1 {
        '1'
    } else if d == 2 {
        '2'
    } else if d == 3 {
        '3'
    } else if d == 4 {
        '4'
    } else if d == 5 {
        '5'
    } else if d == 6 {
        '6'
    } else if d == 7 {
        '7'
    } else if d == 8 {
        '8'
    } else if d == 9 {
        '9'
    } else if d == 10 {
        'a'
    } else if d == 11 {
        'b'
    } else if d == 12 {
        'c'
    } else if d == 13 {
        'd'
    } else if d == 14 {
        'e'
    } else {
        'f'
    }
}

/// The characters of a digit string.
pub open spec fn chars_of_digits(s: Seq<u8>) -> Seq<char> {
    s.map_values(|d: u8| digit_char_of(d))
}

/// A one-character string slice for a digit value below 16, lowercase.
pub fn digit_str_of(d: u8) -> (r: &'static str)
    requires
        d < 16,
    ensures
        r@ =~= seq![digit_char_of(d)],
{
    match d {
        0 => {
            proof {
                reveal_strlit("0");
            }
            "0"
        },
        1 => {
            proof {
                reveal_strlit("1");
            }
            "1"
        },
        2 => {
            proof {
                reveal_strlit("2");
            }
            "2"
        },
        3 => {
            proof {
                reveal_strlit("3");
            }
            "3"
        },
        4 => {
            proof {
                reveal_strlit("4");
            }
            "4"
        },
        5 => {
            proof {
                reveal_strlit("5");
            }
            "5"
        },
        6 => {
            proof {
                reveal_strlit("6");
            }
            "6"
        },
        7 => {
            proof {
                reveal_strlit("7");
            }
            "7"
        },
        8 => {
            proof {
                reveal_strlit("8");
            }
            "8"
        },
        9 => {
            proof {
                reveal_strlit("9");
            }
            "9"
        },
        10 => {
            proof {
                reveal_strlit("a");
            }
            "a"
        },
        11 => {
            proof {
                reveal_strlit("b");
            }
            "b"
        },
        12 => {
            proof {
                reveal_strlit("c");
            }
            "c"
        },
        13 => {
            proof {
                reveal_strlit("d");
            }
            "d"
        },
        14 => {
            proof {
                reveal_strlit("e");
            }
            "e"
        },
        _ => {
            proof {
                reveal_strlit("f");
            }
            "f"
        },
    }
}

/// Minimal decimal digit string of `n`, most significant first.
pub open spec fn dec_digits(n: nat) -> Seq<u8>
    decreases n,
{
    if n < 10 {
        seq![n as u8]
    } else {
        dec_digits(n / 10).push((n % 10) as u8)
    }
}

/// Decimal rendering of `n` as characters, without leading zeros.
pub open spec fn dec_chars(n: nat) -> Seq<char> {
    chars_of_digits(dec_digits(n))
}

/// Renders `n` in decimal.
pub fn dec_string(n: u64) -> (r: String)
    ensures
        r@ == dec_chars(n as nat),
    decreases n,
{
    if n < 10 {
        let s = digit_str_of(n as u8).to_owned();
        proof {
            assert(s@ =~= dec_chars(n as nat));
        }
        s
    } else {
        let mut s = dec_string(n / 10);
        s.append(digit_str_of((n % 10) as u8));
        proof {
            let d = dec_digits((n / 10) as nat);
            assert(dec_digits(n as nat) == d.push((n % 10) as u8));
            assert(chars_of_digits(d.push((n % 10) as u8)) =~= chars_of_digits(d) + seq![
                digit_char_of((n % 10) as u8),
            ]);
        }
        s
    }
}

/// The digit value of an ASCII hexadecimal character byte, upper or lower
/// case, or `None` for any other byte.
pub open spec fn hex_val_of(b: u8) -> Option<u8> {
    if '0' as u8 <= b <= '9' as u8 {
        Some((b - ('0' as u8)) as u8)
    } else if 'a' as u8 <= b <= 'f' as u8 {
        Some((b - ('a' as u8) + 10) as u8)
    } else if 'A' as u8 <= b <= 'F' as u8 {
        Some((b - ('A' as u8) + 10) as u8)
    } else {
        None
    }
}

/// The digit value of an ASCII hexadecimal character byte, with 0 standing
/// in for bytes that are no hexadecimal digit.
pub open spec fn hex_digit_of(b: u8) -> u8 {
    if '0' as u8 <= b <= '9' as u8 {
        (b - ('0' as u8)) as u8
    } else if 'a' as u8 <= b <= 'f' as u8 {
        (b - ('a' as u8) + 10) as u8
    } else if 'A' as u8 <= b <= 'F' as u8 {
        (b - ('A' as u8) + 10) as u8
    } else {
        0
    }
}

/// Looks up the hexadecimal digit value of a byte.
pub fn hex_val(b: u8) -> (r: Option<u8>)
    ensures
        r == hex_val_of(b),
        r is Some ==> r.unwrap() < 16 && r.unwrap() == hex_digit_of(b),
{
    if b >= 48 && b <= 57 {
        Some(b - 48)
    } else if b >= 97 && b <= 102 {
        Some(b - 97 + 10)
    } else if b >= 65 && b <= 70 {
        Some(b - 65 + 10)
    } else {
        None
    }
}

/// The decimal digit value of an ASCII byte, or `None` when it is not a
/// decimal digit.
pub open spec fn dec_val_of(b: u8) -> Option<u8> {
    if '0' as u8 <= b <= '9' as u8 {
        Some((b - ('0' as u8)) as u8)
    } else {
        None
    }
}

/// Looks up the decimal digit value of a byte.
pub fn dec_val(b: u8) -> (r: Option<u8>)
    ensures
        r == dec_val_of(b),
        r is Some ==> r.unwrap() < 10,
{
    if b >= 48 && b <= 57 {
        Some(b - 48)
    } else {
        None
    }
}

/// The value denoted by a decimal digit string, as an unbounded integer.
pub open spec fn dec_seq_val(s: Seq<u8>) -> int {
    radix_val(s.map_values(|b: u8| (b - 0x30) as u8), 10)
}

/// True when every byte of the string is an ASCII decimal digit.
pub open spec fn all_dec_digits(s: Seq<u8>) -> bool {
    forall|i: int| 0 <= i < s.len() ==> dec_val_of(s[i]) is Some
}

/// Checks that a byte string is well-formed UTF-8, against the byte-level
/// definition of the encoding.
pub fn utf8_valid(bytes: &[u8]) -> (r: bool)
    ensures
        r == vstd::utf8::valid_utf8(bytes@),
{
    let n = bytes.len();
    let mut i: usize = 0;
    proof {
        assert(bytes@.skip(0) =~= bytes@);
    }
    while i < n
        invariant
            i <= n,
            n == bytes@.len(),
            vstd::utf8::valid_utf8(bytes@) == vstd::utf8::valid_utf8(bytes@.skip(i as int)),
        decreases n - i,
    {
        let ghost rest = bytes@.skip(i as int);
        proof {
            assert(rest[0] == bytes@[i as int]);
        }
        let b0 = bytes[i];
        let width: usize;
        if b0 <= 0x7f {
            proof {
                assert((b0 & 0x7f) <= 0x7f) by (bit_vector);
                assert(vstd::utf8::valid_first_scalar(rest));
                assert(vstd::utf8::length_of_first_scalar(rest) == 1);
            }
            width = 1;
        } else if b0 >= 0xc0 && b0 <= 0xdf {
            if i + 1 >= n {
                proof {
                    assert(rest.len() == 1);
                    assert(!vstd::utf8::valid_first_scalar(rest));
                }
                return false;
            }
            proof {
                assert(rest[1] == bytes@[i + 1]);
            }
            let b1 = bytes[i + 1];
            if !(b1 >= 0x80 && b1 <= 0xbf) {
                proof {
                    assert(!vstd::utf8::valid_first_scalar(rest));
                }
                return false;
            }
            let cp: u32 = (((b0 & 0x1f) as u32) << 6) | ((b1 & 0x3f) as u32);
            if cp < 0x80 {
                proof {
                    assert(!vstd::utf8::valid_first_scalar(rest));
                }
                return false;
            }
            proof {
                assert((((b0 & 0x1f) as u32) << 6) | ((b1 & 0x3f) as u32) <= 0x7ff)
                    by (bit_vector);
                assert(vstd::utf8::valid_first_scalar(rest));
                assert(vstd::utf8::length_of_first_scalar(rest) == 2);
            }
            width = 2;
        } else if b0 >= 0xe0 && b0 <= 0xef {
            if i + 1 >= n {
                proof {
                    assert(!vstd::utf8::valid_first_scalar(rest));
                }
                return false;
            }
            proof {
                assert(rest[1] == bytes@[i + 1]);
            }
            let b1 = bytes[i + 1];
            if !(b1 >= 0x80 && b1 <= 0xbf) {
                proof {
                    assert(!vstd::utf8::valid_first_scalar(rest));
                }
                return false;
            }
            if i + 2 >= n {
                proof {
                    assert(rest.len() == 2);
                    assert(!vstd::utf8::valid_first_scalar(rest));
                }
                return false;
            }
            proof {
                assert(rest[2] == bytes@[i + 2]);
            }
            let b2 = bytes[i + 2];
            if !(b2 >= 0x80 && b2 <= 0xbf) {
                proof {
                    assert(!vstd::utf8::valid_first_scalar(rest));
                }
                return false;
            }
            let cp: u32 = (((b0 & 0x0f) as u32) << 12) | (((b1 & 0x3f) as u32) << 6) | ((b2
                & 0x3f) as u32);
            if cp < 0x800 || (cp >= 0xd800 && cp <= 0xdfff) {
                proof {
                    assert(!vstd::utf8::valid_first_scalar(rest));
                }
                return false;
            }
            proof {
                assert(vstd::utf8::valid_first_scalar(rest));
                assert(vstd::utf8::length_of_first_scalar(rest) == 3);
            }
            width = 3;
        } else if b0 >= 0xf0 && b0 <= 0xf7 {
            if i + 1 >= n {
                proof {
                    assert(!vstd::utf8::valid_first_scalar(rest));
                }
                return false;
            }
            proof {
                assert(rest[1] == bytes@[i + 1]);
            }
            let b1 = bytes[i + 1];
            if !(b1 >= 0x80 && b1 <= 0xbf) {
                proof {
                    assert(!vstd::utf8::valid_first_scalar(rest));
                }
                return false;
            }
            if i + 2 >= n {
                proof {
                    assert(!vstd::utf8::valid_first_scalar(rest));
                }
                return false;
            }
            proof {
                assert(rest[2] == bytes@[i + 2]);
            }
            let b2 = bytes[i + 2];
            if !(b2 >= 0x80 && b2 <= 0xbf) {
                proof {
                    assert(!vstd::utf8::valid_first_scalar(rest));
                }
                return false;
            }
            if i + 3 >= n {
                proof {
                    assert(rest.len() == 3);
                    assert(!vstd::utf8::valid_first_scalar(rest));
                }
                return false;
            }
            proof {
                assert(rest[3] == bytes@[i + 3]);
            }
            let b3 = bytes[i + 3];
            if !(b3 >= 0x80 && b3 <= 0xbf) {
                proof {
                    assert(!vstd::utf8::valid_first_scalar(rest));
                }
                return false;
            }
            let cp: u32 = (((b0 & 0x07) as u32) << 18) | (((b1 & 0x3f) as u32) << 12) | (((b2
                & 0x3f) as u32) << 6) | ((b3 & 0x3f) as u32);
            if cp < 0x10000 || cp > 0x10ffff {
                proof {
                    assert(!vstd::utf8::valid_first_scalar(rest));
                }
                return false;
            }
            proof {
                assert(vstd::utf8::valid_first_scalar(rest));
                assert(vstd::utf8::length_of_first_scalar(rest) == 4);
            }
            width = 4;
        } else {
            proof {
                assert(!vstd::utf8::valid_first_scalar(rest));
            }
            return false;
        }
        proof {
            assert(vstd::utf8::pop_first_scalar(rest) =~= bytes@.skip(i as int + width as int));
        }
        i += width;
    }
    proof {
        assert(bytes@.skip(n as int) =~= Seq::<u8>::empty());
    }
    true
}

} // verus!
