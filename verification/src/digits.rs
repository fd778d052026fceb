//! Positional digit strings: the numeric value of a digit sequence in a
//! given base, and the digit expansion of a number.  These back the wire
//! codec (base 256), the hexadecimal id text (base 16) and decimal parsing
//! (base 10).

use vstd::prelude::*;
use vstd::arithmetic::power::pow;
use vstd::arithmetic::power::lemma_pow_increases;
use vstd::arithmetic::div_mod::lemma_breakdown;

verus! {

/// Numeric value of a digit string read in `base`, most significant digit
/// first.  An empty string has value 0.
pub open spec fn radix_val(digits: Seq<u8>, base: int) -> int
    decreases digits.len(),
{
    if digits.len() == 0 {
        0
    } else {
        radix_val(digits.drop_last(), base) * base + digits.last()
    }
}

/// The `n` low-order digits of `v` in `base`, most significant first.
pub open spec fn digits_of(v: int, base: int, n: nat) -> Seq<u8>
    recommends
        0 <= v,
        2 <= base <= 256,
    decreases n,
{
    if n == 0 {
        Seq::empty()
    } else {
        digits_of(v / base, base, (n - 1) as nat).push((v % base) as u8)
    }
}

/// True when every digit of the string is below `base`.
pub open spec fn digits_in_range(digits: Seq<u8>, base: int) -> bool {
    forall|i: int| 0 <= i < digits.len() ==> digits[i] < base
}

/// A digit string in range denotes a value in `[0, base^len)`.
pub proof fn lemma_radix_val_bound(digits: Seq<u8>, base: int)
    requires
        2 <= base,
        digits_in_range(digits, base),
    ensures
        0 <= radix_val(digits, base) < pow(base, digits.len() as nat),
    decreases digits.len(),
{
    if digits.len() == 0 {
        vstd::arithmetic::power::lemma_pow0(base);
    } else {
        let head = digits.drop_last();
        assert forall|i: int| 0 <= i < head.len() implies head[i] < base by {
            assert(head[i] == digits[i]);
        }
        lemma_radix_val_bound(head, base);
        vstd::arithmetic::power::lemma_pow1(base);
        vstd::arithmetic::power::lemma_pow_adds(base, 1, (digits.len() - 1) as nat);
        let p = pow(base, (digits.len() - 1) as nat);
        assert(pow(base, digits.len() as nat) == base * p);
        assert(digits.last() == digits[digits.len() - 1]);
        assert(digits.last() < base);
        assert(radix_val(head, base) * base <= (p - 1) * base) by (nonlinear_arith)
            requires
                radix_val(head, base) <= p - 1,
                base >= 2,
                radix_val(head, base) >= 0,
        ;
        assert(radix_val(digits, base) == radix_val(head, base) * base + digits.last());
        assert((p - 1) * base == p * base - base) by (nonlinear_arith);
    }
}

/// The digit expansion has the requested length and its digits are in range.
pub proof fn lemma_digits_of_in_range(v: int, base: int, n: nat)
    requires
        0 <= v,
        2 <= base <= 256,
    ensures
        digits_of(v, base, n).len() == n,
        digits_in_range(digits_of(v, base, n), base),
    decreases n,
{
    if n != 0 {
        vstd::arithmetic::div_mod::lemma_div_pos_is_pos(v, base);
        lemma_digits_of_in_range(v / base, base, (n - 1) as nat);
        let s = digits_of(v / base, base, (n - 1) as nat);
        let whole = s.push((v % base) as u8);
        assert(0 <= v % base < base);
        assert forall|i: int| 0 <= i < whole.len() implies whole[i] < base by {
            if i < s.len() {
                assert(whole[i] == s[i]);
            } else {
                assert(whole[i] == (v % base) as u8);
            }
        }
    }
}

/// Reading back the digit expansion of `v` recovers `v` modulo `base^n`.
pub proof fn lemma_radix_roundtrip(v: int, base: int, n: nat)
    requires
        0 <= v,
        2 <= base <= 256,
    ensures
        radix_val(digits_of(v, base, n), base) == v % pow(base, n),
    decreases n,
{
    if n == 0 {
        vstd::arithmetic::power::lemma_pow0(base);
        assert(v % 1 == 0) by (nonlinear_arith);
    } else {
        vstd::arithmetic::div_mod::lemma_div_pos_is_pos(v, base);
        lemma_radix_roundtrip(v / base, base, (n - 1) as nat);
        let s = digits_of(v / base, base, (n - 1) as nat);
        let whole = s.push((v % base) as u8);
        assert(whole.drop_last() =~= s);
        assert(whole.last() == (v % base) as u8);
        vstd::arithmetic::power::lemma_pow_positive(base, (n - 1) as nat);
        lemma_breakdown(v, base, pow(base, (n - 1) as nat));
        vstd::arithmetic::power::lemma_pow1(base);
        vstd::arithmetic::power::lemma_pow_adds(base, 1, (n - 1) as nat);
        assert(pow(base, n) == base * pow(base, (n - 1) as nat));
        assert(radix_val(whole, base) == radix_val(s, base) * base + v % base);
        assert(((v / base) % pow(base, (n - 1) as nat)) * base == base * ((v / base) % pow(
            base,
            (n - 1) as nat,
        ))) by (nonlinear_arith);
    }
}

/// `256^4` is `2^32`.
pub proof fn lemma_pow_256_4()
    ensures
        pow(256, 4) == 0x1_0000_0000,
{
    vstd::arithmetic::power::lemma_pow1(256);
    vstd::arithmetic::power::lemma_pow_adds(256, 1, 1);
    assert(pow(256, 2) == 0x10000);
    vstd::arithmetic::power::lemma_pow_adds(256, 2, 2);
    assert(pow(256, 4) == 0x10000 * 0x10000);
}

/// `256^16` is `2^128`.
pub proof fn lemma_pow_256_16()
    ensures
        pow(256, 16) == 0x1_0000_0000_0000_0000_0000_0000_0000_0000,
{
    lemma_pow_256_4();
    vstd::arithmetic::power::lemma_pow_adds(256, 4, 4);
    assert(pow(256, 8) == 0x1_0000_0000 * 0x1_0000_0000);
    vstd::arithmetic::power::lemma_pow_adds(256, 8, 8);
    assert(pow(256, 16) == 0x1_0000_0000_0000_0000 * 0x1_0000_0000_0000_0000);
}

/// `16^32` is `2^128`.
pub proof fn lemma_pow_16_32()
    ensures
        pow(16, 32) == 0x1_0000_0000_0000_0000_0000_0000_0000_0000,
{
    vstd::arithmetic::power::lemma_pow1(16);
    vstd::arithmetic::power::lemma_pow_adds(16, 1, 1);
    assert(pow(16, 2) == 0x100);
    vstd::arithmetic::power::lemma_pow_adds(16, 2, 2);
    assert(pow(16, 4) == 0x10000);
    vstd::arithmetic::power::lemma_pow_adds(16, 4, 4);
    assert(pow(16, 8) == 0x10000 * 0x10000);
    vstd::arithmetic::power::lemma_pow_adds(16, 8, 8);
    assert(pow(16, 16) == 0x1_0000_0000 * 0x1_0000_0000);
    vstd::arithmetic::power::lemma_pow_adds(16, 16, 16);
    assert(pow(16, 32) == 0x1_0000_0000_0000_0000 * 0x1_0000_0000_0000_0000);
}

/// A digit string denotes a nonnegative value.
pub proof fn lemma_radix_val_nonneg(digits: Seq<u8>, base: int)
    requires
        1 <= base,
    ensures
        0 <= radix_val(digits, base),
    decreases digits.len(),
{
    if digits.len() > 0 {
        lemma_radix_val_nonneg(digits.drop_last(), base);
        assert(radix_val(digits.drop_last(), base) * base >= 0) by (nonlinear_arith)
            requires
                radix_val(digits.drop_last(), base) >= 0,
                base >= 1,
        ;
    }
}

/// A prefix never denotes more than the whole string.
pub proof fn lemma_radix_val_prefix(digits: Seq<u8>, k: int, base: int)
    requires
        1 <= base,
        0 <= k <= digits.len(),
    ensures
        radix_val(digits.take(k), base) <= radix_val(digits, base),
    decreases digits.len(),
{
    if k == digits.len() {
        assert(digits.take(k) =~= digits);
    } else {
        let head = digits.drop_last();
        assert(digits.take(k) =~= head.take(k));
        lemma_radix_val_prefix(head, k, base);
        lemma_radix_val_nonneg(head, base);
        assert(radix_val(head, base) <= radix_val(head, base) * base) by (nonlinear_arith)
            requires
                radix_val(head, base) >= 0,
                base >= 1,
        ;
    }
}

/// Extending a prefix by one digit steps the value by one base multiply.
proof fn lemma_take_step(s: Seq<u8>, i: int, base: int)
    requires
        0 <= i < s.len(),
    ensures
        radix_val(s.take(i + 1), base) == radix_val(s.take(i), base) * base + s[i],
{
    assert(s.take(i + 1).drop_last() =~= s.take(i));
    assert(s.take(i + 1).last() == s[i]);
}

/// Reads a digit string in `base` as a `u128`, most significant digit first.
/// The caller guarantees that the value fits.
pub fn radix_u128(digits: &[u8], base: u16) -> (r: u128)
    requires
        2 <= base,
        digits_in_range(digits@, base as int),
        pow(base as int, digits@.len() as nat) <= u128::MAX as int + 1,
    ensures
        r as int == radix_val(digits@, base as int),
{
    let ghost b = base as int;
    let mut acc: u128 = 0;
    let n = digits.len();
    for i in 0..n
        invariant
            n == digits@.len(),
            2 <= base,
            digits_in_range(digits@, b),
            b == base as int,
            pow(b, n as nat) <= u128::MAX as int + 1,
            acc as int == radix_val(digits@.take(i as int), b),
    {
        proof {
            lemma_take_step(digits@, i as int, b);
            assert(digits_in_range(digits@.take(i + 1), b));
            lemma_radix_val_bound(digits@.take(i + 1), b);
            lemma_pow_increases(base as nat, (i + 1) as nat, n as nat);
            assert(radix_val(digits@.take(i + 1), b) <= u128::MAX as int);
        }
        acc = acc * (base as u128) + (digits[i] as u128);
    }
    proof {
        assert(digits@.take(n as int) =~= digits@);
    }
    acc
}

} // verus!
