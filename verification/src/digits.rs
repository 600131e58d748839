//! Positional notation: the value of a digit sequence and the digits of a
//! value, in any base up to 256.

use vstd::prelude::*;
use vstd::arithmetic::div_mod::lemma_fundamental_div_mod_converse;

verus! {

/// `b` to the power `e`.
pub open spec fn power(b: nat, e: nat) -> nat
    decreases e,
{
    if e == 0 {
        1
    } else {
        b * power(b, (e - 1) as nat)
    }
}

/// The value of the big-endian digit sequence `s` in base `base`.
pub open spec fn value_of(s: Seq<u8>, base: nat) -> nat
    decreases s.len(),
{
    if s.len() == 0 {
        0
    } else {
        value_of(s.drop_last(), base) * base + (s.last() as nat)
    }
}

/// The `m` lowest big-endian digits of `v` in base `base`.
pub open spec fn digits_of(v: nat, base: nat, m: nat) -> Seq<u8>
    decreases m,
{
    if m == 0 {
        seq![]
    } else {
        digits_of(v / base, base, (m - 1) as nat).push((v % base) as u8)
    }
}

/// Every element of `s` is a digit of base `base`.
pub open spec fn all_below(s: Seq<u8>, base: nat) -> bool {
    forall|i: int| 0 <= i < s.len() ==> #[trigger] s[i] < base
}

/// Appending a digit multiplies the value by the base and adds the digit.
pub proof fn lemma_value_push(s: Seq<u8>, x: u8, base: nat)
    ensures
        value_of(s.push(x), base) == value_of(s, base) * base + x,
{
    assert(s.push(x).drop_last() == s);
}

/// A power of a positive base is positive.
pub proof fn lemma_power_positive(b: nat, e: nat)
    requires
        b > 0,
    ensures
        power(b, e) > 0,
    decreases e,
{
    if e > 0 {
        lemma_power_positive(b, (e - 1) as nat);
        assert(b * power(b, (e - 1) as nat) > 0) by (nonlinear_arith)
            requires
                b > 0,
                power(b, (e - 1) as nat) > 0,
        ;
    }
}

/// `b^(e1 + e2) == b^e1 * b^e2`.
pub proof fn lemma_power_adds(b: nat, e1: nat, e2: nat)
    ensures
        power(b, e1 + e2) == power(b, e1) * power(b, e2),
    decreases e1,
{
    if e1 == 0 {
        assert(e1 + e2 == e2);
        assert(power(b, e1) == 1);
        assert(power(b, e1) * power(b, e2) == power(b, e2));
    } else {
        assert(power(b, e1) == b * power(b, (e1 - 1) as nat));
        lemma_power_adds(b, (e1 - 1) as nat, e2);
        assert((e1 - 1) as nat + e2 == (e1 + e2 - 1) as nat);
        assert(power(b, e1 + e2) == b * power(b, (e1 + e2 - 1) as nat));
        assert(b * (power(b, (e1 - 1) as nat) * power(b, e2)) == (b * power(b, (e1 - 1) as nat))
            * power(b, e2)) by (nonlinear_arith);
    }
}

/// The digits of a sequence's value are the sequence itself.
pub proof fn lemma_digits_of_value(s: Seq<u8>, base: nat)
    requires
        2 <= base <= 256,
        all_below(s, base),
    ensures
        digits_of(value_of(s, base), base, s.len()) == s,
    decreases s.len(),
{
    if s.len() > 0 {
        let init = s.drop_last();
        assert(all_below(init, base));
        lemma_digits_of_value(init, base);
        let v = value_of(s, base);
        lemma_fundamental_div_mod_converse(v as int, base as int, value_of(init, base) as int, s.last() as int);
        assert(digits_of(v, base, s.len()) == init.push(s.last()));
        assert(init.push(s.last()) == s);
    }
}

/// The digits of a value are digits of the base, and there are as many as asked.
pub proof fn lemma_digits_shape(v: nat, base: nat, m: nat)
    requires
        2 <= base <= 256,
    ensures
        digits_of(v, base, m).len() == m,
        all_below(digits_of(v, base, m), base),
    decreases m,
{
    if m > 0 {
        lemma_digits_shape(v / base, base, (m - 1) as nat);
        let d = digits_of(v / base, base, (m - 1) as nat);
        assert forall|i: int| 0 <= i < m implies #[trigger] digits_of(v, base, m)[i] < base by {
            if i < m - 1 {
                assert(digits_of(v, base, m)[i] == d[i]);
            }
        }
    }
}

/// A value with at most `m` digits is the value of its `m` digits.
pub proof fn lemma_value_of_digits(v: nat, base: nat, m: nat)
    requires
        2 <= base <= 256,
        v < power(base, m),
    ensures
        value_of(digits_of(v, base, m), base) == v,
    decreases m,
{
    if m > 0 {
        let p = power(base, (m - 1) as nat);
        assert(v / base < p) by (nonlinear_arith)
            requires
                v < base * p,
                base >= 2,
        ;
        lemma_value_of_digits(v / base, base, (m - 1) as nat);
        lemma_value_push(digits_of(v / base, base, (m - 1) as nat), (v % base) as u8, base);
        assert(v == (v / base) * base + v % base) by (nonlinear_arith)
            requires
                base >= 2,
        ;
    }
}

/// The value of `m` digits of base `base` is below `base^m`.
pub proof fn lemma_value_bound(s: Seq<u8>, base: nat)
    requires
        all_below(s, base),
    ensures
        value_of(s, base) < power(base, s.len()),
    decreases s.len(),
{
    if s.len() > 0 {
        let init = s.drop_last();
        assert(all_below(init, base));
        lemma_value_bound(init, base);
        let a = value_of(init, base);
        let p = power(base, init.len());
        let x = s.last() as nat;
        assert(a * base + x < base * p) by (nonlinear_arith)
            requires
                a < p,
                x < base,
        ;
    }
}

} // verus!
