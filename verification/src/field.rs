//! A fixed prime field: the ground type of the language.
//!
//! Elements are canonical representatives below the modulus. Arithmetic
//! wraps modulo the prime; division multiplies by the Fermat inverse, so it
//! is total (division by zero yields zero). Comparisons order elements by
//! their integer representatives.

use vstd::arithmetic::div_mod::{
    lemma_mod_multiples_vanish, lemma_mul_mod_noop_general, lemma_small_mod,
};
use vstd::arithmetic::mul::lemma_mul_upper_bound;
use vstd::calc;
use vstd::prelude::*;

verus! {

/// The field modulus, a prime small enough that the product of two
/// canonical representatives fits in a `u128`.
pub const FIELD_PRIME: u64 = 2305843009213693951;

/// The modulus as a mathematical integer.
pub open spec fn field_prime() -> nat {
    FIELD_PRIME as nat
}

/// Field addition on representatives.
pub open spec fn f_add(a: nat, b: nat) -> nat {
    (a + b) % field_prime()
}

/// Field subtraction on representatives below the modulus.
pub open spec fn f_sub(a: nat, b: nat) -> nat {
    ((a + field_prime() - b) % (field_prime() as int)) as nat
}

/// Field multiplication on representatives.
pub open spec fn f_mul(a: nat, b: nat) -> nat {
    (a * b) % field_prime()
}

/// Field exponentiation: repeated field multiplication, `e` times.
pub open spec fn f_pow(b: nat, e: nat) -> nat
    decreases e,
{
    if e == 0 {
        1
    } else {
        f_mul(b, f_pow(b, (e - 1) as nat))
    }
}

/// The multiplicative inverse by Fermat's little theorem; zero maps to zero.
pub open spec fn f_inv(a: nat) -> nat {
    f_pow(a, (FIELD_PRIME - 2) as nat)
}

/// Field division: multiplication by the Fermat inverse.
pub open spec fn f_div(a: nat, b: nat) -> nat {
    f_mul(a, f_inv(b))
}

/// An element of the prime field, kept as its canonical representative.
#[derive(Clone, Copy, Debug, PartialEq, Eq, Structural)]
pub struct FieldElement {
    value: u64,
}

impl View for FieldElement {
    type V = nat;

    closed spec fn view(&self) -> nat {
        self.value as nat
    }
}

#[verifier::type_invariant]
spec fn field_element_inv(f: FieldElement) -> bool {
    f.value < FIELD_PRIME
}

proof fn lemma_mod_in_range(x: nat)
    requires
        x < 2 * field_prime(),
    ensures
        x % field_prime() == if x < field_prime() {
            x as int
        } else {
            x - field_prime()
        },
{
    if x < field_prime() {
        lemma_small_mod(x, field_prime());
    } else {
        lemma_mod_multiples_vanish(1, x - field_prime(), FIELD_PRIME as int);
        lemma_small_mod((x - field_prime()) as nat, field_prime());
    }
}

impl FieldElement {
    /// The canonical representative, reduced from an arbitrary machine word.
    pub fn from_u64(n: u64) -> (r: FieldElement)
        ensures
            r@ == n as nat % field_prime(),
    {
        FieldElement { value: n % FIELD_PRIME }
    }

    /// The canonical representative as a machine word.
    pub fn value(&self) -> (r: u64)
        ensures
            r as nat == self@,
    {
        self.value
    }

    /// Field addition.
    pub fn add(&self, other: &FieldElement) -> (r: FieldElement)
        ensures
            r@ == f_add(self@, other@),
    {
        proof {
            use_type_invariant(*self);
            use_type_invariant(*other);
            lemma_mod_in_range((self.value + other.value) as nat);
        }
        let s = self.value + other.value;
        if s >= FIELD_PRIME {
            FieldElement { value: s - FIELD_PRIME }
        } else {
            FieldElement { value: s }
        }
    }

    /// Field subtraction.
    pub fn sub(&self, other: &FieldElement) -> (r: FieldElement)
        ensures
            r@ == f_sub(self@, other@),
    {
        proof {
            use_type_invariant(*self);
            use_type_invariant(*other);
            lemma_mod_in_range((self.value + FIELD_PRIME - other.value) as nat);
        }
        let s = self.value + (FIELD_PRIME - other.value);
        if s >= FIELD_PRIME {
            FieldElement { value: s - FIELD_PRIME }
        } else {
            FieldElement { value: s }
        }
    }

    /// Field multiplication.
    pub fn mul(&self, other: &FieldElement) -> (r: FieldElement)
        ensures
            r@ == f_mul(self@, other@),
    {
        proof {
            use_type_invariant(*self);
            use_type_invariant(*other);
            lemma_mul_upper_bound(
                self.value as int,
                (FIELD_PRIME - 1) as int,
                other.value as int,
                (FIELD_PRIME - 1) as int,
            );
            assert(((FIELD_PRIME - 1) as int) * ((FIELD_PRIME - 1) as int) < (u128::MAX as int))
                by (nonlinear_arith);
        }
        let p = (self.value as u128) * (other.value as u128);
        let r = p % (FIELD_PRIME as u128);
        FieldElement { value: r as u64 }
    }

    /// Field exponentiation by square and multiply. The exponent is the
    /// integer representative of a field element.
    pub fn pow(&self, exponent: &FieldElement) -> (r: FieldElement)
        ensures
            r@ == f_pow(self@, exponent@),
    {
        proof {
            use_type_invariant(*self);
        }
        let mut base = *self;
        let mut exp: u64 = exponent.value();
        let mut acc = FieldElement { value: 1 };
        proof {
            lemma_f_mul_one_left(f_pow(base@, exp as nat));
            lemma_f_pow_below_prime(base@, exp as nat);
        }
        while exp > 0
            invariant
                field_element_inv(base),
                field_element_inv(acc),
                f_mul(acc@, f_pow(base@, exp as nat)) == f_pow(self@, exponent@),
            decreases exp,
        {
            proof {
                use_type_invariant(base);
                use_type_invariant(acc);
                lemma_f_pow_split(acc@, base@, exp as nat);
            }
            if exp % 2 == 1 {
                acc = acc.mul(&base);
            }
            base = base.mul(&base);
            exp = exp / 2;
        }
        proof {
            use_type_invariant(acc);
            lemma_small_mod(acc@, field_prime());
            assert(f_mul(acc@, 1) == acc@);
        }
        acc
    }

    /// The multiplicative inverse by Fermat's little theorem; zero maps to
    /// zero.
    pub fn inverse(&self) -> (r: FieldElement)
        ensures
            r@ == f_inv(self@),
    {
        self.pow(&FieldElement { value: FIELD_PRIME - 2 })
    }

    /// Field division: multiplication by the inverse of the divisor.
    pub fn div(&self, other: &FieldElement) -> (r: FieldElement)
        ensures
            r@ == f_div(self@, other@),
    {
        self.mul(&other.inverse())
    }

    /// Whether this representative is strictly below the other.
    pub fn lt(&self, other: &FieldElement) -> (r: bool)
        ensures
            r == (self@ < other@),
    {
        self.value < other.value
    }

    /// Whether this representative is at most the other.
    pub fn le(&self, other: &FieldElement) -> (r: bool)
        ensures
            r == (self@ <= other@),
    {
        self.value <= other.value
    }

    /// Whether the two elements are equal.
    pub fn eq_value(&self, other: &FieldElement) -> (r: bool)
        ensures
            r == (self@ == other@),
    {
        self.value == other.value
    }
}

/// Multiplying by one on the left is the identity on representatives
/// below the modulus.
proof fn lemma_f_mul_one_left(a: nat)
    requires
        a < field_prime(),
    ensures
        f_mul(1, a) == a,
{
    lemma_small_mod(a, field_prime());
}

/// A power of a representative is again a representative.
proof fn lemma_f_pow_below_prime(b: nat, e: nat)
    ensures
        f_pow(b, e) < field_prime(),
    decreases e,
{
    if e == 0 {
    } else {
        lemma_f_pow_below_prime(b, (e - 1) as nat);
    }
}

/// `f_mul` ignores reduction of either argument.
proof fn lemma_f_mul_noop(a: nat, b: nat)
    ensures
        f_mul(a % field_prime(), b) == f_mul(a, b),
        f_mul(a, b % field_prime()) == f_mul(a, b),
{
    lemma_mul_mod_noop_general(a as int, b as int, FIELD_PRIME as int);
}

/// `f_mul` is associative.
proof fn lemma_f_mul_assoc(a: nat, b: nat, c: nat)
    ensures
        f_mul(f_mul(a, b), c) == f_mul(a, f_mul(b, c)),
{
    lemma_f_mul_noop(a * b, c);
    lemma_f_mul_noop(a, b * c);
    assert((a * b) * c == a * (b * c)) by (nonlinear_arith);
}

/// Splitting one step of square-and-multiply: an even exponent squares the
/// base, an odd one also multiplies the accumulator.
proof fn lemma_f_pow_split(acc: nat, b: nat, e: nat)
    requires
        e > 0,
    ensures
        e % 2 == 1 ==> f_mul(f_mul(acc, b), f_pow(f_mul(b, b), (e / 2) as nat)) == f_mul(
            acc,
            f_pow(b, e),
        ),
        e % 2 == 0 ==> f_mul(acc, f_pow(f_mul(b, b), (e / 2) as nat)) == f_mul(acc, f_pow(b, e)),
{
    lemma_f_pow_halve(b, e);
    if e % 2 == 1 {
        calc! {
            (==)
            f_mul(f_mul(acc, b), f_pow(f_mul(b, b), (e / 2) as nat)); {
                lemma_f_mul_assoc(acc, b, f_pow(f_mul(b, b), (e / 2) as nat));
            }
            f_mul(acc, f_mul(b, f_pow(f_mul(b, b), (e / 2) as nat))); {}
            f_mul(acc, f_pow(b, e));
        }
    }
}

/// A squared base halves the exponent.
proof fn lemma_f_pow_halve(b: nat, e: nat)
    requires
        e > 0,
    ensures
        e % 2 == 1 ==> f_mul(b, f_pow(f_mul(b, b), (e / 2) as nat)) == f_pow(b, e),
        e % 2 == 0 ==> f_pow(f_mul(b, b), (e / 2) as nat) == f_pow(b, e),
    decreases e,
{
    if e == 1 {
        assert(f_pow(f_mul(b, b), 0) == 1);
        lemma_f_pow_below_prime(b, 1);
        lemma_f_mul_one_right(b);
    } else if e == 2 {
        assert(f_pow(f_mul(b, b), 1) == f_mul(f_mul(b, b), f_pow(f_mul(b, b), 0)));
        lemma_f_mul_one_right(f_mul(b, b));
        lemma_small_mod(f_mul(b, b), field_prime());
        assert(f_pow(b, 0) == 1);
        assert(f_pow(b, 1) == f_mul(b, 1));
        assert(f_pow(b, 2) == f_mul(b, f_mul(b, 1)));
        lemma_f_mul_one_right(b);
        lemma_f_mul_noop(b, b);
    } else {
        lemma_f_pow_halve(b, (e - 2) as nat);
        assert(f_pow(b, (e - 1) as nat) == f_mul(b, f_pow(b, (e - 2) as nat)));
        assert(f_pow(b, e) == f_mul(b, f_mul(b, f_pow(b, (e - 2) as nat))));
        let k = ((e - 2) / 2) as nat;
        vstd::arithmetic::div_mod::lemma_div_plus_one((e - 2) as int, 2);
        assert((e / 2) as nat == k + 1);
        vstd::arithmetic::div_mod::lemma_mod_sub_multiples_vanish(e as int, 2);
        assert(e % 2 == (e - 2) % 2);
        assert(f_pow(f_mul(b, b), k + 1) == f_mul(f_mul(b, b), f_pow(f_mul(b, b), k)));
        if e % 2 == 1 {
            calc! {
                (==)
                f_mul(b, f_pow(f_mul(b, b), k + 1)); {}
                f_mul(b, f_mul(f_mul(b, b), f_pow(f_mul(b, b), k))); {
                    lemma_f_mul_assoc(b, f_mul(b, b), f_pow(f_mul(b, b), k));
                    lemma_f_mul_assoc(f_mul(b, b), b, f_pow(f_mul(b, b), k));
                    lemma_f_mul_comm(b, f_mul(b, b));
                }
                f_mul(f_mul(b, b), f_mul(b, f_pow(f_mul(b, b), k))); {}
                f_mul(f_mul(b, b), f_pow(b, (e - 2) as nat)); {
                    lemma_f_mul_assoc(b, b, f_pow(b, (e - 2) as nat));
                }
                f_mul(b, f_mul(b, f_pow(b, (e - 2) as nat))); {}
                f_pow(b, e);
            }
        } else {
            calc! {
                (==)
                f_pow(f_mul(b, b), k + 1); {}
                f_mul(f_mul(b, b), f_pow(f_mul(b, b), k)); {}
                f_mul(f_mul(b, b), f_pow(b, (e - 2) as nat)); {
                    lemma_f_mul_assoc(b, b, f_pow(b, (e - 2) as nat));
                }
                f_mul(b, f_mul(b, f_pow(b, (e - 2) as nat))); {}
                f_pow(b, e);
            }
        }
    }
}

/// Multiplying by one on the right reduces the argument.
proof fn lemma_f_mul_one_right(a: nat)
    ensures
        f_mul(a, 1) == a % field_prime(),
{
}

/// `f_mul` is commutative.
proof fn lemma_f_mul_comm(a: nat, b: nat)
    ensures
        f_mul(a, b) == f_mul(b, a),
{
    assert(a * b == b * a) by (nonlinear_arith);
}

} // verus!
