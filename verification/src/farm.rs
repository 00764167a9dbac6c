//! Number work for a farm of workers: a trial-division test, factoring, and
//! the queue that hands out the numbers.

use std::collections::VecDeque;
use vstd::arithmetic::div_mod::{lemma_fundamental_div_mod, lemma_mod_multiples_basic};
use vstd::prelude::*;

verus! {

/// Whether `p` is a prime number.
pub open spec fn prime(p: nat) -> bool {
    p >= 2 && forall|d: nat| 2 <= d < p ==> #[trigger] (p % d) != 0
}

/// Whether `num` is greater than 1 and no `f` from 2 up to, but not
/// including, the integer square root of `num` divides it. (`f` lies below
/// that root exactly if the square of `f + 1` is at most `num`.)
pub open spec fn passes_trial(num: nat) -> bool {
    num > 1 && forall|f: nat| 2 <= f && (f + 1) * (f + 1) <= num ==> #[trigger] (num % f) != 0
}

/// The product of the numbers in `s`.
pub open spec fn product(s: Seq<u32>) -> nat
    decreases s.len(),
{
    if s.len() == 0 {
        1
    } else {
        product(s.drop_last()) * (s.last() as nat)
    }
}

/// Whether `s` lists prime numbers in ascending order.
pub open spec fn ascending_primes(s: Seq<u32>) -> bool {
    &&& forall|i: int| 0 <= i < s.len() ==> prime(#[trigger] s[i] as nat)
    &&& forall|i: int, j: int| 0 <= i <= j < s.len() ==> s[i] <= s[j]
}

/// Every prime number passes the trial. Not every number that passes is
/// prime: the trial stops short of the square root, so 4, 6 and 9 pass too.
pub proof fn lemma_primes_pass(p: nat)
    requires
        prime(p),
    ensures
        passes_trial(p),
{
    assert forall|f: nat| 2 <= f && (f + 1) * (f + 1) <= p implies #[trigger] (p % f) != 0 by {
        assert(f < p) by (nonlinear_arith)
            requires
                2 <= f,
                (f + 1) * (f + 1) <= p,
        ;
    }
}

proof fn lemma_squares_grow(a: nat, b: nat)
    requires
        a <= b,
    ensures
        a * a <= b * b,
{
    assert(a * a <= b * b) by (nonlinear_arith)
        requires
            a <= b,
    ;
}

/// A divisor of a divisor divides.
proof fn lemma_divides_on(d: nat, f: nat, c: nat)
    requires
        d > 0,
        f > 0,
        f % d == 0,
        c % f == 0,
    ensures
        c % d == 0,
{
    lemma_fundamental_div_mod(f as int, d as int);
    lemma_fundamental_div_mod(c as int, f as int);
    let k = (f as int) / (d as int);
    let m = (c as int) / (f as int);
    assert(c == (k * m) * d) by (nonlinear_arith)
        requires
            f == d * k,
            c == f * m,
    ;
    lemma_mod_multiples_basic(k * m, d as int);
}

proof fn lemma_product_push(s: Seq<u32>, x: u32)
    ensures
        product(s.push(x)) == product(s) * (x as nat),
{
    assert(s.push(x).drop_last() =~= s);
}

proof fn lemma_product_at_least_two(s: Seq<u32>)
    requires
        s.len() > 0,
        forall|i: int| 0 <= i < s.len() ==> #[trigger] s[i] >= 2,
    ensures
        product(s) >= 2,
    decreases s.len(),
{
    let init = s.drop_last();
    if init.len() > 0 {
        lemma_product_at_least_two(init);
        assert(product(init) * (s.last() as nat) >= 2) by (nonlinear_arith)
            requires
                product(init) >= 2,
                s.last() >= 2,
        ;
    } else {
        assert(product(init) == 1);
    }
}

/// Tests `num` by trial division: whether it is greater than 1 and has no
/// divisor from 2 up to, but not including, its integer square root.
pub fn is_prime(num: u32) -> (b: bool)
    ensures
        b == passes_trial(num as nat),
{
    if num <= 1 {
        return false;
    }
    let n: u64 = num as u64;
    let mut factor: u64 = 2;
    let mut square: u64 = 9;
    while square <= n
        invariant
            2 <= factor <= 65536,
            square == (factor + 1) * (factor + 1),
            n == num,
            forall|f: nat| 2 <= f < factor ==> #[trigger] ((n as nat) % f) != 0,
        decreases 65536 - factor,
    {
        if n % factor == 0 {
            assert((n as nat) % (factor as nat) == 0);
            return false;
        }
        assert(factor + 1 <= 65535) by (nonlinear_arith)
            requires
                (factor + 1) * (factor + 1) <= n,
                n <= 0xffff_ffff,
        ;
        factor += 1;
        assert((factor + 1) * (factor + 1) <= 0x1_0000_0000) by (nonlinear_arith)
            requires
                factor <= 65535,
        ;
        square = (factor + 1) * (factor + 1);
    }
    proof {
        assert forall|f: nat| 2 <= f && (f + 1) * (f + 1) <= n as nat implies #[trigger] ((n as nat)
            % f) != 0 by {
            if f >= factor {
                lemma_squares_grow((factor + 1) as nat, f + 1);
            }
        }
    }
    true
}

/// Factors `num`. A number that is 1 or passes the trial of [`is_prime`]
/// stands for itself. Every other number from 2 on is split into its prime
/// factors, in ascending order and each as often as it divides; 0 has none.
pub fn factor_number(num: u32) -> (factors: Vec<u32>)
    ensures
        num == 1 || passes_trial(num as nat) ==> factors@ == seq![num],
        num >= 2 && !passes_trial(num as nat) ==> product(factors@) == num && ascending_primes(
            factors@,
        ),
        num == 0 ==> factors@.len() == 0,
{
    if num == 1 || is_prime(num) {
        let mut own: Vec<u32> = Vec::new();
        own.push(num);
        assert(own@ =~= seq![num]);
        return own;
    }
    let mut factors: Vec<u32> = Vec::new();
    if num < 2 {
        return factors;
    }
    let mut curr: u32 = num;
    let mut factor: u32 = 2;
    assert(product(factors@) == 1);
    while factor < num
        invariant
            2 <= factor <= num,
            1 <= curr <= num,
            curr * product(factors@) == num,
            forall|d: nat| 2 <= d < factor ==> #[trigger] ((curr as nat) % d) != 0,
            forall|i: int| 0 <= i < factors@.len() ==> prime(#[trigger] factors@[i] as nat),
            forall|i: int| 0 <= i < factors@.len() ==> #[trigger] factors@[i] < factor,
            forall|i: int, j: int| 0 <= i <= j < factors@.len() ==> factors@[i] <= factors@[j],
        decreases num - factor,
    {
        while curr % factor == 0
            invariant
                2 <= factor < num,
                1 <= curr <= num,
                curr * product(factors@) == num,
                forall|d: nat| 2 <= d < factor ==> #[trigger] ((curr as nat) % d) != 0,
                forall|i: int| 0 <= i < factors@.len() ==> prime(#[trigger] factors@[i] as nat),
                forall|i: int| 0 <= i < factors@.len() ==> #[trigger] factors@[i] <= factor,
                forall|i: int, j: int| 0 <= i <= j < factors@.len() ==> factors@[i] <= factors@[j],
            decreases curr,
        {
            let next: u32 = curr / factor;
            proof {
                let c = curr as nat;
                let f = factor as nat;
                let q = next as nat;
                lemma_fundamental_div_mod(c as int, f as int);
                assert(c == f * q);
                assert(q >= 1 && q < c) by (nonlinear_arith)
                    requires
                        c == f * q,
                        c >= 1,
                        f >= 2,
                ;
                assert forall|d: nat| 2 <= d < f implies #[trigger] (f % d) != 0 by {
                    if f % d == 0 {
                        lemma_divides_on(d, f, c);
                    }
                }
                assert(prime(f));
                assert(c % q == 0) by {
                    lemma_mod_multiples_basic(f as int, q as int);
                }
                assert forall|d: nat| 2 <= d < f implies #[trigger] (q % d) != 0 by {
                    if q % d == 0 {
                        lemma_divides_on(d, q, c);
                    }
                }
                lemma_product_push(factors@, factor);
                assert(q * (product(factors@) * f) == num) by (nonlinear_arith)
                    requires
                        c == f * q,
                        c * product(factors@) == num,
                ;
            }
            factors.push(factor);
            curr = next;
        }
        factor += 1;
    }
    proof {
        let c = curr as nat;
        let n = num as nat;
        if factors@.len() == 0 {
            assert(product(factors@) == 1);
            assert(c == n);
            let f = choose|f: nat| 2 <= f && (f + 1) * (f + 1) <= n && #[trigger] (n % f) == 0;
            assert(f < n) by (nonlinear_arith)
                requires
                    2 <= f,
                    (f + 1) * (f + 1) <= n,
            ;
            assert(false);
        }
        assert forall|i: int| 0 <= i < factors@.len() implies #[trigger] factors@[i] >= 2 by {
            assert(prime(factors@[i] as nat));
        }
        lemma_product_at_least_two(factors@);
        assert(c < n) by (nonlinear_arith)
            requires
                c * product(factors@) == n,
                product(factors@) >= 2,
                c >= 1,
        ;
        if c >= 2 {
            vstd::arithmetic::div_mod::lemma_mod_self_0(c as int);
            assert(c % c == 0);
            assert(false);
        }
        assert(c == 1);
        assert(product(factors@) == n) by (nonlinear_arith)
            requires
                c * product(factors@) == n,
                c == 1,
        ;
    }
    factors
}

/// Takes the next number off the queue: the one at its front, or `None`
/// from an empty queue.
pub fn get_a_number<T>(numbers: &mut VecDeque<T>) -> (next: Option<T>)
    ensures
        old(numbers)@.len() == 0 ==> next.is_none() && final(numbers)@ == old(numbers)@,
        old(numbers)@.len() > 0 ==> next == Some(old(numbers)@[0]) && final(numbers)@ == old(
            numbers,
        )@.drop_first(),
{
    numbers.pop_front()
}

} // verus!
