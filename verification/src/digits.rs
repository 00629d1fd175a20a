//! Base-ten decomposition of natural numbers, least significant digit first.

use vstd::prelude::*;

verus! {

/// The digits of `n` in base ten, index 0 being the ones place. The
/// sequence is as short as possible: zero is the single digit 0, and no
/// other number ends in a 0.
pub open spec fn digits_of(n: nat) -> Seq<u8>
    decreases n,
{
    if n < 10 {
        seq![n as u8]
    } else {
        seq![(n % 10) as u8] + digits_of(n / 10)
    }
}

/// The number that a digit sequence stands for: the sum of `d[i] * 10^i`.
pub open spec fn value_of(d: Seq<u8>) -> nat
    decreases d.len(),
{
    if d.len() == 0 {
        0
    } else {
        d[0] as nat + 10 * value_of(d.drop_first())
    }
}

/// Decomposing a number and summing the digits back up gives the number.
pub proof fn lemma_digits_round_trip(n: nat)
    ensures
        value_of(digits_of(n)) == n,
    decreases n,
{
    if n < 10 {
        let d = digits_of(n);
        assert(d.drop_first().len() == 0);
        assert(value_of(d.drop_first()) == 0);
    } else {
        let d = digits_of(n);
        lemma_digits_round_trip(n / 10);
        assert(d.drop_first() =~= digits_of(n / 10));
        assert(d[0] == (n % 10) as u8);
    }
}

/// Every digit of a decomposition is a decimal digit, the ones place is
/// the remainder by ten, and there is at least one digit.
pub proof fn lemma_digits_decimal(n: nat)
    ensures
        digits_of(n).len() >= 1,
        digits_of(n)[0] == n % 10,
        forall|i: int| 0 <= i < digits_of(n).len() ==> #[trigger] digits_of(n)[i] < 10,
    decreases n,
{
    if n >= 10 {
        lemma_digits_decimal(n / 10);
        let d = digits_of(n);
        let rest = digits_of(n / 10);
        assert forall|i: int| 0 <= i < d.len() implies #[trigger] d[i] < 10 by {
            if i > 0 {
                assert(d[i] == rest[i - 1]);
            }
        }
    }
}

/// A decomposition carries no padding: its most significant digit is
/// zero only for the number zero.
pub proof fn lemma_digits_minimal(n: nat)
    ensures
        digits_of(n).last() == 0 <==> n == 0,
        n < 10 <==> digits_of(n).len() == 1,
    decreases n,
{
    lemma_digits_decimal(n);
    if n >= 10 {
        lemma_digits_minimal(n / 10);
        lemma_digits_decimal(n / 10);
        let d = digits_of(n);
        let rest = digits_of(n / 10);
        assert(d.last() == rest.last());
    }
}

/// A larger number has at least as many digits.
pub proof fn lemma_digits_len_monotone(a: nat, b: nat)
    requires
        a <= b,
    ensures
        digits_of(a).len() <= digits_of(b).len(),
    decreases b,
{
    if a >= 10 {
        lemma_digits_len_monotone(a / 10, b / 10);
    }
}

/// The number of decimal digits needed to write `n`; zero takes one.
pub fn num_digits(n: usize) -> (count: usize)
    ensures
        count == digits_of(n as nat).len(),
        1 <= count <= 20,
{
    let mut rest: usize = n;
    let mut count: usize = 1;
    proof {
        reveal_with_fuel(pow10, 21);
        assert(pow10(20) == 100_000_000_000_000_000_000nat);
        lemma_digits_len_bound(n as nat, 20);
    }
    while rest >= 10
        invariant
            1 <= count,
            count - 1 + digits_of(rest as nat).len() == digits_of(n as nat).len(),
            digits_of(n as nat).len() <= 20,
        decreases rest,
    {
        proof {
            lemma_digits_decimal((rest / 10) as nat);
        }
        rest = rest / 10;
        count = count + 1;
    }
    count
}

/// Ten to the power `k`.
pub open spec fn pow10(k: nat) -> nat
    decreases k,
{
    if k == 0 {
        1
    } else {
        10 * pow10((k - 1) as nat)
    }
}

/// A number below `10^k`, with `k` at least one, has at most `k` digits.
pub proof fn lemma_digits_len_bound(n: nat, k: nat)
    requires
        k >= 1,
        n < pow10(k),
    ensures
        digits_of(n).len() <= k,
    decreases k,
{
    if n >= 10 {
        if k == 1 {
            assert(pow10(1) == 10 * pow10(0));
        } else {
            lemma_digits_len_bound(n / 10, (k - 1) as nat);
        }
    }
}

} // verus!
