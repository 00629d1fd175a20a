//! The digit-diff counter: a number that, each time it is advanced by one,
//! reports the digit slots whose displayed value changed.

use vstd::prelude::*;
use crate::digits::{digits_of, lemma_digits_decimal, lemma_digits_len_monotone};
use crate::error::CoreError;

verus! {

/// One digit to redraw: its new value and the horizontal position of its
/// slot on the canvas.
#[derive(Clone, Copy, Debug, PartialEq, Eq, Structural)]
pub struct Number {
    pub number: u8,
    pub position: usize,
}

/// The counter. `positions[i]` is the left edge of slot `i`, slot 0 being
/// the ones place; `digits` is the decomposition of `current`.
pub struct Count {
    pub positions: Vec<usize>,
    pub current: usize,
    pub digits: Vec<u8>,
}

/// Whether slot `i` shows something new when the display goes from the
/// digits `prev` to the digits `next`: the slot did not exist before, or
/// its digit differs.
pub open spec fn slot_changed(prev: Seq<u8>, next: Seq<u8>, i: int) -> bool {
    i >= prev.len() || prev[i] != next[i]
}

/// `slot_changed` as a predicate on slot indices.
pub open spec fn changed_pred(prev: Seq<u8>, next: Seq<u8>) -> spec_fn(int) -> bool {
    |i: int| slot_changed(prev, next, i)
}

/// The slot indices `0, 1, .., k - 1`.
pub open spec fn slot_indices(k: nat) -> Seq<int> {
    Seq::new(k, |i: int| i)
}

/// The changed slots among the first `k`, in ascending order.
pub open spec fn changed_upto(prev: Seq<u8>, next: Seq<u8>, k: nat) -> Seq<int> {
    slot_indices(k).filter(changed_pred(prev, next))
}

/// The slots to redraw when the display goes from `prev` to `next`, in
/// ascending order.
pub open spec fn changed_slots(prev: Seq<u8>, next: Seq<u8>) -> Seq<int> {
    changed_upto(prev, next, next.len())
}

/// The redraw order for slot `i` of the digits `next`.
pub open spec fn event_at(next: Seq<u8>, positions: Seq<usize>, i: int) -> Number {
    Number { number: next[i], position: positions[i] }
}

/// The events of one step: one per changed slot, in ascending slot order,
/// each with the slot's new digit and position.
pub open spec fn step_events(prev: Seq<u8>, next: Seq<u8>, positions: Seq<usize>) -> Seq<Number> {
    changed_slots(prev, next).map_values(event_fn(next, positions))
}

/// `event_at` as a function of the slot index.
pub open spec fn event_fn(next: Seq<u8>, positions: Seq<usize>) -> spec_fn(int) -> Number {
    |i: int| event_at(next, positions, i)
}

/// Taking one more slot into account appends it if it changed.
pub proof fn lemma_changed_upto_step(prev: Seq<u8>, next: Seq<u8>, k: nat)
    ensures
        changed_upto(prev, next, 0) == Seq::<int>::empty(),
        changed_upto(prev, next, k + 1) == if slot_changed(prev, next, k as int) {
            changed_upto(prev, next, k).push(k as int)
        } else {
            changed_upto(prev, next, k)
        },
{
    reveal(Seq::filter);
    assert(slot_indices(k + 1).drop_last() =~= slot_indices(k));
    assert(slot_indices(k + 1).last() == k as int);
    assert(slot_indices(0).filter(changed_pred(prev, next)) =~= Seq::<int>::empty());
}

/// What `changed_upto` holds: exactly the changed slots below `k`, each
/// once, in strictly ascending order; so never more than `k` of them.
pub proof fn lemma_changed_upto_exact(prev: Seq<u8>, next: Seq<u8>, k: nat)
    ensures
        changed_upto(prev, next, k).len() <= k,
        forall|j: int|
            0 <= j < changed_upto(prev, next, k).len() ==> {
                let slot = #[trigger] changed_upto(prev, next, k)[j];
                0 <= slot < k && slot_changed(prev, next, slot)
            },
        forall|slot: int|
            0 <= slot < k && slot_changed(prev, next, slot) ==> #[trigger] changed_upto(
                prev,
                next,
                k,
            ).contains(slot),
        forall|a: int, b: int|
            0 <= a < b < changed_upto(prev, next, k).len() ==> changed_upto(prev, next, k)[a]
                < changed_upto(prev, next, k)[b],
    decreases k,
{
    lemma_changed_upto_step(prev, next, 0);
    if k > 0 {
        let before = changed_upto(prev, next, (k - 1) as nat);
        let now = changed_upto(prev, next, k);
        lemma_changed_upto_exact(prev, next, (k - 1) as nat);
        lemma_changed_upto_step(prev, next, (k - 1) as nat);
        assert forall|slot: int| 0 <= slot < k && slot_changed(prev, next, slot) implies now.contains(
            slot,
        ) by {
            if slot < k - 1 {
                assert(before.contains(slot));
                let j = choose|j: int| 0 <= j < before.len() && before[j] == slot;
                assert(now[j] == slot);
            } else {
                assert(now[now.len() - 1] == slot);
            }
        }
    }
}

/// A slot that a step does not report shows the same digit before and
/// after it, so redrawing the reported slots alone keeps the display
/// right.
pub proof fn lemma_unreported_slots_keep_their_digit(prev: Seq<u8>, next: Seq<u8>, slot: int)
    requires
        0 <= slot < next.len(),
        !changed_slots(prev, next).contains(slot),
    ensures
        slot < prev.len(),
        prev[slot] == next[slot],
{
    lemma_changed_upto_exact(prev, next, next.len());
}

/// When the ones place changed, it is the first slot reported.
pub proof fn lemma_ones_place_first(prev: Seq<u8>, next: Seq<u8>, k: nat)
    requires
        k >= 1,
        slot_changed(prev, next, 0),
    ensures
        changed_upto(prev, next, k).len() >= 1,
        changed_upto(prev, next, k)[0] == 0,
    decreases k,
{
    lemma_changed_upto_step(prev, next, (k - 1) as nat);
    if k > 1 {
        lemma_ones_place_first(prev, next, (k - 1) as nat);
    }
}

/// Adding one to a number always changes its ones digit, so every step of
/// the counter reports slot 0, and reports it first.
pub proof fn lemma_increment_changes_ones(n: nat)
    ensures
        slot_changed(digits_of(n), digits_of(n + 1), 0),
        changed_slots(digits_of(n), digits_of(n + 1)).len() >= 1,
        changed_slots(digits_of(n), digits_of(n + 1))[0] == 0,
{
    lemma_digits_decimal(n);
    lemma_digits_decimal(n + 1);
    lemma_ones_place_first(digits_of(n), digits_of(n + 1), digits_of(n + 1).len());
}

/// A step never reports more slots than the new number has digits, and
/// the new number has at least as many digits as the old one.
pub proof fn lemma_step_event_count(n: nat, positions: Seq<usize>)
    ensures
        step_events(digits_of(n), digits_of(n + 1), positions).len() <= digits_of(n + 1).len(),
        digits_of(n).len() <= digits_of(n + 1).len(),
{
    lemma_changed_upto_exact(digits_of(n), digits_of(n + 1), digits_of(n + 1).len());
    lemma_digits_len_monotone(n, n + 1);
}

impl Count {
    /// Whether `digits` is the decomposition of `current`.
    pub open spec fn wf(&self) -> bool {
        self.digits@ == digits_of(self.current as nat)
    }

    /// A counter at zero over the given slot positions.
    pub fn new(positions: Vec<usize>) -> (count: Count)
        ensures
            count.wf(),
            count.current == 0,
            count.positions@ == positions@,
    {
        let mut digits: Vec<u8> = Vec::new();
        digits.push(0);
        assert(digits@ =~= digits_of(0));
        Count { positions, current: 0, digits }
    }

    /// The decomposition of `n` into decimal digits, ones place first.
    pub fn digits(n: usize) -> (ret: Vec<u8>)
        ensures
            ret@ == digits_of(n as nat),
    {
        let mut ret: Vec<u8> = Vec::new();
        if n == 0 {
            ret.push(0);
            assert(ret@ =~= digits_of(0));
            return ret;
        }
        let mut rest: usize = n;
        while rest != 0
            invariant
                rest > 0 ==> ret@ + digits_of(rest as nat) == digits_of(n as nat),
                rest == 0 ==> ret@ == digits_of(n as nat),
            decreases rest,
        {
            let ghost before = ret@;
            let digit: u8 = (rest % 10) as u8;
            ret.push(digit);
            proof {
                if rest < 10 {
                    assert(before.push(digit) =~= before + digits_of(rest as nat));
                } else {
                    assert(before.push(digit) + digits_of((rest / 10) as nat) =~= before
                        + digits_of(rest as nat));
                }
            }
            rest = rest / 10;
        }
        ret
    }

    /// Seeds the counter at `value` without reporting anything.
    pub fn set(&mut self, value: usize)
        ensures
            final(self).wf(),
            final(self).current == value,
            final(self).positions@ == old(self).positions@,
    {
        self.current = value;
        self.digits = Count::digits(value);
    }

    /// Advances the counter by one and reports the slots to redraw: one
    /// event per changed slot, in ascending slot order, so the ones place
    /// comes first. Fails, leaving the counter as it was, when the value
    /// cannot grow or the new number has more digits than there are
    /// positions.
    pub fn next(&mut self) -> (r: Result<Vec<Number>, CoreError>)
        requires
            old(self).wf(),
        ensures
            final(self).wf(),
            final(self).positions@ == old(self).positions@,
            old(self).current == usize::MAX ==> r == Err::<Vec<Number>, CoreError>(
                CoreError::ArithmeticOverflow,
            ) && final(self).current == old(self).current,
            old(self).current < usize::MAX && digits_of((old(self).current + 1) as nat).len() > old(
                self,
            ).positions@.len() ==> r == Err::<Vec<Number>, CoreError>(
                CoreError::LayoutInconsistency,
            ) && final(self).current == old(self).current,
            old(self).current < usize::MAX && digits_of((old(self).current + 1) as nat).len()
                <= old(self).positions@.len() ==> {
                &&& r is Ok
                &&& final(self).current == old(self).current + 1
                &&& r->Ok_0@ == step_events(
                    digits_of(old(self).current as nat),
                    digits_of((old(self).current + 1) as nat),
                    old(self).positions@,
                )
                &&& 1 <= r->Ok_0@.len() <= digits_of((old(self).current + 1) as nat).len()
                &&& r->Ok_0@[0] == event_at(
                    digits_of((old(self).current + 1) as nat),
                    old(self).positions@,
                    0,
                )
            },
    {
        if self.current == usize::MAX {
            return Err(CoreError::ArithmeticOverflow);
        }
        let next: usize = self.current + 1;
        let digits = Count::digits(next);
        if digits.len() > self.positions.len() {
            return Err(CoreError::LayoutInconsistency);
        }
        let ghost prev = self.digits@;
        let ghost make = event_fn(digits@, self.positions@);
        let mut numbers: Vec<Number> = Vec::new();
        let mut idx: usize = 0;
        proof {
            lemma_changed_upto_step(prev, digits@, 0);
            assert(numbers@ =~= changed_upto(prev, digits@, 0).map_values(make));
        }
        while idx < digits.len()
            invariant
                idx <= digits.len() <= self.positions.len(),
                prev == self.digits@,
                make == event_fn(digits@, self.positions@),
                numbers@ == changed_upto(prev, digits@, idx as nat).map_values(make),
            decreases digits.len() - idx,
        {
            let digit: u8 = digits[idx];
            let position: usize = self.positions[idx];
            let ghost before = changed_upto(prev, digits@, idx as nat);
            proof {
                lemma_changed_upto_step(prev, digits@, idx as nat);
            }
            if idx >= self.digits.len() || self.digits[idx] != digit {
                numbers.push(Number { number: digit, position });
                assert(numbers@ =~= before.push(idx as int).map_values(make));
            }
            idx = idx + 1;
        }
        proof {
            let n = self.current as nat;
            lemma_increment_changes_ones(n);
            lemma_step_event_count(n, self.positions@);
        }
        self.current = next;
        self.digits = digits;
        Ok(numbers)
    }
}

} // verus!
