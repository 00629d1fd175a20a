//! Frame emission: what to hand to the encoder for each step of a count.
//!
//! A step redraws only the slots that changed. Each changed slot becomes
//! one sub-image; the sub-images of a step are composed at once, and only
//! the last of them carries a delay, so that the animation clock moves
//! once per number. Nothing is ever erased: a cell is simply drawn over.

use vstd::prelude::*;
use crate::count::{step_events, Count, Number};
use crate::digits::{digits_of, lemma_digits_len_monotone, num_digits};
use crate::error::CoreError;

verus! {

/// The delay after each number, in hundredths of a second.
pub const STEP_DELAY: u16 = 100;

/// What becomes of a sub-image once its delay has passed.
#[derive(Clone, Copy, Debug, PartialEq, Eq, Structural)]
pub enum DisposalMethod {
    /// Nothing is asked of the viewer.
    NoAction,
    /// The sub-image stays where it was drawn.
    DoNotDispose,
    /// Its area is cleared to the background colour.
    RestoreBackground,
    /// Its area is restored to what was there before.
    RestorePrevious,
}

/// How long a sub-image is shown before the next is drawn, and what
/// becomes of it then.
#[derive(Clone, Copy, Debug, PartialEq, Eq, Structural)]
pub struct Timing {
    /// In hundredths of a second.
    pub delay: u16,
    pub disposal: DisposalMethod,
}

/// One glyph cell to draw: which digit, where, and, for the last cell of
/// a step, the timing.
#[derive(Clone, Copy, Debug, PartialEq, Eq, Structural)]
pub struct SubImage {
    pub digit: u8,
    pub left: usize,
    pub top: usize,
    pub timing: Option<Timing>,
}

/// The sub-image for the `k`-th event of a step.
pub open spec fn sub_image_at(events: Seq<Number>, top: usize, delay: u16, k: int) -> SubImage {
    SubImage {
        digit: events[k].number,
        left: events[k].position,
        top,
        timing: if k == events.len() - 1 {
            Some(Timing { delay, disposal: DisposalMethod::DoNotDispose })
        } else {
            None
        },
    }
}

/// The sub-images of a step: one per event, in the order of the events,
/// the last with the timing and the others without.
pub open spec fn step_images(events: Seq<Number>, top: usize, delay: u16) -> Seq<SubImage> {
    Seq::new(events.len(), |k: int| sub_image_at(events, top, delay, k))
}

/// Turns the events of one step into the sub-images to emit.
pub fn plan_step(events: &Vec<Number>, top: usize, delay: u16) -> (images: Vec<SubImage>)
    ensures
        images@ == step_images(events@, top, delay),
{
    let mut images: Vec<SubImage> = Vec::new();
    let count: usize = events.len();
    let mut k: usize = 0;
    while k < count
        invariant
            k <= count,
            count == events@.len(),
            images@.len() == k,
            forall|j: int| 0 <= j < k ==> #[trigger] images@[j] == sub_image_at(events@, top, delay, j),
        decreases count - k,
    {
        let event = events[k];
        let timing = if k == count - 1 {
            Some(Timing { delay, disposal: DisposalMethod::DoNotDispose })
        } else {
            None
        };
        images.push(SubImage { digit: event.number, left: event.position, top, timing });
        k = k + 1;
    }
    assert(images@ =~= step_images(events@, top, delay));
    images
}

/// A count in progress: the counter, the number at which it stops, and
/// what every sub-image of the run shares.
pub struct Run {
    pub count: Count,
    /// The run ends when the counter shows this number.
    pub end: usize,
    /// The top edge of every cell.
    pub top: usize,
    /// The delay after each number, in hundredths of a second.
    pub delay: u16,
}

impl Run {
    /// Whether the run can go on to its end: the counter is sound, and
    /// there is a position for every digit of every number still to come.
    pub open spec fn wf(&self) -> bool {
        &&& self.count.wf()
        &&& self.count.current < self.end ==> digits_of(self.end as nat).len()
            <= self.count.positions@.len()
    }

    /// How many steps are left.
    pub open spec fn remaining(&self) -> nat {
        if self.count.current < self.end {
            (self.end - self.count.current) as nat
        } else {
            0
        }
    }

    /// Prepares to count from `start` up to `end` over the given slot
    /// positions. Fails exactly when steps are to be taken and `end` has
    /// more digits than there are positions.
    pub fn begin(positions: Vec<usize>, top: usize, delay: u16, start: usize, end: usize) -> (r:
        Result<Run, CoreError>)
        ensures
            match r {
                Ok(run) => {
                    &&& run.wf()
                    &&& run.count.current == start
                    &&& run.count.positions@ == positions@
                    &&& run.end == end
                    &&& run.top == top
                    &&& run.delay == delay
                    &&& start < end ==> digits_of(end as nat).len() <= positions@.len()
                },
                Err(e) => e == CoreError::LayoutInconsistency && start < end && digits_of(
                    end as nat,
                ).len() > positions@.len(),
            },
    {
        if start < end && num_digits(end) > positions.len() {
            return Err(CoreError::LayoutInconsistency);
        }
        let mut count = Count::new(positions);
        count.set(start);
        Ok(Run { count, end, top, delay })
    }

    /// Takes the next step, if one is left: advances the counter by one
    /// and gives the sub-images that show the new number. At the end of
    /// the run nothing changes and nothing is given.
    pub fn step(&mut self) -> (r: Option<Vec<SubImage>>)
        requires
            old(self).wf(),
        ensures
            final(self).wf(),
            final(self).end == old(self).end,
            final(self).top == old(self).top,
            final(self).delay == old(self).delay,
            final(self).count.positions@ == old(self).count.positions@,
            old(self).remaining() == 0 ==> r is None && final(self).count.current == old(
                self,
            ).count.current,
            old(self).remaining() > 0 ==> {
                &&& r is Some
                &&& final(self).count.current == old(self).count.current + 1
                &&& final(self).remaining() == old(self).remaining() - 1
                &&& r->Some_0@ == step_images(
                    step_events(
                        digits_of(old(self).count.current as nat),
                        digits_of((old(self).count.current + 1) as nat),
                        old(self).count.positions@,
                    ),
                    old(self).top,
                    old(self).delay,
                )
                &&& 1 <= r->Some_0@.len() <= digits_of((old(self).count.current + 1) as nat).len()
                &&& r->Some_0@.last().timing == Some(
                    Timing { delay: old(self).delay, disposal: DisposalMethod::DoNotDispose },
                )
                &&& r->Some_0@[0].digit == digits_of((old(self).count.current + 1) as nat)[0]
                &&& r->Some_0@[0].left == old(self).count.positions@[0]
            },
    {
        if self.count.current >= self.end {
            return None;
        }
        proof {
            lemma_digits_len_monotone((self.count.current + 1) as nat, self.end as nat);
        }
        match self.count.next() {
            Ok(events) => {
                let images = plan_step(&events, self.top, self.delay);
                Some(images)
            },
            // Not reached: the counter is below `end`, and `end` has a
            // position for each of its digits.
            Err(_) => None,
        }
    }
}

} // verus!
