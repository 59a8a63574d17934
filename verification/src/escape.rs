//! Counting the iterations of one orbit.
//!
//! The orbit of a point is followed one iteration at a time. After each
//! iteration the caller reports whether the orbit has crossed the divergence
//! threshold; the counter decides whether to go on and keeps the count. When
//! the orbit has stopped, the smoothed count is settled into the range that a
//! grid cell may hold. Cells hold whole counts: of a smoothed count only the
//! whole part is kept.

use vstd::prelude::*;

verus! {

/// The iteration counter of one orbit.
#[derive(Clone, Copy, Debug, PartialEq, Eq, Structural)]
pub struct EscapeCounter {
    /// Iterations counted so far; a fresh counter holds one.
    pub its: u32,
    /// Whether a reported iteration crossed the divergence threshold.
    pub diverged: bool,
}

/// The larger of two counts.
pub open spec fn larger(a: int, b: int) -> int {
    if a >= b {
        a
    } else {
        b
    }
}

/// The smaller of two counts.
pub open spec fn smaller(a: int, b: int) -> int {
    if a <= b {
        a
    } else {
        b
    }
}

/// The number of observations that come before the first crossing; the
/// length of the sequence where none crosses.
pub open spec fn first_crossing(crossings: Seq<bool>) -> nat
    decreases crossings.len(),
{
    if crossings.len() == 0 || crossings[0] {
        0
    } else {
        1 + first_crossing(crossings.drop_first())
    }
}

impl EscapeCounter {
    /// A counter before any iteration.
    pub open spec fn fresh() -> EscapeCounter {
        EscapeCounter { its: 1, diverged: false }
    }

    /// The orbit has neither diverged nor used up its iterations.
    pub open spec fn running(self, max_its: u32) -> bool {
        !self.diverged && self.its < max_its
    }

    /// The counter after one more iteration has been reported. A crossing
    /// stops the count where it stands; any other iteration is counted. A
    /// counter that no longer runs ignores the report.
    pub open spec fn after(self, crossed: bool, max_its: u32) -> EscapeCounter {
        if !self.running(max_its) {
            self
        } else if crossed {
            EscapeCounter { its: self.its, diverged: true }
        } else {
            EscapeCounter { its: (self.its + 1) as u32, diverged: false }
        }
    }

    /// The counter after a sequence of reports, first to last.
    pub open spec fn run(self, crossings: Seq<bool>, max_its: u32) -> EscapeCounter
        decreases crossings.len(),
    {
        if crossings.len() == 0 {
            self
        } else {
            self.after(crossings[0], max_its).run(crossings.drop_first(), max_its)
        }
    }

    /// The count is at least one and, where the limit allows any iteration,
    /// at most the limit.
    pub open spec fn bounded(self, max_its: u32) -> bool {
        1 <= self.its <= larger(max_its as int, 1)
    }

    /// Starts the count of a new orbit.
    pub fn start() -> (counter: EscapeCounter)
        ensures
            counter == EscapeCounter::fresh(),
    {
        EscapeCounter { its: 1, diverged: false }
    }

    /// Says whether another iteration is wanted.
    pub fn is_running(&self, max_its: u32) -> (wanted: bool)
        ensures
            wanted == self.running(max_its),
    {
        !self.diverged && self.its < max_its
    }

    /// Takes the report on one more iteration: `crossed` says whether the
    /// orbit has reached the divergence threshold.
    pub fn observe(&mut self, crossed: bool, max_its: u32)
        ensures
            *final(self) == old(self).after(crossed, max_its),
            old(self).bounded(max_its) ==> final(self).bounded(max_its),
    {
        if !self.diverged && self.its < max_its {
            if crossed {
                self.diverged = true;
            } else {
                self.its = self.its + 1;
            }
        }
    }
}

/// The count that a grid cell holds for a smoothed count whose whole part is
/// `whole`: raised to one where it is less, and cut to the limit where it is
/// more. With a limit of zero the cell holds zero.
pub open spec fn settled(whole: u32, max_its: u32) -> u32 {
    smaller(larger(whole as int, 1), max_its as int) as u32
}

/// Settles the whole part of a smoothed count into the range of a grid cell:
/// from one to the limit, both included. No limit is refused: under a limit
/// of zero, which allows no iteration at all, every count settles at zero.
pub fn settle(whole: u32, max_its: u32) -> (count: u32)
    ensures
        count == settled(whole, max_its),
        count <= max_its,
        max_its >= 1 ==> 1 <= count,
{
    let raised: u32 = if whole < 1 {
        1
    } else {
        whole
    };
    if raised > max_its {
        max_its
    } else {
        raised
    }
}

/// A counter that has stopped stays as it is, whatever is reported.
pub proof fn lemma_stopped_stays(counter: EscapeCounter, crossings: Seq<bool>, max_its: u32)
    requires
        !counter.running(max_its),
    ensures
        counter.run(crossings, max_its) == counter,
    decreases crossings.len(),
{
    if crossings.len() > 0 {
        lemma_stopped_stays(counter, crossings.drop_first(), max_its);
    }
}

/// A running counter that holds `its` ends, after a sequence of reports,
/// with `its` plus the number of reports before the first crossing, cut to
/// the limit; it has diverged exactly if that crossing came before the limit.
pub proof fn lemma_run_from(counter: EscapeCounter, crossings: Seq<bool>, max_its: u32)
    requires
        counter.running(max_its),
    ensures
        counter.run(crossings, max_its).its == smaller(
            counter.its + first_crossing(crossings),
            max_its as int,
        ),
        counter.run(crossings, max_its).diverged <==> first_crossing(crossings) < crossings.len()
            && counter.its + first_crossing(crossings) < max_its,
    decreases crossings.len(),
{
    if crossings.len() > 0 {
        let next = counter.after(crossings[0], max_its);
        let rest = crossings.drop_first();
        if next.running(max_its) {
            lemma_run_from(next, rest, max_its);
        } else {
            lemma_stopped_stays(next, rest, max_its);
        }
    }
}

/// The count of an orbit is one more than the number of iterations before
/// the first crossing, and never more than the limit (never less than one).
pub proof fn lemma_run_counts(crossings: Seq<bool>, max_its: u32)
    ensures
        EscapeCounter::fresh().run(crossings, max_its).its == smaller(
            1 + first_crossing(crossings) as int,
            larger(max_its as int, 1),
        ),
        EscapeCounter::fresh().run(crossings, max_its).bounded(max_its),
{
    let fresh = EscapeCounter::fresh();
    if fresh.running(max_its) {
        lemma_run_from(fresh, crossings, max_its);
    } else {
        lemma_stopped_stays(fresh, crossings, max_its);
    }
}

/// Where no observation crosses, all of them come before the first crossing.
pub proof fn lemma_no_crossing_counts_all(crossings: Seq<bool>)
    requires
        forall|i: int| 0 <= i < crossings.len() ==> !crossings[i],
    ensures
        first_crossing(crossings) == crossings.len(),
    decreases crossings.len(),
{
    if crossings.len() > 0 {
        let rest = crossings.drop_first();
        assert forall|i: int| 0 <= i < rest.len() implies !rest[i] by {
            assert(rest[i] == crossings[i + 1]);
        }
        lemma_no_crossing_counts_all(rest);
    }
}

/// An orbit that never crosses the threshold, followed for all the
/// iterations that the limit allows, ends with the limit as its count.
pub proof fn lemma_never_crossing(crossings: Seq<bool>, max_its: u32)
    requires
        forall|i: int| 0 <= i < crossings.len() ==> !crossings[i],
        crossings.len() + 1 >= max_its >= 1,
    ensures
        EscapeCounter::fresh().run(crossings, max_its).its == max_its,
        !EscapeCounter::fresh().run(crossings, max_its).diverged,
{
    lemma_no_crossing_counts_all(crossings);
    let fresh = EscapeCounter::fresh();
    if fresh.running(max_its) {
        lemma_run_from(fresh, crossings, max_its);
    } else {
        lemma_stopped_stays(fresh, crossings, max_its);
    }
}

/// An orbit whose first iteration crosses the threshold has the count one.
pub proof fn lemma_immediate_crossing(crossings: Seq<bool>, max_its: u32)
    requires
        crossings.len() > 0,
        crossings[0],
    ensures
        EscapeCounter::fresh().run(crossings, max_its).its == 1,
{
    lemma_run_counts(crossings, max_its);
}

} // verus!
