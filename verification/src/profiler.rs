//! Timing of turns: how long each part of a turn took.
//!
//! The profiler reads no clock. Its caller hands it the time, in milliseconds
//! of any clock that does not run backwards, and stores the rows that it
//! returns.

use vstd::prelude::*;

verus! {

/// The name of the split that holds the time of a whole turn.
pub const COMPLETE: &'static str = "complete";

/// Measures turns.
#[derive(Debug, Clone, Copy)]
pub struct TurnProfiler {}

/// A turn that is being measured: when it started, when its last part ended,
/// and the parts that were measured, each with its name and its duration.
#[derive(Debug)]
pub struct TurnStart {
    start: u64,
    cut: u64,
    splits: Vec<(String, u64)>,
}

/// One measurement: a part of a turn took so many milliseconds.
#[derive(Debug)]
pub struct TurnSplit {
    pub turn: i64,
    pub split: String,
    pub ms: u64,
}

/// The time from `earlier` to `later`, or none where `later` is not later.
pub open spec fn elapsed(earlier: u64, later: u64) -> u64 {
    if later >= earlier {
        (later - earlier) as u64
    } else {
        0
    }
}

impl TurnStart {
    /// When the turn started.
    pub closed spec fn start(&self) -> u64 {
        self.start
    }

    /// When the last part ended.
    pub closed spec fn cut(&self) -> u64 {
        self.cut
    }

    /// The parts that were measured.
    pub closed spec fn splits(&self) -> Seq<(String, u64)> {
        self.splits@
    }

    /// Ends a part of the turn at the time `now`: the part is noted under the
    /// name `segment`, with the time since the part before it ended.
    pub fn split(&mut self, segment: &str, now: u64)
        ensures
            final(self).start() == old(self).start(),
            final(self).cut() == now,
            final(self).splits().len() == old(self).splits().len() + 1,
            final(self).splits().drop_last() == old(self).splits(),
            final(self).splits().last().0@ == segment@,
            final(self).splits().last().1 == elapsed(old(self).cut(), now),
    {
        let took = if now >= self.cut {
            now - self.cut
        } else {
            0
        };
        self.splits.push((segment.to_owned(), took));
        self.cut = now;
        assert(self.splits().drop_last() =~= old(self).splits());
    }
}

impl TurnProfiler {
    /// A profiler.
    pub fn new() -> (p: Self) {
        TurnProfiler {  }
    }

    /// Starts the measurement of a turn at the time `now`.
    pub fn start(&mut self, now: u64) -> (turn: TurnStart)
        ensures
            turn.start() == now,
            turn.cut() == now,
            turn.splits() == Seq::<(String, u64)>::empty(),
    {
        TurnStart { start: now, cut: now, splits: Vec::new() }
    }

    /// Ends the measurement of turn number `turn` at the time `now`: the rows
    /// to store, one for each part that was measured, in order, and a last
    /// one under the name `COMPLETE` with the time since the turn started.
    pub fn end(&mut self, turn: i64, start: TurnStart, now: u64, _actor_count: i64) -> (rows: Vec<
        TurnSplit,
    >)
        ensures
            rows@.len() == start.splits().len() + 1,
            forall|i: int|
                0 <= i < start.splits().len() ==> (#[trigger] rows@[i]).turn == turn
                    && rows@[i].split == start.splits()[i].0 && rows@[i].ms
                    == start.splits()[i].1,
            rows@.last().turn == turn,
            rows@.last().split@ == COMPLETE@,
            rows@.last().ms == elapsed(start.start(), now),
    {
        let mut rows: Vec<TurnSplit> = Vec::new();
        let mut i: usize = 0;
        while i < start.splits.len()
            invariant
                i <= start.splits@.len(),
                rows@.len() == i,
                forall|j: int|
                    0 <= j < i ==> (#[trigger] rows@[j]).turn == turn && rows@[j].split
                        == start.splits@[j].0 && rows@[j].ms == start.splits@[j].1,
            decreases start.splits@.len() - i,
        {
            rows.push(
                TurnSplit { turn, split: start.splits[i].0.clone(), ms: start.splits[i].1 },
            );
            i = i + 1;
        }
        let took = if now >= start.start {
            now - start.start
        } else {
            0
        };
        rows.push(TurnSplit { turn, split: COMPLETE.to_owned(), ms: took });
        rows
    }
}

} // verus!
