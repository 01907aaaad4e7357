//! Quicksort over the bars, one comparison at a time.

use vstd::prelude::*;

use crate::bars::{exchange_bars, Effect, EXCHANGE_EFFECTS, NUM_BARS};
#[allow(unused_imports)]
use crate::bars::exchanged;
use crate::sort_model::{SortState, Span, EXCHANGE_PAUSE, PIVOT_PAUSE};
#[allow(unused_imports)]
use crate::sort_model::{
    begun, lemma_begun_wf, lemma_spaced_is_short, lemma_stepped_wf, resumed,
};

verus! {

/// A sort of the bars that stands before its next comparison, or is finished.
#[derive(Clone, Copy, Debug)]
pub struct Sorter {
    arr: [u8; NUM_BARS],
    stack: [(usize, usize); NUM_BARS],
    stack_top: usize,
    running: bool,
    lo: usize,
    hi: usize,
    split: usize,
    next: usize,
}

/// What a comparison shows: first the exchange of the compared bar, then that of
/// the pivot, where either takes place.
#[derive(Clone, Copy, Debug, PartialEq, Eq)]
pub struct Progress {
    pub exchange: Option<[Effect; EXCHANGE_EFFECTS]>,
    pub pivot: Option<[Effect; EXCHANGE_EFFECTS]>,
}

/// The effects of an animation as a sequence.
pub open spec fn animation(effects: Option<[Effect; EXCHANGE_EFFECTS]>) -> Option<Seq<Effect>> {
    match effects {
        Some(effects) => Some(effects@),
        None => None,
    }
}

impl View for Sorter {
    type V = SortState;

    closed spec fn view(&self) -> SortState {
        SortState {
            arr: self.arr@,
            pending: self.ranges(),
            span: if self.running {
                Some(
                    Span {
                        lo: self.lo as int,
                        hi: self.hi as int,
                        split: self.split as int,
                        next: self.next as int,
                    },
                )
            } else {
                None
            },
        }
    }
}

impl Sorter {
    /// The ranges on the stack.
    spec fn ranges(&self) -> Seq<(int, int)> {
        Seq::new(
            self.stack_top as nat,
            |k: int| (self.stack@[k].0 as int, self.stack@[k].1 as int),
        )
    }

    /// The sorter is in a state of a sort.
    pub closed spec fn wf(self) -> bool {
        self@.wf() && self.stack_top <= NUM_BARS
    }

    /// A sorter in this condition is in a state of a sort.
    pub proof fn lemma_wf(self)
        requires
            self.wf(),
        ensures
            self@.wf(),
    {
    }

    /// Begins a sort.
    pub fn new(arr: [u8; NUM_BARS]) -> (sorter: Sorter)
        ensures
            sorter.wf(),
            sorter@ == begun(arr@),
            !sorter@.done(),
    {
        let mut stack: [(usize, usize); NUM_BARS] = [(0usize, 0usize); NUM_BARS];
        stack[0] = (0, NUM_BARS - 1);
        let mut sorter = Sorter {
            arr,
            stack,
            stack_top: 1,
            running: false,
            lo: 0,
            hi: 0,
            split: 0,
            next: 0,
        };
        assert(sorter.ranges() =~= seq![(0int, NUM_BARS - 1)]);
        sorter.resume();
        proof {
            lemma_begun_wf(arr@);
        }
        sorter
    }

    /// The sort is finished.
    pub fn is_done(&self) -> (done: bool)
        ensures
            done == self@.done(),
    {
        !self.running
    }

    /// The bars as they stand.
    pub fn bars(&self) -> (arr: [u8; NUM_BARS])
        ensures
            arr@ == self@.arr,
    {
        self.arr
    }

    /// Takes ranges from the stack until one needs to be partitioned.
    fn resume(&mut self)
        requires
            old(self).stack_top <= NUM_BARS,
        ensures
            final(self)@ == resumed(old(self)@.arr, old(self)@.pending),
            final(self).stack_top <= NUM_BARS,
    {
        let ghost goal = resumed(self@.arr, self@.pending);
        self.running = false;
        while self.stack_top > 0
            invariant_except_break
                self.stack_top <= NUM_BARS,
                !self.running,
                goal == resumed(self@.arr, self@.pending),
            ensures
                self.stack_top <= NUM_BARS,
                goal == self@,
            decreases self.stack_top,
        {
            let ghost before = self@.pending;
            self.stack_top = self.stack_top - 1;
            assert(self.ranges() =~= before.drop_last());
            let (lo, hi): (usize, usize) = self.stack[self.stack_top];
            if lo < hi {
                self.lo = lo;
                self.hi = hi;
                self.split = lo;
                self.next = lo;
                self.running = true;
                break ;
            }
        }
    }

    /// Puts a range on the stack. During a sort there is always room: the ranges
    /// stand apart, so that there are never more than half as many as bars.
    fn push(&mut self, lo: usize, hi: usize)
        requires
            old(self).stack_top < NUM_BARS,
        ensures
            final(self)@ == (SortState {
                pending: old(self)@.pending.push((lo as int, hi as int)),
                ..old(self)@
            }),
            final(self).stack_top == old(self).stack_top + 1,
            final(self).lo == old(self).lo,
            final(self).hi == old(self).hi,
            final(self).split == old(self).split,
            final(self).next == old(self).next,
    {
        let ghost before = self@;
        self.stack[self.stack_top] = (lo, hi);
        self.stack_top = self.stack_top + 1;
        assert(self.ranges() =~= before.pending.push((lo as int, hi as int)));
    }

    /// Makes one comparison, and what follows from it until the next.
    pub fn step(&mut self) -> (progress: Progress)
        requires
            old(self).wf(),
            !old(self)@.done(),
        ensures
            final(self).wf(),
            final(self)@ == old(self)@.stepped(),
            animation(progress.exchange) == old(self)@.exchange_shown(),
            animation(progress.pivot) == old(self)@.pivot_shown(),
    {
        let ghost s = self@;
        proof {
            assert(s.open_ranges().last() == (s.span->0.lo, s.span->0.hi));
            lemma_spaced_is_short(s.open_ranges());
            lemma_stepped_wf(s);
        }
        let mut exchange: Option<[Effect; EXCHANGE_EFFECTS]> = None;
        let mut pivot: Option<[Effect; EXCHANGE_EFFECTS]> = None;
        if self.arr[self.next] <= self.arr[self.hi] {
            if self.split != self.next {
                exchange = Some(
                    exchange_bars(&mut self.arr, self.split, self.next, EXCHANGE_PAUSE),
                );
            }
            self.split = self.split + 1;
        }
        self.next = self.next + 1;
        assert(self.arr@ =~= s.arr_compared());
        assert(self.ranges() =~= s.pending);
        if self.next == self.hi {
            if self.split != self.hi {
                pivot = Some(exchange_bars(&mut self.arr, self.split, self.hi, PIVOT_PAUSE));
            }
            assert(self.arr@ =~= exchanged(s.arr_compared(), s.split_compared(), s.span->0.hi));
            assert(self.ranges() =~= s.pending);
            if self.split > self.lo {
                self.push(self.lo, self.split - 1);
            }
            assert(self@.pending =~= s.pending + s.low_part());
            if self.split < self.hi {
                self.push(self.split + 1, self.hi);
            }
            assert(self@.pending =~= s.pending + s.low_part() + s.high_part());
            self.resume();
        }
        Progress { exchange, pivot }
    }
}

} // verus!
