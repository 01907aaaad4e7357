//! What a sort is: its states, its steps, and what holds of them.
//!
//! The sort keeps a stack of ranges that are still to be sorted. It takes the
//! topmost one, partitions it around its last entry, and puts the two parts back.
//! A step is one comparison, so that the button can be looked at between any two.

use vstd::prelude::*;

use crate::bars::{Effect, NUM_BARS};
#[allow(unused_imports)]
use crate::bars::{exchange_effects, exchanged};
#[allow(unused_imports)]
use crate::canvas::{lemma_exchange_shown, lemma_played_concat, played, same_but_slots, shows};
use crate::color::Color;
#[allow(unused_imports)]
use crate::rng::heights_fit;

verus! {

/// The pause between the stages of an exchange within a partition, in milliseconds.
pub const EXCHANGE_PAUSE: u32 = 100;

/// The pause between the stages in which a pivot is put in its place.
pub const PIVOT_PAUSE: u32 = 50;

/// A partition in progress: the entries from `lo` to `hi` are divided around the
/// pivot at `hi`. Those before `split` are known to be at most the pivot, those
/// from there to before `next` are known to be above it; `next` comes next.
pub struct Span {
    pub lo: int,
    pub hi: int,
    pub split: int,
    pub next: int,
}

/// The state of a sort: the bars, the ranges on the stack from the bottom to the
/// top (first and last entry of each), and the partition in progress. A sort
/// without one is finished.
pub struct SortState {
    pub arr: Seq<u8>,
    pub pending: Seq<(int, int)>,
    pub span: Option<Span>,
}

/// The state in which the topmost range of two or more entries is about to be
/// partitioned; shorter ranges above it need no work and are gone.
pub open spec fn resumed(arr: Seq<u8>, pending: Seq<(int, int)>) -> SortState
    decreases pending.len(),
{
    if pending.len() == 0 {
        SortState { arr, pending, span: None }
    } else {
        let (lo, hi) = pending.last();
        if lo < hi {
            SortState {
                arr,
                pending: pending.drop_last(),
                span: Some(Span { lo, hi, split: lo, next: lo }),
            }
        } else {
            resumed(arr, pending.drop_last())
        }
    }
}

/// The state of a sort that begins: everything is one range.
pub open spec fn begun(arr: Seq<u8>) -> SortState {
    resumed(arr, seq![(0int, NUM_BARS - 1)])
}

impl SortState {
    /// The sort is finished.
    pub open spec fn done(self) -> bool {
        self.span is None
    }

    /// The entry that comes next is at most the pivot.
    pub open spec fn next_is_low(self) -> bool {
        self.arr[self.span->0.next] <= self.arr[self.span->0.hi]
    }

    /// The comparison at hand is the last of its partition.
    pub open spec fn closes_span(self) -> bool {
        self.span->0.next + 1 == self.span->0.hi
    }

    /// The bars after the comparison at hand: a low entry moves to the split.
    pub open spec fn arr_compared(self) -> Seq<u8> {
        if self.next_is_low() {
            exchanged(self.arr, self.span->0.split, self.span->0.next)
        } else {
            self.arr
        }
    }

    /// The split after the comparison at hand.
    pub open spec fn split_compared(self) -> int {
        if self.next_is_low() {
            self.span->0.split + 1
        } else {
            self.span->0.split
        }
    }

    /// The part left of the split, if there is any.
    pub open spec fn low_part(self) -> Seq<(int, int)> {
        if self.split_compared() > self.span->0.lo {
            seq![(self.span->0.lo, self.split_compared() - 1)]
        } else {
            seq![]
        }
    }

    /// The part right of the split, if there is any.
    pub open spec fn high_part(self) -> Seq<(int, int)> {
        if self.split_compared() < self.span->0.hi {
            seq![(self.split_compared() + 1, self.span->0.hi)]
        } else {
            seq![]
        }
    }

    /// The state after one comparison. The last one of a partition also puts the
    /// pivot at the split and the two parts on the stack.
    pub open spec fn stepped(self) -> SortState {
        match self.span {
            None => self,
            Some(span) => if self.closes_span() {
                resumed(
                    exchanged(self.arr_compared(), self.split_compared(), span.hi),
                    self.pending + self.low_part() + self.high_part(),
                )
            } else {
                SortState {
                    arr: self.arr_compared(),
                    pending: self.pending,
                    span: Some(
                        Span { split: self.split_compared(), next: span.next + 1, ..span },
                    ),
                }
            },
        }
    }

    /// The animation of the comparison at hand, where it moves a bar.
    pub open spec fn exchange_shown(self) -> Option<Seq<Effect>> {
        let span = self.span->0;
        if self.next_is_low() && span.split != span.next {
            Some(exchange_effects(self.arr, span.split, span.next, EXCHANGE_PAUSE))
        } else {
            None
        }
    }

    /// The animation of the pivot that goes to its place, where it moves.
    pub open spec fn pivot_shown(self) -> Option<Seq<Effect>> {
        let span = self.span->0;
        if self.closes_span() && self.split_compared() != span.hi {
            Some(exchange_effects(self.arr_compared(), self.split_compared(), span.hi, PIVOT_PAUSE))
        } else {
            None
        }
    }

    /// All that is shown of the comparison at hand.
    pub open spec fn step_effects(self) -> Seq<Effect> {
        let first = match self.exchange_shown() {
            Some(effects) => effects,
            None => seq![],
        };
        let second = match self.pivot_shown() {
            Some(effects) => effects,
            None => seq![],
        };
        first + second
    }

    /// The ranges in which order is still open, from left to right.
    pub open spec fn open_ranges(self) -> Seq<(int, int)> {
        match self.span {
            None => self.pending,
            Some(span) => self.pending.push((span.lo, span.hi)),
        }
    }

    /// What every state of a sort satisfies: the open ranges stand apart from left
    /// to right, entries that share no open range are in order, and the partition
    /// in progress is divided as far as it has come.
    pub open spec fn wf(self) -> bool {
        &&& self.arr.len() == NUM_BARS
        &&& spaced(self.open_ranges())
        &&& ordered_across(self.arr, self.open_ranges())
        &&& self.span matches Some(span) ==> divided(self.arr, span)
        &&& self.span is None ==> self.pending.len() == 0
    }
}

/// The ranges are not empty, lie within the bars, and have at least one entry
/// between any two of them.
pub open spec fn spaced(ranges: Seq<(int, int)>) -> bool {
    &&& forall|k: int|
        0 <= k < ranges.len() ==> 0 <= (#[trigger] ranges[k]).0 <= ranges[k].1 < NUM_BARS
    &&& forall|k: int, m: int|
        0 <= k < m < ranges.len() ==> (#[trigger] ranges[k]).1 + 1 < (#[trigger] ranges[m]).0
}

/// Some range holds both `a` and `b`.
pub open spec fn share_range(ranges: Seq<(int, int)>, a: int, b: int) -> bool {
    exists|k: int| 0 <= k < ranges.len() && (#[trigger] ranges[k]).0 <= a && b <= ranges[k].1
}

/// Any two entries that share no range are in order.
pub open spec fn ordered_across(arr: Seq<u8>, ranges: Seq<(int, int)>) -> bool {
    forall|a: int, b: int|
        0 <= a < b < arr.len() && !share_range(ranges, a, b) ==> #[trigger] arr[a]
            <= #[trigger] arr[b]
}

/// The partition has come to `next` and divided what lies before it.
pub open spec fn divided(arr: Seq<u8>, span: Span) -> bool {
    &&& span.lo <= span.split <= span.next < span.hi
    &&& forall|a: int| span.lo <= a < span.split ==> #[trigger] arr[a] <= arr[span.hi]
    &&& forall|a: int| span.split <= a < span.next ==> #[trigger] arr[a] > arr[span.hi]
}

/// The entries are in order from left to right.
pub open spec fn sorted(arr: Seq<u8>) -> bool {
    forall|a: int, b: int| 0 <= a <= b < arr.len() ==> #[trigger] arr[a] <= #[trigger] arr[b]
}

/// The state after `n` comparisons of a sort of `arr`.
pub open spec fn sort_after(arr: Seq<u8>, n: nat) -> SortState
    decreases n,
{
    if n == 0 {
        begun(arr)
    } else {
        sort_after(arr, (n - 1) as nat).stepped()
    }
}

/// The stack never holds more than ten ranges: they stand apart.
pub proof fn lemma_spaced_is_short(ranges: Seq<(int, int)>)
    requires
        spaced(ranges),
    ensures
        2 * ranges.len() <= NUM_BARS,
{
    lemma_spaced_grows(ranges, ranges.len() as int);
    if ranges.len() > 0 {
        lemma_spaced_grows(ranges, ranges.len() - 1);
    }
}

proof fn lemma_spaced_grows(ranges: Seq<(int, int)>, n: int)
    requires
        spaced(ranges),
        0 <= n <= ranges.len(),
    ensures
        n < ranges.len() ==> 2 * n <= ranges[n].0,
    decreases n,
{
    if n > 0 {
        lemma_spaced_grows(ranges, n - 1);
        if n < ranges.len() {
            assert(ranges[n - 1].1 + 1 < ranges[n].0);
        }
    }
}

/// Exchanging two entries of one range keeps the order across ranges.
proof fn lemma_exchange_keeps_order(
    arr: Seq<u8>,
    ranges: Seq<(int, int)>,
    r: int,
    i: int,
    j: int,
)
    requires
        spaced(ranges),
        ordered_across(arr, ranges),
        arr.len() == NUM_BARS,
        0 <= r < ranges.len(),
        ranges[r].0 <= i <= ranges[r].1,
        ranges[r].0 <= j <= ranges[r].1,
    ensures
        ordered_across(exchanged(arr, i, j), ranges),
{
    let after = exchanged(arr, i, j);
    let lo = ranges[r].0;
    let hi = ranges[r].1;
    assert forall|a: int, b: int|
        0 <= a < b < after.len() && !share_range(ranges, a, b) implies #[trigger] after[a]
        <= #[trigger] after[b] by {
        // The places in `arr` that the two values come from.
        let a0 = if a == i { j } else if a == j { i } else { a };
        let b0 = if b == i { j } else if b == j { i } else { b };
        assert(after[a] == arr[a0]);
        assert(after[b] == arr[b0]);
        assert(!(lo <= a && b <= hi)) by {
            if lo <= a && b <= hi {
                assert(ranges[r].0 <= a && b <= ranges[r].1);
            }
        }
        assert(a0 < b0);
        if share_range(ranges, a0, b0) {
            let k = choose|k: int|
                0 <= k < ranges.len() && (#[trigger] ranges[k]).0 <= a0 && b0 <= ranges[k].1;
            if k < r {
                assert(ranges[k].1 + 1 < ranges[r].0);
            } else if k > r {
                assert(ranges[r].1 + 1 < ranges[k].0);
            }
            assert(ranges[k].0 <= a && b <= ranges[k].1);
            assert(false);
        }
    }
}

/// Dropping a range of one entry keeps the order across ranges.
proof fn lemma_resumed_wf(arr: Seq<u8>, pending: Seq<(int, int)>)
    requires
        arr.len() == NUM_BARS,
        spaced(pending),
        ordered_across(arr, pending),
    ensures
        resumed(arr, pending).wf(),
        resumed(arr, pending).arr == arr,
    decreases pending.len(),
{
    if pending.len() > 0 {
        let (lo, hi) = pending.last();
        let rest = pending.drop_last();
        if lo < hi {
            assert(rest.push((lo, hi)) =~= pending);
        } else {
            assert forall|a: int, b: int|
                0 <= a < b < arr.len() && !share_range(rest, a, b) implies #[trigger] arr[a]
                <= #[trigger] arr[b] by {
                if share_range(pending, a, b) {
                    let k = choose|k: int|
                        0 <= k < pending.len() && (#[trigger] pending[k]).0 <= a && b
                            <= pending[k].1;
                    if k < rest.len() {
                        assert(rest[k].0 <= a && b <= rest[k].1);
                    }
                }
            }
            lemma_resumed_wf(arr, rest);
        }
    }
}

/// A sort that begins satisfies the invariant.
pub proof fn lemma_begun_wf(arr: Seq<u8>)
    requires
        arr.len() == NUM_BARS,
    ensures
        begun(arr).wf(),
        begun(arr).arr == arr,
        !begun(arr).done(),
{
    let all = seq![(0int, NUM_BARS - 1)];
    assert forall|a: int, b: int| 0 <= a < b < arr.len() implies share_range(all, a, b) by {
        assert(all[0].0 <= a && b <= all[0].1);
    }
    lemma_resumed_wf(arr, all);
}

/// The parts of a closed partition stand apart, and entries that share none of
/// them are in order.
proof fn lemma_parts_wf(s: SortState)
    requires
        s.wf(),
        !s.done(),
        s.closes_span(),
    ensures
        ({
            let arr = exchanged(s.arr_compared(), s.split_compared(), s.span->0.hi);
            let ranges = s.pending + s.low_part() + s.high_part();
            &&& spaced(ranges)
            &&& ordered_across(arr, ranges)
            &&& arr.len() == NUM_BARS
        }),
{
    let span = s.span->0;
    let (lo, hi) = (span.lo, span.hi);
    let before = s.open_ranges();
    let r = s.pending.len() as int;
    assert(before[r] == (lo, hi));
    let split = s.split_compared();
    let mid = s.arr_compared();
    let arr = exchanged(mid, split, hi);
    let ranges = s.pending + s.low_part() + s.high_part();
    if s.next_is_low() {
        lemma_exchange_keeps_order(s.arr, before, r, span.split, span.next);
    }
    lemma_exchange_keeps_order(mid, before, r, split, hi);
    assert(forall|k: int| 0 <= k < r ==> #[trigger] ranges[k] == before[k]);
    assert forall|k: int, m: int| 0 <= k < m < ranges.len() implies (#[trigger] ranges[k]).1 + 1
        < (#[trigger] ranges[m]).0 by {
        if k < r {
            assert(before[k].1 + 1 < before[r].0);
            if m < r {
                assert(before[k].1 + 1 < before[m].0);
            }
        }
    }
    // The pivot stands at the split, between the low and the high entries.
    assert(forall|a: int| lo <= a < split ==> #[trigger] arr[a] <= arr[split]);
    assert(forall|a: int| split < a <= hi ==> #[trigger] arr[a] > arr[split]);
    assert forall|a: int, b: int|
        0 <= a < b < arr.len() && !share_range(ranges, a, b) implies #[trigger] arr[a]
        <= #[trigger] arr[b] by {
        if share_range(before, a, b) {
            let k = choose|k: int|
                0 <= k < before.len() && (#[trigger] before[k]).0 <= a && b <= before[k].1;
            if k < r {
                assert(ranges[k].0 <= a && b <= ranges[k].1);
            } else if b < split {
                assert(ranges[r] == (lo, split - 1));
                assert(ranges[r].0 <= a && b <= ranges[r].1);
            } else if a > split {
                let m = ranges.len() - 1;
                assert(ranges[m] == (split + 1, hi));
                assert(ranges[m].0 <= a && b <= ranges[m].1);
            }
        }
    }
}

/// Every comparison keeps the invariant.
pub proof fn lemma_stepped_wf(s: SortState)
    requires
        s.wf(),
    ensures
        s.stepped().wf(),
{
    if !s.done() {
        let span = s.span->0;
        let r = s.pending.len() as int;
        assert(s.open_ranges()[r] == (span.lo, span.hi));
        if s.closes_span() {
            lemma_parts_wf(s);
            lemma_resumed_wf(
                exchanged(s.arr_compared(), s.split_compared(), span.hi),
                s.pending + s.low_part() + s.high_part(),
            );
        } else {
            if s.next_is_low() {
                lemma_exchange_keeps_order(s.arr, s.open_ranges(), r, span.split, span.next);
            }
        }
    }
}

/// A finished sort has its bars in order.
pub proof fn lemma_done_sorted(s: SortState)
    requires
        s.wf(),
        s.done(),
    ensures
        sorted(s.arr),
{
    assert forall|a: int, b: int| 0 <= a <= b < s.arr.len() implies #[trigger] s.arr[a]
        <= #[trigger] s.arr[b] by {
        assert(!share_range(s.open_ranges(), a, b));
    }
}

/// An exchange keeps the bars, each as often as it occurs.
pub proof fn lemma_exchanged_permutes(arr: Seq<u8>, i: int, j: int)
    requires
        0 <= i < arr.len(),
        0 <= j < arr.len(),
    ensures
        exchanged(arr, i, j).to_multiset() == arr.to_multiset(),
{
    broadcast use vstd::seq_lib::group_to_multiset_ensures;

    let mid = arr.update(i, arr[j]);
    vstd::seq_lib::to_multiset_update(arr, i, arr[j]);
    vstd::seq_lib::to_multiset_update(mid, j, arr[i]);
    assert(arr.contains(arr[i]));
    assert(exchanged(arr, i, j).to_multiset() =~= arr.to_multiset());
}

/// A comparison keeps the bars, each as often as it occurs.
pub proof fn lemma_stepped_permutes(s: SortState)
    requires
        s.wf(),
    ensures
        s.stepped().arr.to_multiset() == s.arr.to_multiset(),
{
    if !s.done() {
        let span = s.span->0;
        assert(s.open_ranges().last() == (span.lo, span.hi));
        lemma_exchanged_permutes(s.arr, span.split, span.next);
        if s.closes_span() {
            lemma_exchanged_permutes(s.arr_compared(), s.split_compared(), span.hi);
            lemma_parts_wf(s);
            lemma_resumed_wf(
                exchanged(s.arr_compared(), s.split_compared(), span.hi),
                s.pending + s.low_part() + s.high_part(),
            );
        }
    }
}

/// A comparison keeps heights that fit.
pub proof fn lemma_stepped_fits(s: SortState)
    requires
        s.wf(),
        heights_fit(s.arr),
    ensures
        heights_fit(s.stepped().arr),
{
    if !s.done() {
        let span = s.span->0;
        assert(s.open_ranges().last() == (span.lo, span.hi));
        if s.closes_span() {
            lemma_parts_wf(s);
            lemma_resumed_wf(
                exchanged(s.arr_compared(), s.split_compared(), span.hi),
                s.pending + s.low_part() + s.high_part(),
            );
        }
    }
}

/// If the panel shows the bars before a comparison, then after what is shown of it
/// the panel shows the bars that the comparison leaves, and nothing outside the
/// slots has changed.
pub proof fn lemma_stepped_shown(picture: spec_fn(int, int) -> Color, s: SortState)
    requires
        s.wf(),
        !s.done(),
        heights_fit(s.arr),
        shows(picture, s.arr),
    ensures
        shows(played(picture, s.step_effects()), s.stepped().arr),
        same_but_slots(picture, played(picture, s.step_effects())),
{
    let span = s.span->0;
    assert(s.open_ranges().last() == (span.lo, span.hi));
    let mid = s.arr_compared();
    let first = match s.exchange_shown() {
        Some(effects) => effects,
        None => seq![],
    };
    let second = match s.pivot_shown() {
        Some(effects) => effects,
        None => seq![],
    };
    let p1 = played(picture, first);
    let p2 = played(p1, second);
    lemma_played_concat(picture, first, second);
    if s.exchange_shown() is Some {
        lemma_exchange_shown(picture, s.arr, span.split, span.next, EXCHANGE_PAUSE);
    } else {
        assert(mid =~= s.arr);
    }
    assert(shows(p1, mid));
    if s.closes_span() {
        let after = exchanged(mid, s.split_compared(), span.hi);
        lemma_parts_wf(s);
        lemma_resumed_wf(after, s.pending + s.low_part() + s.high_part());
        if s.pivot_shown() is Some {
            lemma_exchange_shown(p1, mid, s.split_compared(), span.hi, PIVOT_PAUSE);
        } else {
            assert(after =~= mid);
        }
        assert(shows(p2, after));
    }
    assert forall|x: int, y: int|
        (forall|k: int| 0 <= k < NUM_BARS ==> !crate::canvas::in_slot(k, x, y)) implies #[trigger] p2(
        x,
        y,
    ) == picture(x, y) by {
        assert(p1(x, y) == picture(x, y));
    }
}

/// The comparisons of `n` entries, each with each.
pub open spec fn pairs(n: int) -> int
    decreases n,
{
    if n <= 0 {
        0
    } else {
        pairs(n - 1) + n - 1
    }
}

/// A bound on the comparisons that the ranges still need.
pub open spec fn pairs_within(ranges: Seq<(int, int)>) -> int
    decreases ranges.len(),
{
    if ranges.len() == 0 {
        0
    } else {
        pairs_within(ranges.drop_last()) + pairs(ranges.last().1 - ranges.last().0 + 1)
    }
}

impl SortState {
    /// A bound on the comparisons that are left.
    pub open spec fn work(self) -> int {
        pairs_within(self.pending) + match self.span {
            None => 0,
            Some(span) => span.hi - span.next + pairs(span.hi - span.lo),
        }
    }
}

proof fn lemma_pairs_split(a: int, b: int)
    requires
        0 <= a,
        0 <= b,
    ensures
        0 <= pairs(a),
        pairs(a) + pairs(b) <= pairs(a + b),
    decreases a + b,
{
    if b > 0 {
        lemma_pairs_split(a, b - 1);
    } else if a > 0 {
        lemma_pairs_split(a - 1, b);
    }
}

proof fn lemma_resumed_work(arr: Seq<u8>, pending: Seq<(int, int)>)
    requires
        spaced(pending),
    ensures
        resumed(arr, pending).work() == pairs_within(pending),
    decreases pending.len(),
{
    if pending.len() > 0 {
        let (lo, hi) = pending.last();
        if lo < hi {
        } else {
            assert(lo == hi);
            assert(pairs(1) == 0) by {
                reveal_with_fuel(pairs, 2);
            }
            lemma_resumed_work(arr, pending.drop_last());
        }
    }
}

proof fn lemma_pairs_within_not_negative(ranges: Seq<(int, int)>)
    requires
        spaced(ranges),
    ensures
        pairs_within(ranges) >= 0,
    decreases ranges.len(),
{
    if ranges.len() > 0 {
        lemma_pairs_within_not_negative(ranges.drop_last());
        lemma_pairs_split(ranges.last().1 - ranges.last().0 + 1, 0);
    }
}

/// Every comparison brings a sort nearer to its end.
pub proof fn lemma_stepped_works(s: SortState)
    requires
        s.wf(),
        !s.done(),
    ensures
        0 <= s.stepped().work() < s.work(),
{
    let span = s.span->0;
    assert(s.open_ranges().last() == (span.lo, span.hi));
    lemma_stepped_wf(s);
    lemma_work_not_negative(s.stepped());
    if s.closes_span() {
        let low = s.low_part();
        let high = s.high_part();
        let (lo, hi, split) = (span.lo, span.hi, s.split_compared());
        lemma_parts_wf(s);
        lemma_resumed_work(
            exchanged(s.arr_compared(), split, hi),
            s.pending + low + high,
        );
        lemma_pairs_split(split - lo, hi - split);
        assert(pairs_within(s.pending + low) == pairs_within(s.pending) + pairs(split - lo)) by {
            if low.len() > 0 {
                assert((s.pending + low).drop_last() =~= s.pending);
            } else {
                assert(s.pending + low =~= s.pending);
            }
        }
        assert(pairs_within(s.pending + low + high) == pairs_within(s.pending + low) + pairs(
            hi - split,
        )) by {
            if high.len() > 0 {
                assert((s.pending + low + high).drop_last() =~= s.pending + low);
            } else {
                assert(s.pending + low + high =~= s.pending + low);
            }
        }
    }
}

proof fn lemma_work_not_negative(s: SortState)
    requires
        s.wf(),
    ensures
        0 <= s.work(),
        !s.done() ==> 0 < s.work(),
{
    if !s.done() {
        let span = s.span->0;
        assert(s.open_ranges().last() == (span.lo, span.hi));
        assert(s.open_ranges().drop_last() =~= s.pending);
        lemma_pairs_split(span.hi - span.lo, 0);
        assert forall|k: int, m: int| 0 <= k < m < s.pending.len() implies (
        #[trigger] s.pending[k]).1 + 1 < (#[trigger] s.pending[m]).0 by {
            assert(s.open_ranges()[k].1 + 1 < s.open_ranges()[m].0);
        }
        assert forall|k: int| 0 <= k < s.pending.len() implies 0 <= (#[trigger] s.pending[k]).0
            <= s.pending[k].1 < NUM_BARS by {
            assert(s.open_ranges()[k] == s.pending[k]);
        }
        lemma_pairs_within_not_negative(s.pending);
    }
}

/// At every point of a sort the invariant holds, the bars are those it began with,
/// and the comparisons made so far and those to come are no more than 190.
pub proof fn lemma_sort_after(arr: Seq<u8>, n: nat)
    requires
        arr.len() == NUM_BARS,
    ensures
        sort_after(arr, n).wf(),
        sort_after(arr, n).arr.to_multiset() == arr.to_multiset(),
        sort_after(arr, n).done() || n + sort_after(arr, n).work() <= 190,
    decreases n,
{
    if n == 0 {
        let all = seq![(0int, NUM_BARS - 1)];
        lemma_begun_wf(arr);
        lemma_resumed_work(arr, all);
        assert(all.drop_last() =~= Seq::<(int, int)>::empty());
        assert(pairs_within(all) == pairs(20));
        assert(pairs(20) == 190) by {
            reveal_with_fuel(pairs, 21);
        }
    } else {
        let before = sort_after(arr, (n - 1) as nat);
        lemma_sort_after(arr, (n - 1) as nat);
        lemma_stepped_wf(before);
        lemma_stepped_permutes(before);
        if !before.done() {
            lemma_stepped_works(before);
        }
    }
}

/// A sort that is not interrupted finishes within 190 comparisons, the bars that it
/// began with then stand in order, and it stays that way.
pub proof fn lemma_sort_finishes(arr: Seq<u8>, n: nat)
    requires
        arr.len() == NUM_BARS,
        n >= 190,
    ensures
        sort_after(arr, n).done(),
        sorted(sort_after(arr, n).arr),
        sort_after(arr, n).arr.to_multiset() == arr.to_multiset(),
{
    lemma_sort_after(arr, n);
    if !sort_after(arr, n).done() {
        lemma_work_not_negative(sort_after(arr, n));
    }
    lemma_done_sorted(sort_after(arr, n));
}

} // verus!
