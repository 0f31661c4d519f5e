//! The windows behind jump detection: the accepted prices of the last
//! `window` milliseconds, the absolute moves (in basis points) between
//! consecutive prices, and a monotone queue of moves whose front is the
//! largest move of the window.
//!
//! Each move is computed by the caller in floating point from the latest
//! price and the new one; moves are binary64 bit patterns and are compared
//! here as binary64 values.
use vstd::prelude::*;
use std::collections::VecDeque;
use crate::ieee::{less, less_eq, lt_bits, le_bits, nan_bits, POSITIVE_ZERO};
use crate::window::{TimeWindow, MS_TO_NS, cutoff, cutoff_of, stamps_in_order};

verus! {

/// The queue `q` holds moves of `m`: `p[j]` is the index in `m` of `q[j]`,
/// indices increase along the queue, no entry is `<=` the next one, and the
/// latest move is the last entry.
pub open spec fn queue_tracks(m: Seq<(u64, u64)>, q: Seq<(u64, u64)>, p: Seq<int>) -> bool {
    &&& p.len() == q.len()
    &&& forall|j: int| 0 <= j < q.len() ==> 0 <= #[trigger] p[j] < m.len() && m[p[j]] == q[j]
    &&& forall|j: int, k: int| 0 <= j < k < q.len() ==> #[trigger] p[j] < #[trigger] p[k]
    &&& forall|j: int| 0 <= j < q.len() - 1 ==> !le_bits((#[trigger] q[j]).1, q[j + 1].1)
    &&& m.len() > 0 ==> q.len() > 0 && p[q.len() - 1] == m.len() - 1
}

/// Every move that is a number is `<=` the first queue entry at or after it.
pub open spec fn queue_covers(m: Seq<(u64, u64)>, q: Seq<(u64, u64)>, p: Seq<int>) -> bool {
    forall|i: int, j: int|
        0 <= i < m.len() && 0 <= j < q.len() && p[j] >= i && (j == 0 || p[j - 1] < i) && !nan_bits(
            m[i].1,
        ) ==> le_bits((#[trigger] m[i]).1, (#[trigger] q[j]).1)
}

/// The moves of a window after a price is recorded: `moves` with the new
/// move appended when there is one.
pub open spec fn with_move(moves: Seq<(u64, u64)>, stamp: u64, move_bps: Option<u64>) -> Seq<(u64, u64)> {
    match move_bps {
        Some(m) => moves.push((stamp, m)),
        None => moves,
    }
}

/// The queue after popping, from the back, every entry `<=` the move `m`.
pub open spec fn pop_dominated(q: Seq<(u64, u64)>, m: u64) -> Seq<(u64, u64)>
    decreases q.len(),
{
    if q.len() > 0 && le_bits(q.last().1, m) {
        pop_dominated(q.drop_last(), m)
    } else {
        q
    }
}

/// The queue after popping, from the front, every entry stamped before `cut`.
pub open spec fn pop_expired(q: Seq<(u64, u64)>, cut: u64) -> Seq<(u64, u64)>
    decreases q.len(),
{
    if q.len() > 0 && q[0].0 < cut {
        pop_expired(q.drop_first(), cut)
    } else {
        q
    }
}

/// Number of moves strictly above `threshold`.
pub open spec fn count_above(s: Seq<(u64, u64)>, threshold: u64) -> nat
    decreases s.len(),
{
    if s.len() == 0 {
        0
    } else {
        count_above(s.drop_last(), threshold) + (if lt_bits(threshold, s.last().1) { 1nat } else { 0nat })
    }
}

/// Counting moves above a threshold: none in an empty window, and a move
/// appended adds one exactly when it is strictly above the threshold.
pub proof fn lemma_count_above_push(s: Seq<(u64, u64)>, x: (u64, u64), threshold: u64)
    ensures
        count_above(Seq::<(u64, u64)>::empty(), threshold) == 0,
        count_above(s.push(x), threshold) == count_above(s, threshold) + (if lt_bits(threshold, x.1) {
            1int
        } else {
            0int
        }),
{
    assert(s.push(x).drop_last() =~= s);
}

/// The count of moves above a threshold is the length of the subsequence of
/// those moves; it is the whole length when every move is above, and zero
/// when none is.
pub proof fn lemma_count_above_is_filter_len(s: Seq<(u64, u64)>, threshold: u64)
    ensures
        count_above(s, threshold) == s.filter(|e: (u64, u64)| lt_bits(threshold, e.1)).len(),
        count_above(s, threshold) <= s.len(),
        (forall|i: int| 0 <= i < s.len() ==> lt_bits(threshold, (#[trigger] s[i]).1)) ==> count_above(s, threshold)
            == s.len(),
        (forall|i: int| 0 <= i < s.len() ==> !lt_bits(threshold, (#[trigger] s[i]).1)) ==> count_above(s, threshold)
            == 0,
    decreases s.len(),
{
    let pred = |e: (u64, u64)| lt_bits(threshold, e.1);
    if s.len() == 0 {
        reveal(Seq::filter);
        assert(s.filter(pred).len() == 0);
    } else {
        let t = s.drop_last();
        lemma_count_above_is_filter_len(t, threshold);
        assert(t.push(s.last()) =~= s);
        t.lemma_filter_push(s.last(), pred);
        assert forall|i: int| 0 <= i < t.len() implies (#[trigger] t[i]) == s[i] by {}
        if forall|i: int| 0 <= i < s.len() ==> lt_bits(threshold, (#[trigger] s[i]).1) {
            assert forall|i: int| 0 <= i < t.len() implies lt_bits(threshold, (#[trigger] t[i]).1) by {
                assert(t[i] == s[i]);
            }
            assert(lt_bits(threshold, s[s.len() - 1].1));
        }
        if forall|i: int| 0 <= i < s.len() ==> !lt_bits(threshold, (#[trigger] s[i]).1) {
            assert forall|i: int| 0 <= i < t.len() implies !lt_bits(threshold, (#[trigger] t[i]).1) by {
                assert(t[i] == s[i]);
            }
            assert(!lt_bits(threshold, s[s.len() - 1].1));
        }
    }
}

/// The first queue index whose move index is at least `i`.
proof fn lemma_first_at_or_after(p: Seq<int>, i: int) -> (j: int)
    requires
        p.len() > 0,
        p[p.len() - 1] >= i,
        forall|a: int, b: int| 0 <= a < b < p.len() ==> #[trigger] p[a] < #[trigger] p[b],
    ensures
        0 <= j < p.len(),
        p[j] >= i,
        j == 0 || p[j - 1] < i,
    decreases p.len(),
{
    if p.len() == 1 || p[p.len() - 2] < i {
        p.len() - 1
    } else {
        let q = p.drop_last();
        assert forall|a: int, b: int| 0 <= a < b < q.len() implies #[trigger] q[a] < #[trigger] q[b] by {
            assert(q[a] == p[a] && q[b] == p[b]);
        }
        let j = lemma_first_at_or_after(q, i);
        assert(q[j] == p[j]);
        if j > 0 {
            assert(q[j - 1] == p[j - 1]);
        }
        j
    }
}

/// A prefix of timestamps in order is in order.
proof fn lemma_prefix_in_order(h: Seq<(u64, u64)>, x: (u64, u64))
    ensures
        stamps_in_order(h.push(x)) ==> stamps_in_order(h),
{
    if stamps_in_order(h.push(x)) {
        let g = h.push(x);
        assert forall|i: int, j: int| 0 <= i < j < h.len() implies #[trigger] h[i].0 <= #[trigger] h[j].0 by {
            assert(h[i] == g[i] && h[j] == g[j]);
        }
    }
}

/// Along a queue of numbers, every entry is `<=` the first.
proof fn lemma_queue_front_is_max(q: Seq<(u64, u64)>, j: int)
    requires
        0 <= j < q.len(),
        forall|k: int| 0 <= k < q.len() - 1 ==> !le_bits((#[trigger] q[k]).1, q[k + 1].1),
        forall|k: int| 0 <= k < q.len() ==> !nan_bits((#[trigger] q[k]).1),
    ensures
        le_bits(q[j].1, q[0].1),
    decreases j,
{
    if j > 0 {
        lemma_queue_front_is_max(q, j - 1);
        assert(!le_bits(q[j - 1].1, q[j].1));
        assert(!nan_bits(q[j].1) && !nan_bits(q[j - 1].1));
        crate::ieee::lemma_float_order(q[j].1, q[j - 1].1, q[0].1);
    }
}

/// Prices, moves and the monotone queue of moves of a time window.
pub struct JumpWindow {
    threshold_bps: u64,
    prices: TimeWindow<u64>,
    moves: TimeWindow<u64>,
    max_queue: VecDeque<(u64, u64)>,
    positions: Ghost<Seq<int>>,
}

impl JumpWindow {
    pub closed spec fn spec_threshold(&self) -> u64 {
        self.threshold_bps
    }

    pub closed spec fn price_window(&self) -> TimeWindow<u64> {
        self.prices
    }

    pub closed spec fn move_window(&self) -> TimeWindow<u64> {
        self.moves
    }

    /// The monotone queue, as (timestamp, move) pairs.
    pub closed spec fn queue(&self) -> Seq<(u64, u64)> {
        self.max_queue@
    }

    pub closed spec fn positions(&self) -> Seq<int> {
        self.positions@
    }

    /// Prices came with nondecreasing timestamps.
    pub open spec fn in_order(&self) -> bool {
        stamps_in_order(self.price_window().history())
    }

    /// The largest move of the window, `0.0` when there is none.
    pub open spec fn max_move_value(&self) -> u64 {
        if self.queue().len() == 0 {
            POSITIVE_ZERO
        } else {
            self.queue()[0].1
        }
    }

    pub open spec fn wf(&self) -> bool {
        let ph = self.price_window().history();
        let mh = self.move_window().history();
        &&& self.price_window().wf()
        &&& self.move_window().wf()
        &&& self.move_window().spec_window_ns() == self.price_window().spec_window_ns()
        &&& ph.len() == 0 ==> mh.len() == 0
        &&& ph.len() > 0 ==> mh.len() == ph.len() - 1
        &&& forall|i: int| 0 <= i < mh.len() ==> (#[trigger] mh[i]).0 == ph[i + 1].0
        &&& queue_tracks(self.move_window().contents(), self.queue(), self.positions())
        &&& self.in_order() ==> queue_covers(self.move_window().contents(), self.queue(), self.positions())
    }

    /// Empty windows of `window_ms` milliseconds; moves above
    /// `threshold_bps` count as jumps.
    pub fn new(window_ms: u64, threshold_bps: u64) -> (r: JumpWindow)
        requires
            window_ms <= u64::MAX / MS_TO_NS,
        ensures
            r.wf(),
            r.spec_threshold() == threshold_bps,
            r.price_window().spec_window_ns() == window_ms * MS_TO_NS,
            r.price_window().history().len() == 0,
            r.move_window().contents().len() == 0,
    {
        JumpWindow {
            threshold_bps,
            prices: TimeWindow::new(window_ms),
            moves: TimeWindow::new(window_ms),
            max_queue: VecDeque::new(),
            positions: Ghost(Seq::empty()),
        }
    }

    /// Length of the window in milliseconds.
    pub fn window_ms(&self) -> (r: u64)
        requires
            self.wf(),
        ensures
            r * MS_TO_NS == self.price_window().spec_window_ns(),
    {
        self.prices.window_ms()
    }

    /// The jump threshold (binary64 bits).
    pub fn threshold_bps(&self) -> (r: u64)
        ensures
            r == self.spec_threshold(),
    {
        self.threshold_bps
    }

    /// Prices `<= 0.0` (and only those) are ignored.
    pub fn accepts(price: u64) -> (r: bool)
        ensures
            r == !le_bits(price, POSITIVE_ZERO),
    {
        !less_eq(price, POSITIVE_ZERO)
    }

    /// The latest accepted price, if any.
    pub fn last_price(&self) -> (r: Option<u64>)
        requires
            self.wf(),
        ensures
            r == (if self.price_window().contents().len() == 0 {
                None::<u64>
            } else {
                Some(self.price_window().contents().last().1)
            }),
    {
        let n = self.prices.len();
        if n == 0 {
            None
        } else {
            Some(self.prices.get(n - 1).1)
        }
    }

    /// Number of moves of the window strictly above the threshold.
    pub fn jump_count(&self) -> (r: usize)
        requires
            self.wf(),
        ensures
            r == count_above(self.move_window().contents(), self.spec_threshold()),
    {
        let n = self.moves.len();
        let mut count: usize = 0;
        let mut i: usize = 0;
        while i < n
            invariant
                n == self.moves.contents().len(),
                i <= n,
                count <= i,
                count == count_above(self.moves.contents().take(i as int), self.threshold_bps),
            decreases n - i,
        {
            let e = self.moves.get(i);
            proof {
                let s = self.moves.contents().take(i + 1);
                assert(s.drop_last() =~= self.moves.contents().take(i as int));
                assert(s.last() == self.moves.contents()[i as int]);
            }
            if less(self.threshold_bps, e.1) {
                count = count + 1;
            }
            i = i + 1;
        }
        proof {
            assert(self.moves.contents().take(n as int) =~= self.moves.contents());
        }
        count
    }

    /// The largest move of the window (front of the monotone queue), or the
    /// bits of `0.0` when the window holds no move.
    pub fn max_move_bps(&self) -> (r: u64)
        requires
            self.wf(),
        ensures
            r == self.max_move_value(),
    {
        if self.max_queue.len() == 0 {
            POSITIVE_ZERO
        } else {
            self.max_queue[0].1
        }
    }

    /// Whether the last queue entry is `<=` the move `m`.
    fn back_at_most(&self, m: u64) -> (r: bool)
        ensures
            r == (self.queue().len() > 0 && le_bits(self.queue().last().1, m)),
    {
        let n = self.max_queue.len();
        n > 0 && less_eq(self.max_queue[n - 1].1, m)
    }

    /// Whether the first queue entry is stamped before `cut`.
    fn front_before(&self, cut: u64) -> (r: bool)
        ensures
            r == (self.queue().len() > 0 && self.queue()[0].0 < cut),
    {
        self.max_queue.len() > 0 && self.max_queue[0].0 < cut
    }

    /// Records `price` at `timestamp_ns`, with `move_bps` the move from the
    /// latest price to it (present exactly when there is a latest price),
    /// then drops the prices, moves and queue entries that fell out of the
    /// window. A price that is not above `0.0` is ignored.
    #[verifier::spinoff_prover]
    #[verifier::rlimit(60)]
    pub fn record(&mut self, timestamp_ns: u64, price: u64, move_bps: Option<u64>)
        requires
            old(self).wf(),
            move_bps is Some <==> old(self).price_window().contents().len() > 0,
        ensures
            final(self).wf(),
            le_bits(price, POSITIVE_ZERO) ==> *final(self) == *old(self),
            final(self).spec_threshold() == old(self).spec_threshold(),
            final(self).price_window().spec_window_ns() == old(self).price_window().spec_window_ns(),
            !le_bits(price, POSITIVE_ZERO) ==> final(self).price_window().history()
                == old(self).price_window().history().push((timestamp_ns, price)),
            !le_bits(price, POSITIVE_ZERO) ==> final(self).move_window().history()
                == with_move(old(self).move_window().history(), timestamp_ns, move_bps),
            !le_bits(price, POSITIVE_ZERO) ==> ({
                let cut = cutoff(old(self).price_window().spec_window_ns(), timestamp_ns);
                let prices = old(self).price_window().contents().push((timestamp_ns, price));
                let kept = final(self).price_window().contents();
                let moves = with_move(old(self).move_window().contents(), timestamp_ns, move_bps);
                let kept_moves = final(self).move_window().contents();
                &&& 1 <= kept.len() <= prices.len()
                &&& kept == prices.skip(prices.len() - kept.len())
                &&& forall|i: int| 0 <= i < prices.len() - kept.len() ==> (#[trigger] prices[i]).0 < cut
                &&& kept[0].0 >= cut
                &&& kept_moves.len() <= moves.len()
                &&& kept_moves == moves.skip(moves.len() - kept_moves.len())
                &&& forall|i: int| 0 <= i < moves.len() - kept_moves.len() ==> (#[trigger] moves[i]).0 < cut
                &&& kept_moves.len() > 0 ==> kept_moves[0].0 >= cut
                &&& final(self).queue() == pop_expired(
                    match move_bps {
                        Some(m) => pop_dominated(old(self).queue(), m).push((timestamp_ns, m)),
                        None => old(self).queue(),
                    },
                    cut,
                )
            }),
    {
        if !Self::accepts(price) {
            return;
        }
        let ghost ph0 = self.prices.history();
        let ghost mh0 = self.moves.history();
        let ghost m0 = self.moves.contents();
        let ghost q0 = self.max_queue@;
        let ghost p0 = self.positions@;
        let cut = cutoff_of(self.prices.window_ns(), timestamp_ns);
        let ghost mut m1 = m0;
        let ghost mut a: int = 0;
        match move_bps {
            Some(m) => {
                let _dropped = self.moves.insert(timestamp_ns, m);
                proof {
                    m1 = m0.push((timestamp_ns, m));
                    a = m1.len() - self.moves.contents().len();
                }
                let ghost mut t: int = q0.len() as int;
                assert(q0.take(t) =~= q0);
                assert(p0.take(t) =~= p0);
                let ghost moves1 = self.moves;
                let ghost prices0 = self.prices;
                let ghost thr = self.threshold_bps;
                while self.back_at_most(m)
                    invariant
                        self.moves == moves1,
                        self.prices == prices0,
                        self.threshold_bps == thr,
                        0 <= t <= q0.len(),
                        self.max_queue@ == q0.take(t),
                        self.positions@ == p0.take(t),
                        pop_dominated(q0, m) == pop_dominated(q0.take(t), m),
                        forall|j: int| t <= j < q0.len() ==> le_bits((#[trigger] q0[j]).1, m),
                    decreases self.max_queue@.len(),
                {
                    let _ = self.max_queue.pop_back();
                    proof {
                        assert(q0.take(t - 1) =~= q0.take(t).subrange(0, t - 1));
                        assert(q0.take(t).drop_last() =~= q0.take(t - 1));
                        self.positions@ = p0.take(t - 1);
                        t = t - 1;
                    }
                }
                self.max_queue.push_back((timestamp_ns, m));
                proof {
                    self.positions@ = p0.take(t).push(m0.len() as int);
                    if t > 0 {
                        assert(q0.take(t).last() == q0[t - 1]);
                    }
                    lemma_after_push(m0, q0, p0, t, (timestamp_ns, m));
                    lemma_prefix_in_order(ph0, (timestamp_ns, price));
                }
            },
            None => {
                proof {
                    assert(m0.len() == 0) by {
                        assert(ph0.len() == 0);
                        assert(mh0.len() == 0);
                    }
                    lemma_prefix_in_order(ph0, (timestamp_ns, price));
                }
            },
        }
        let ghost q1 = self.max_queue@;
        let ghost p1 = self.positions@;
        let ghost m2 = self.moves.contents();
        assert(queue_tracks(m1, q1, p1));
        assert(stamps_in_order(ph0.push((timestamp_ns, price))) ==> queue_covers(m1, q1, p1));
        assert(m2 == m1.skip(a));
        let _dropped_prices = self.prices.insert(timestamp_ns, price);
        let ghost mut b: int = 0;
        assert(q1.skip(0) =~= q1);
        assert(p1.skip(0) =~= p1);
        let ghost moves2 = self.moves;
        let ghost prices2 = self.prices;
        let ghost thr2 = self.threshold_bps;
        while self.front_before(cut)
            invariant
                self.moves == moves2,
                self.prices == prices2,
                self.threshold_bps == thr2,
                0 <= b <= q1.len(),
                self.max_queue@ == q1.skip(b),
                self.positions@ == p1.skip(b),
                pop_expired(q1, cut) == pop_expired(q1.skip(b), cut),
                forall|j: int| 0 <= j < b ==> (#[trigger] q1[j]).0 < cut,
            decreases self.max_queue@.len(),
        {
            let _ = self.max_queue.pop_front();
            proof {
                assert(q1.skip(b + 1) =~= q1.skip(b).subrange(1, q1.skip(b).len() as int));
                assert(q1.skip(b).drop_first() =~= q1.skip(b + 1));
                self.positions@ = p1.skip(b + 1);
                b = b + 1;
            }
        }
        proof {
            self.positions@ = p1.skip(b).map_values(|x: int| x - a);
            let ph = self.prices.history();
            let mh = self.moves.history();
            assert(cut == cutoff(self.prices.spec_window_ns(), timestamp_ns));
            assert forall|i: int| 0 <= i < mh.len() implies (#[trigger] mh[i]).0 == ph[i + 1].0 by {
                if i < mh0.len() {
                    assert(mh[i] == mh0[i]);
                    assert(ph[i + 1] == ph0[i + 1]);
                }
            }
            if q1.len() > 0 {
                assert(p1[0] < m1.len());
                assert(q1[q1.len() - 1].0 == timestamp_ns) by {
                    assert(m1[p1[q1.len() - 1]] == q1[q1.len() - 1]);
                    assert(m1.last().0 == timestamp_ns) by {
                        if move_bps is None {
                            assert(m1.len() == 0);
                        }
                    }
                }
            }
            if b < q1.len() {
                assert(q1.skip(b)[0] == q1[b]);
            }
            if a < m1.len() {
                assert(m2[0] == m1[a]);
            }
            let ordered = stamps_in_order(ph);
            if ordered {
                lemma_moves_in_order(ph, mh);
                lemma_suffix_in_order(mh, m1);
            }
            lemma_after_evict(m1, q1, p1, a, b, cut, ordered);
        }
    }
}

/// Timestamps of moves follow those of prices, so they are in order when
/// the prices' are.
proof fn lemma_moves_in_order(ph: Seq<(u64, u64)>, mh: Seq<(u64, u64)>)
    requires
        stamps_in_order(ph),
        ph.len() == 0 ==> mh.len() == 0,
        ph.len() > 0 ==> mh.len() == ph.len() - 1,
        forall|i: int| 0 <= i < mh.len() ==> (#[trigger] mh[i]).0 == ph[i + 1].0,
    ensures
        stamps_in_order(mh),
{
    assert forall|i: int, j: int| 0 <= i < j < mh.len() implies #[trigger] mh[i].0 <= #[trigger] mh[j].0 by {
        assert(mh[i].0 == ph[i + 1].0 && mh[j].0 == ph[j + 1].0);
    }
}

/// A suffix of a history in order is in order.
proof fn lemma_suffix_in_order(h: Seq<(u64, u64)>, c: Seq<(u64, u64)>)
    requires
        stamps_in_order(h),
        c.len() <= h.len(),
        forall|i: int| 0 <= i < c.len() ==> #[trigger] c[i] == h[h.len() - c.len() + i],
    ensures
        stamps_in_order(c),
{
    assert forall|i: int, j: int| 0 <= i < j < c.len() implies #[trigger] c[i].0 <= #[trigger] c[j].0 by {
        assert(c[i] == h[h.len() - c.len() + i]);
        assert(c[j] == h[h.len() - c.len() + j]);
    }
}

/// Popping the entries `<=` the new move off the back of the queue and
/// pushing the move keeps the queue tracking the moves, and covering them.
proof fn lemma_after_push(m0: Seq<(u64, u64)>, q0: Seq<(u64, u64)>, p0: Seq<int>, t: int, e: (u64, u64))
    requires
        queue_tracks(m0, q0, p0),
        0 <= t <= q0.len(),
        forall|j: int| t <= j < q0.len() ==> le_bits((#[trigger] q0[j]).1, e.1),
        t > 0 ==> !le_bits(q0[t - 1].1, e.1),
    ensures
        queue_tracks(m0.push(e), q0.take(t).push(e), p0.take(t).push(m0.len() as int)),
        queue_covers(m0, q0, p0) ==> queue_covers(m0.push(e), q0.take(t).push(e), p0.take(t).push(m0.len() as int)),
{
    lemma_push_tracks(m0, q0, p0, t, e);
    if queue_covers(m0, q0, p0) {
        lemma_push_covers(m0, q0, p0, t, e);
    }
}

proof fn lemma_push_tracks(m0: Seq<(u64, u64)>, q0: Seq<(u64, u64)>, p0: Seq<int>, t: int, e: (u64, u64))
    requires
        queue_tracks(m0, q0, p0),
        0 <= t <= q0.len(),
        t > 0 ==> !le_bits(q0[t - 1].1, e.1),
    ensures
        queue_tracks(m0.push(e), q0.take(t).push(e), p0.take(t).push(m0.len() as int)),
{
    let m1 = m0.push(e);
    let q1 = q0.take(t).push(e);
    let p1 = p0.take(t).push(m0.len() as int);
    assert forall|j: int| 0 <= j < q1.len() implies 0 <= #[trigger] p1[j] < m1.len() && m1[p1[j]] == q1[j] by {
        if j < t {
            assert(p1[j] == p0[j] && q1[j] == q0[j]);
        }
    }
    assert forall|j: int, k: int| 0 <= j < k < q1.len() implies #[trigger] p1[j] < #[trigger] p1[k] by {
        if k < t {
            assert(p1[j] == p0[j] && p1[k] == p0[k]);
        } else {
            assert(p1[j] == p0[j]);
        }
    }
    assert forall|j: int| 0 <= j < q1.len() - 1 implies !le_bits((#[trigger] q1[j]).1, q1[j + 1].1) by {
        if j + 1 < t {
            assert(q1[j] == q0[j] && q1[j + 1] == q0[j + 1]);
        } else {
            assert(q1[j] == q0[t - 1]);
        }
    }
}

proof fn lemma_push_covers(m0: Seq<(u64, u64)>, q0: Seq<(u64, u64)>, p0: Seq<int>, t: int, e: (u64, u64))
    requires
        queue_tracks(m0, q0, p0),
        queue_covers(m0, q0, p0),
        0 <= t <= q0.len(),
        forall|j: int| t <= j < q0.len() ==> le_bits((#[trigger] q0[j]).1, e.1),
    ensures
        queue_covers(m0.push(e), q0.take(t).push(e), p0.take(t).push(m0.len() as int)),
{
    let m1 = m0.push(e);
    let q1 = q0.take(t).push(e);
    let p1 = p0.take(t).push(m0.len() as int);
    assert forall|i: int, j: int|
        0 <= i < m1.len() && 0 <= j < q1.len() && p1[j] >= i && (j == 0 || p1[j - 1] < i) && !nan_bits(
            m1[i].1,
        ) implies le_bits((#[trigger] m1[i]).1, (#[trigger] q1[j]).1) by {
        if j < t {
            assert(p1[j] == p0[j] && q1[j] == q0[j] && m1[i] == m0[i]);
            if j > 0 {
                assert(p1[j - 1] == p0[j - 1]);
            }
        } else if i == m0.len() {
            crate::ieee::lemma_float_order(e.1, e.1, e.1);
        } else {
            assert(m1[i] == m0[i]);
            let j0 = lemma_first_at_or_after(p0, i);
            assert(j0 >= t) by {
                if j0 < t {
                    if j0 < j - 1 {
                        assert(p0[j0] < p0[j - 1]);
                    }
                    assert(p1[j - 1] == p0[j - 1]);
                }
            }
            assert(le_bits(m0[i].1, q0[j0].1));
            assert(le_bits(q0[j0].1, e.1));
            crate::ieee::lemma_float_order(m0[i].1, q0[j0].1, e.1);
        }
    }
}

/// Dropping the `a` oldest moves and the `b` oldest queue entries, all
/// stamped before `cut`, keeps the queue tracking the moves, and, when the
/// moves are in timestamp order, covering them.
proof fn lemma_after_evict(
    m1: Seq<(u64, u64)>,
    q1: Seq<(u64, u64)>,
    p1: Seq<int>,
    a: int,
    b: int,
    cut: u64,
    ordered: bool,
)
    requires
        queue_tracks(m1, q1, p1),
        0 <= a <= m1.len(),
        forall|i: int| 0 <= i < a ==> (#[trigger] m1[i]).0 < cut,
        a < m1.len() ==> m1[a].0 >= cut,
        m1.len() > 0 ==> a < m1.len(),
        0 <= b <= q1.len(),
        forall|j: int| 0 <= j < b ==> (#[trigger] q1[j]).0 < cut,
        b < q1.len() ==> q1[b].0 >= cut,
        q1.len() > 0 ==> q1[q1.len() - 1].0 >= cut,
        ordered ==> queue_covers(m1, q1, p1) && stamps_in_order(m1),
    ensures
        queue_tracks(m1.skip(a), q1.skip(b), p1.skip(b).map_values(|x: int| x - a)),
        ordered ==> queue_covers(m1.skip(a), q1.skip(b), p1.skip(b).map_values(|x: int| x - a)),
{
    let m2 = m1.skip(a);
    let q2 = q1.skip(b);
    let p2 = p1.skip(b).map_values(|x: int| x - a);
    if q1.len() > 0 {
        assert(b < q1.len()) by {
            if b == q1.len() {
                assert(q1[q1.len() - 1].0 < cut);
            }
        }
        assert(p1[b] >= a) by {
            if p1[b] < a {
                assert(m1[p1[b]] == q1[b]);
            }
        }
    }
    assert forall|j: int| 0 <= j < q2.len() implies 0 <= #[trigger] p2[j] < m2.len() && m2[p2[j]] == q2[j] by {
        assert(q2[j] == q1[b + j]);
        assert(p2[j] == p1[b + j] - a);
        if j > 0 {
            assert(p1[b] < p1[b + j]);
        }
        assert(m2[p1[b + j] - a] == m1[p1[b + j]]);
    }
    assert forall|j: int, k: int| 0 <= j < k < q2.len() implies #[trigger] p2[j] < #[trigger] p2[k] by {
        assert(p1[b + j] < p1[b + k]);
    }
    assert forall|j: int| 0 <= j < q2.len() - 1 implies !le_bits((#[trigger] q2[j]).1, q2[j + 1].1) by {
        assert(q2[j] == q1[b + j] && q2[j + 1] == q1[b + j + 1]);
    }
    if m2.len() > 0 {
        assert(q1.len() > 0) by {
            assert(p1[q1.len() - 1] == m1.len() - 1);
        }
        assert(p2[q2.len() - 1] == p1[q1.len() - 1] - a);
    }
    if ordered {
        assert forall|i: int, j: int|
            0 <= i < m2.len() && 0 <= j < q2.len() && p2[j] >= i && (j == 0 || p2[j - 1] < i) && !nan_bits(
                m2[i].1,
            ) implies le_bits((#[trigger] m2[i]).1, (#[trigger] q2[j]).1) by {
            let i1 = i + a;
            let j1 = j + b;
            assert(m2[i] == m1[i1]);
            assert(q2[j] == q1[j1]);
            assert(p2[j] == p1[j1] - a);
            if j == 0 && b > 0 {
                assert(p1[b - 1] < i1) by {
                    if p1[b - 1] >= i1 {
                        assert(m1[p1[b - 1]] == q1[b - 1]);
                        assert(m1[i1].0 <= m1[p1[b - 1]].0);
                        assert(m1[a].0 <= m1[i1].0);
                    }
                }
            }
            if j > 0 {
                assert(p2[j - 1] == p1[j1 - 1] - a);
            }
        }
    }
}

/// When prices came in order and no move of the window is NaN, the reported
/// largest move is `>=` every move of the window and is one of them (or
/// `0.0` when the window holds no move).
pub proof fn lemma_max_move_is_window_max(w: &JumpWindow)
    requires
        w.wf(),
        w.in_order(),
        forall|i: int| 0 <= i < w.move_window().contents().len() ==> !nan_bits((#[trigger] w.move_window().contents()[i]).1),
    ensures
        w.move_window().contents().len() == 0 ==> w.max_move_value() == POSITIVE_ZERO,
        forall|i: int| 0 <= i < w.move_window().contents().len() ==> le_bits(
            (#[trigger] w.move_window().contents()[i]).1,
            w.max_move_value(),
        ),
        w.move_window().contents().len() > 0 ==> exists|i: int|
            0 <= i < w.move_window().contents().len() && (#[trigger] w.move_window().contents()[i]).1 == w.max_move_value(),
{
    let m = w.move_window().contents();
    let q = w.queue();
    let p = w.positions();
    if m.len() > 0 {
        assert(q.len() > 0);
        assert forall|k: int| 0 <= k < q.len() implies !nan_bits((#[trigger] q[k]).1) by {
            assert(m[p[k]] == q[k]);
        }
        assert forall|i: int| 0 <= i < m.len() implies le_bits((#[trigger] m[i]).1, w.max_move_value()) by {
            let j = lemma_first_at_or_after(p, i);
            assert(le_bits(m[i].1, q[j].1));
            lemma_queue_front_is_max(q, j);
            crate::ieee::lemma_float_order(m[i].1, q[j].1, q[0].1);
        }
        assert(m[p[0]] == q[0]);
    } else {
        assert(q.len() == 0) by {
            if q.len() > 0 {
                assert(p[0] < m.len());
            }
        }
    }
}

} // verus!
