//! One side of a level-2 order book: price levels kept in price priority,
//! at most `top_k` of them, each with its size and the running totals of
//! quantity and of price times quantity from the best level down.
//!
//! Prices, sizes and totals are binary64 values held by their bit patterns;
//! the running totals are computed by the caller in floating point and
//! stored with [`Ladder::set_cumulative`].
use vstd::prelude::*;
use crate::ieee::{is_nan, is_zero, is_positive, less, less_eq, lt_bits, le_bits, eq_bits, nan_bits, zero_bits, positive_bits, POSITIVE_ZERO};

verus! {

/// `a` comes strictly before `b` in price priority: higher first on the bid
/// side (`descending`), lower first on the ask side.
pub open spec fn ahead(descending: bool, a: u64, b: u64) -> bool {
    if descending {
        lt_bits(b, a)
    } else {
        lt_bits(a, b)
    }
}

/// No level comes strictly before an earlier one.
pub open spec fn in_priority(descending: bool, prices: Seq<u64>) -> bool {
    forall|i: int, j: int|
        0 <= i < j < prices.len() ==> !ahead(descending, #[trigger] prices[j], #[trigger] prices[i])
}

/// `pos` splits `prices` into the levels strictly ahead of `price` and the
/// others.
pub open spec fn splits_at(descending: bool, prices: Seq<u64>, price: u64, pos: int) -> bool {
    &&& 0 <= pos <= prices.len()
    &&& forall|i: int| 0 <= i < pos ==> ahead(descending, #[trigger] prices[i], price)
    &&& forall|i: int| pos <= i < prices.len() ==> !ahead(descending, #[trigger] prices[i], price)
}

/// The first `k` elements of `s`, or all of them when there are fewer.
pub open spec fn clip<T>(s: Seq<T>, k: int) -> Seq<T> {
    if s.len() > k {
        s.take(k)
    } else {
        s
    }
}

/// `i` is where the running quantities stop being below `qty`: every total
/// before it is below, and the total at it (if any) is not.
pub open spec fn reach_boundary(cum: Seq<u64>, qty: u64, i: int) -> bool {
    &&& 0 <= i <= cum.len()
    &&& (i == 0 || lt_bits(cum[i - 1], qty))
    &&& (i == cum.len() || !lt_bits(cum[i], qty))
}

/// Running quantities that never decrease. When there are two or more, none
/// of them is NaN; a single one may be.
pub open spec fn nondecreasing(cum: Seq<u64>) -> bool {
    forall|a: int, b: int| 0 <= a < b < cum.len() ==> le_bits(#[trigger] cum[a], #[trigger] cum[b])
}

/// Every level comes strictly before each later one, so no two levels share
/// a price.
pub open spec fn strictly_in_priority(descending: bool, prices: Seq<u64>) -> bool {
    forall|i: int, j: int|
        0 <= i < j < prices.len() ==> ahead(descending, #[trigger] prices[i], #[trigger] prices[j])
}

/// The level at `pos` has exactly the price `price`.
pub open spec fn matches_level(prices: Seq<u64>, pos: int, price: u64) -> bool {
    0 <= pos < prices.len() && eq_bits(prices[pos], price)
}

/// A side as a stream of updates should leave it: distinct prices in strict
/// price priority, none of them NaN, and every size above `0.0`.
pub open spec fn sound_side(l: Ladder) -> bool {
    &&& strictly_in_priority(l.spec_descending(), l.prices_view())
    &&& forall|i: int| 0 <= i < l.prices_view().len() ==> !nan_bits(#[trigger] l.prices_view()[i])
    &&& forall|i: int| 0 <= i < l.sizes_view().len() ==> positive_bits(#[trigger] l.sizes_view()[i])
}

/// What a level update does to a side: see [`Ladder::apply`].
pub open spec fn level_update(
    before: Ladder,
    after: Ladder,
    pos: int,
    same_level: bool,
    price: u64,
    size: u64,
    from: Option<usize>,
) -> bool {
    let k = before.spec_top_k() as int;
    &&& after.spec_top_k() == before.spec_top_k()
    &&& after.spec_descending() == before.spec_descending()
    &&& same_level && zero_bits(size) ==> {
        &&& from == Some(pos as usize)
        &&& after.prices_view() == before.prices_view().remove(pos)
        &&& after.sizes_view() == before.sizes_view().remove(pos)
        &&& after.cum_qty_view() == before.cum_qty_view().remove(pos)
        &&& after.cum_pq_view() == before.cum_pq_view().remove(pos)
    }
    &&& same_level && !zero_bits(size) ==> {
        &&& from == Some(pos as usize)
        &&& after.prices_view() == before.prices_view()
        &&& after.sizes_view() == before.sizes_view().update(pos, size)
        &&& after.cum_qty_view() == before.cum_qty_view()
        &&& after.cum_pq_view() == before.cum_pq_view()
    }
    &&& !same_level && positive_bits(size) ==> {
        &&& from == Some(pos as usize)
        &&& after.prices_view() == clip(before.prices_view().insert(pos, price), k)
        &&& after.sizes_view() == clip(before.sizes_view().insert(pos, size), k)
        &&& after.cum_qty_view() == clip(before.cum_qty_view().insert(pos, POSITIVE_ZERO), k)
        &&& after.cum_pq_view() == clip(before.cum_pq_view().insert(pos, POSITIVE_ZERO), k)
    }
    &&& !same_level && !positive_bits(size) ==> {
        &&& from == None::<usize>
        &&& after.prices_view() == before.prices_view()
        &&& after.sizes_view() == before.sizes_view()
        &&& after.cum_qty_view() == before.cum_qty_view()
        &&& after.cum_pq_view() == before.cum_pq_view()
    }
}

/// One side of the book.
pub struct Ladder {
    top_k: usize,
    descending: bool,
    prices: Vec<u64>,
    sizes: Vec<u64>,
    cum_qty: Vec<u64>,
    cum_pq: Vec<u64>,
}

impl Ladder {
    /// The four columns have one entry per level, there are at most `top_k`
    /// levels, and they are in price priority.
    pub open spec fn wf(&self) -> bool {
        &&& self.sizes_view().len() == self.prices_view().len()
        &&& self.cum_qty_view().len() == self.prices_view().len()
        &&& self.cum_pq_view().len() == self.prices_view().len()
        &&& self.prices_view().len() <= self.spec_top_k()
        &&& in_priority(self.spec_descending(), self.prices_view())
    }

    pub closed spec fn spec_top_k(&self) -> nat {
        self.top_k as nat
    }

    pub closed spec fn spec_descending(&self) -> bool {
        self.descending
    }

    pub closed spec fn prices_view(&self) -> Seq<u64> {
        self.prices@
    }

    pub closed spec fn sizes_view(&self) -> Seq<u64> {
        self.sizes@
    }

    pub closed spec fn cum_qty_view(&self) -> Seq<u64> {
        self.cum_qty@
    }

    pub closed spec fn cum_pq_view(&self) -> Seq<u64> {
        self.cum_pq@
    }

    /// A side with no levels; bids are kept `descending`, asks ascending.
    pub fn new(top_k: usize, descending: bool) -> (r: Ladder)
        ensures
            r.wf(),
            r.spec_top_k() == top_k,
            r.spec_descending() == descending,
            r.prices_view().len() == 0,
    {
        Ladder {
            top_k,
            descending,
            prices: Vec::new(),
            sizes: Vec::new(),
            cum_qty: Vec::new(),
            cum_pq: Vec::new(),
        }
    }

    pub fn top_k(&self) -> (r: usize)
        ensures
            r == self.spec_top_k(),
    {
        self.top_k
    }

    pub fn is_descending(&self) -> (r: bool)
        ensures
            r == self.spec_descending(),
    {
        self.descending
    }

    /// Number of levels.
    pub fn len(&self) -> (r: usize)
        requires
            self.wf(),
        ensures
            r == self.prices_view().len(),
    {
        self.prices.len()
    }

    /// Price of level `i` (level 0 is the best).
    pub fn price(&self, i: usize) -> (r: u64)
        requires
            self.wf(),
            i < self.prices_view().len(),
        ensures
            r == self.prices_view()[i as int],
    {
        self.prices[i]
    }

    /// Size of level `i`.
    pub fn size(&self, i: usize) -> (r: u64)
        requires
            self.wf(),
            i < self.prices_view().len(),
        ensures
            r == self.sizes_view()[i as int],
    {
        self.sizes[i]
    }

    /// Total quantity of levels `0..=i`, as last stored.
    pub fn cum_qty(&self, i: usize) -> (r: u64)
        requires
            self.wf(),
            i < self.prices_view().len(),
        ensures
            r == self.cum_qty_view()[i as int],
    {
        self.cum_qty[i]
    }

    /// Total of price times quantity of levels `0..=i`, as last stored.
    pub fn cum_pq(&self, i: usize) -> (r: u64)
        requires
            self.wf(),
            i < self.prices_view().len(),
        ensures
            r == self.cum_pq_view()[i as int],
    {
        self.cum_pq[i]
    }

    /// The running quantity of the last level, if there is a level.
    pub fn total_qty(&self) -> (r: Option<u64>)
        requires
            self.wf(),
        ensures
            r == (if self.prices_view().len() == 0 {
                None::<u64>
            } else {
                Some(self.cum_qty_view().last())
            }),
    {
        let n = self.cum_qty.len();
        if n == 0 {
            None
        } else {
            Some(self.cum_qty[n - 1])
        }
    }

    /// Where a level at `price` stands or would stand: the number of levels
    /// strictly ahead of it in price priority (a binary search).
    ///
    /// Comparing with a NaN has no answer, so neither `price` nor a level may
    /// be NaN when there are levels to compare with.
    pub fn locate(&self, price: u64) -> (pos: usize)
        requires
            self.wf(),
            self.prices_view().len() > 0 ==> !nan_bits(price),
            self.prices_view().len() > 0 ==> forall|i: int|
                0 <= i < self.prices_view().len() ==> !nan_bits(#[trigger] self.prices_view()[i]),
        ensures
            splits_at(self.spec_descending(), self.prices_view(), price, pos as int),
    {
        let n = self.prices.len();
        let mut lo: usize = 0;
        let mut hi: usize = n;
        while lo < hi
            invariant
                self.wf(),
                n == self.prices@.len(),
                n > 0 ==> !nan_bits(price),
                forall|i: int| 0 <= i < n ==> !nan_bits(#[trigger] self.prices@[i]),
                lo <= hi <= n,
                forall|i: int| 0 <= i < lo ==> ahead(self.descending, #[trigger] self.prices@[i], price),
                forall|i: int| hi <= i < n ==> !ahead(self.descending, #[trigger] self.prices@[i], price),
            decreases hi - lo,
        {
            let mid = lo + (hi - lo) / 2;
            let p = self.prices[mid];
            let is_ahead = if self.descending {
                less(price, p)
            } else {
                less(p, price)
            };
            if is_ahead {
                assert forall|i: int| 0 <= i < mid + 1 implies ahead(
                    self.descending,
                    #[trigger] self.prices@[i],
                    price,
                ) by {
                    if i < mid {
                        assert(!ahead(self.descending, self.prices@[mid as int], self.prices@[i]));
                    }
                }
                lo = mid + 1;
            } else {
                assert forall|i: int| mid <= i < n implies !ahead(
                    self.descending,
                    #[trigger] self.prices@[i],
                    price,
                ) by {
                    if i > mid {
                        assert(!ahead(self.descending, self.prices@[i], self.prices@[mid as int]));
                    }
                }
                hi = mid;
            }
        }
        lo
    }

    /// Applies a level update at the position that [`Ladder::locate`] gave
    /// for `price`. `same_level` says that the level found there is the level
    /// being updated.
    ///
    /// - same level, size `0.0`: the level is removed;
    /// - same level, any other size: its size is replaced (its price stays);
    /// - new level, size `> 0.0`: it is inserted there, with running totals
    ///   `0.0`, and levels beyond `top_k` are dropped;
    /// - new level, any other size: nothing changes.
    ///
    /// Returns the first level whose running totals are stale (to be stored
    /// again with [`Ladder::set_cumulative`]), or `None` when nothing changed.
    pub fn apply(&mut self, pos: usize, same_level: bool, price: u64, size: u64) -> (from: Option<usize>)
        requires
            old(self).wf(),
            splits_at(old(self).spec_descending(), old(self).prices_view(), price, pos as int),
            same_level ==> pos < old(self).prices_view().len(),
        ensures
            final(self).wf(),
            final(self).spec_top_k() == old(self).spec_top_k(),
            final(self).spec_descending() == old(self).spec_descending(),
            level_update(*old(self), *final(self), pos as int, same_level, price, size, from),
    {
        let ghost d = self.descending;
        let ghost old_prices = self.prices@;
        if same_level {
            if is_zero(size) {
                self.prices.remove(pos);
                self.sizes.remove(pos);
                self.cum_qty.remove(pos);
                self.cum_pq.remove(pos);
                assert forall|i: int, j: int|
                    0 <= i < j < self.prices@.len() implies !ahead(
                    d,
                    #[trigger] self.prices@[j],
                    #[trigger] self.prices@[i],
                ) by {
                    let oi = if i < pos { i } else { i + 1 };
                    let oj = if j < pos { j } else { j + 1 };
                    assert(self.prices@[i] == old_prices[oi]);
                    assert(self.prices@[j] == old_prices[oj]);
                }
            } else {
                self.sizes.set(pos, size);
            }
            Some(pos)
        } else if is_positive(size) {
            self.prices.insert(pos, price);
            self.sizes.insert(pos, size);
            self.cum_qty.insert(pos, POSITIVE_ZERO);
            self.cum_pq.insert(pos, POSITIVE_ZERO);
            assert forall|i: int, j: int|
                0 <= i < j < self.prices@.len() implies !ahead(
                d,
                #[trigger] self.prices@[j],
                #[trigger] self.prices@[i],
            ) by {
                if j == pos {
                    assert(self.prices@[i] == old_prices[i]);
                    assert(ahead(d, old_prices[i], price));
                } else if i == pos {
                    assert(self.prices@[j] == old_prices[j - 1]);
                    assert(!ahead(d, old_prices[j - 1], price));
                } else {
                    let oi = if i < pos { i } else { i - 1 };
                    let oj = if j < pos { j } else { j - 1 };
                    assert(self.prices@[i] == old_prices[oi]);
                    assert(self.prices@[j] == old_prices[oj]);
                }
            }
            if self.prices.len() > self.top_k {
                self.prices.truncate(self.top_k);
                self.sizes.truncate(self.top_k);
                self.cum_qty.truncate(self.top_k);
                self.cum_pq.truncate(self.top_k);
            }
            Some(pos)
        } else {
            None
        }
    }

    /// Stores the running totals of level `i`.
    pub fn set_cumulative(&mut self, i: usize, qty: u64, pq: u64)
        requires
            old(self).wf(),
            i < old(self).prices_view().len(),
        ensures
            final(self).wf(),
            final(self).spec_top_k() == old(self).spec_top_k(),
            final(self).spec_descending() == old(self).spec_descending(),
            final(self).prices_view() == old(self).prices_view(),
            final(self).sizes_view() == old(self).sizes_view(),
            final(self).cum_qty_view() == old(self).cum_qty_view().update(i as int, qty),
            final(self).cum_pq_view() == old(self).cum_pq_view().update(i as int, pq),
    {
        self.cum_qty.set(i, qty);
        self.cum_pq.set(i, pq);
    }

    /// Prices and sizes of the best `k` levels (all of them when there are
    /// fewer).
    pub fn top(&self, k: usize) -> (r: (Vec<u64>, Vec<u64>))
        requires
            self.wf(),
        ensures
            r.0@ == clip(self.prices_view(), k as int),
            r.1@ == clip(self.sizes_view(), k as int),
    {
        let n = if k < self.prices.len() {
            k
        } else {
            self.prices.len()
        };
        let mut ps: Vec<u64> = Vec::new();
        let mut ss: Vec<u64> = Vec::new();
        let mut i: usize = 0;
        while i < n
            invariant
                self.wf(),
                n <= self.prices@.len(),
                n == (if k < self.prices@.len() { k as int } else { self.prices@.len() as int }),
                i <= n,
                ps@ == self.prices@.take(i as int),
                ss@ == self.sizes@.take(i as int),
            decreases n - i,
        {
            ps.push(self.prices[i]);
            ss.push(self.sizes[i]);
            proof {
                assert(self.prices@.take(i as int).push(self.prices@[i as int]) =~= self.prices@.take(i + 1));
                assert(self.sizes@.take(i as int).push(self.sizes@[i as int]) =~= self.sizes@.take(i + 1));
            }
            i = i + 1;
        }
        proof {
            if !(self.prices@.len() > k) {
                assert(self.prices@.take(n as int) =~= self.prices@);
                assert(self.sizes@.take(n as int) =~= self.sizes@);
            }
        }
        (ps, ss)
    }

    /// The level at which a market order of `qty` is completed, walking the
    /// levels from the best: the first level whose running quantity is not
    /// below `qty` (a binary search on the running quantities).
    ///
    /// `None` when there is no level, when `qty <= 0.0`, or when every
    /// running quantity is below `qty` (not enough liquidity).
    pub fn fill_level(&self, qty: u64) -> (r: Option<usize>)
        requires
            self.wf(),
        ensures
            self.prices_view().len() == 0 || le_bits(qty, POSITIVE_ZERO) ==> r == None::<usize>,
            !(self.prices_view().len() == 0 || le_bits(qty, POSITIVE_ZERO)) ==> match r {
                Some(i) => i < self.cum_qty_view().len() && reach_boundary(self.cum_qty_view(), qty, i as int),
                None => reach_boundary(self.cum_qty_view(), qty, self.cum_qty_view().len() as int),
            },
            nondecreasing(self.cum_qty_view()) && !(self.prices_view().len() == 0 || le_bits(qty, POSITIVE_ZERO)) ==> {
                match r {
                    Some(i) => i < self.cum_qty_view().len()
                        && (forall|j: int| 0 <= j < i ==> lt_bits(#[trigger] self.cum_qty_view()[j], qty))
                        && !lt_bits(self.cum_qty_view()[i as int], qty),
                    None => forall|j: int| 0 <= j < self.cum_qty_view().len() ==> lt_bits(#[trigger] self.cum_qty_view()[j], qty),
                }
            },
            nondecreasing(self.cum_qty_view()) && self.prices_view().len() > 0 ==> (r is Some <==> (!le_bits(
                qty,
                POSITIVE_ZERO,
            ) && !lt_bits(self.cum_qty_view().last(), qty))),
    {
        let n = self.prices.len();
        if n == 0 || less_eq(qty, POSITIVE_ZERO) {
            return None;
        }
        let mut lo: usize = 0;
        let mut hi: usize = n;
        while lo < hi
            invariant
                self.wf(),
                n == self.cum_qty@.len(),
                lo <= hi <= n,
                lo == 0 || lt_bits(self.cum_qty@[lo - 1], qty),
                hi == n || !lt_bits(self.cum_qty@[hi as int], qty),
            decreases hi - lo,
        {
            let mid = lo + (hi - lo) / 2;
            if less(self.cum_qty[mid], qty) {
                lo = mid + 1;
            } else {
                hi = mid;
            }
        }
        proof {
            let cum = self.cum_qty@;
            if nondecreasing(cum) {
                assert forall|j: int| 0 <= j < lo implies lt_bits(#[trigger] cum[j], qty) by {
                    if j < lo - 1 {
                        crate::ieee::lemma_float_order(cum[j], cum[lo - 1], qty);
                    }
                }
                assert forall|j: int| lo <= j < n implies !lt_bits(#[trigger] cum[j], qty) by {
                    if j > lo {
                        crate::ieee::lemma_float_order(cum[lo as int], cum[j], qty);
                    }
                }
                if lo < n {
                    assert(!lt_bits(cum[n - 1], qty));
                } else {
                    assert(lt_bits(cum[n - 1], qty));
                }
            }
        }
        if lo == n {
            None
        } else {
            Some(lo)
        }
    }
}

} // verus!
