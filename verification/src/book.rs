//! The price levels of a local level-2 book: bids best (highest) first,
//! asks best (lowest) first, each side limited to `top_k` levels; and
//! `top_n`, the depth over which the book's liquidity is summed.
//!
//! An update of a price level is made in two steps: [`BookLevels::locate`]
//! finds where the level stands, the caller decides whether the level found
//! there is the one updated (a floating-point tolerance test on the prices),
//! and [`BookLevels::apply`] makes the change.
use vstd::prelude::*;
use crate::side::Side;
use crate::ieee::{nan_bits, le_bits, lt_bits, zero_bits, positive_bits, eq_bits, POSITIVE_ZERO};
use crate::ladder::{Ladder, level_update, splits_at, clip, reach_boundary, nondecreasing, ahead, strictly_in_priority, matches_level, sound_side};

verus! {

/// Both sides of the book.
pub struct BookLevels {
    top_n: usize,
    bids: Ladder,
    asks: Ladder,
}

impl BookLevels {
    pub closed spec fn spec_top_n(&self) -> nat {
        self.top_n as nat
    }

    pub closed spec fn spec_bids(&self) -> Ladder {
        self.bids
    }

    pub closed spec fn spec_asks(&self) -> Ladder {
        self.asks
    }

    /// The side on which quotes of `side` rest: bids for buys, asks for
    /// sells.
    pub open spec fn resting_side(&self, side: Side) -> Ladder {
        match side {
            Side::Buy => self.spec_bids(),
            Side::Sell => self.spec_asks(),
        }
    }

    /// The side an order of `side` trades against: asks for buys, bids for
    /// sells.
    pub open spec fn taking_side(&self, side: Side) -> Ladder {
        match side {
            Side::Buy => self.spec_asks(),
            Side::Sell => self.spec_bids(),
        }
    }

    /// Bids descend, asks ascend, both sides share `top_k`.
    pub open spec fn wf(&self) -> bool {
        &&& self.spec_bids().wf()
        &&& self.spec_asks().wf()
        &&& self.spec_bids().spec_descending()
        &&& !self.spec_asks().spec_descending()
        &&& self.spec_bids().spec_top_k() == self.spec_asks().spec_top_k()
    }

    /// An empty book keeping `top_k` levels per side and summing liquidity
    /// over `top_n` levels.
    pub fn new(top_k: usize, top_n: usize) -> (r: BookLevels)
        ensures
            r.wf(),
            r.spec_top_n() == top_n,
            r.spec_bids().spec_top_k() == top_k,
            r.spec_bids().prices_view().len() == 0,
            r.spec_asks().prices_view().len() == 0,
    {
        BookLevels { top_n, bids: Ladder::new(top_k, true), asks: Ladder::new(top_k, false) }
    }

    pub fn top_n(&self) -> (r: usize)
        ensures
            r == self.spec_top_n(),
    {
        self.top_n
    }

    pub fn top_k(&self) -> (r: usize)
        requires
            self.wf(),
        ensures
            r == self.spec_bids().spec_top_k(),
    {
        self.bids.top_k()
    }

    /// The bid side.
    pub fn bids(&self) -> (r: &Ladder)
        ensures
            *r == self.spec_bids(),
    {
        &self.bids
    }

    /// The ask side.
    pub fn asks(&self) -> (r: &Ladder)
        ensures
            *r == self.spec_asks(),
    {
        &self.asks
    }

    /// The side on which quotes of `side` rest.
    pub fn resting(&self, side: Side) -> (r: &Ladder)
        ensures
            *r == self.resting_side(side),
    {
        match side {
            Side::Buy => &self.bids,
            Side::Sell => &self.asks,
        }
    }

    /// The side an order of `side` trades against.
    pub fn taking(&self, side: Side) -> (r: &Ladder)
        ensures
            *r == self.taking_side(side),
    {
        match side {
            Side::Buy => &self.asks,
            Side::Sell => &self.bids,
        }
    }

    /// Number of levels summed for the book's liquidity: `top_n`, or fewer
    /// when a side has fewer levels.
    pub fn depth_levels(&self) -> (r: usize)
        requires
            self.wf(),
        ensures
            r <= self.spec_top_n(),
            r <= self.spec_bids().prices_view().len(),
            r <= self.spec_asks().prices_view().len(),
            r == self.spec_top_n() || r == self.spec_bids().prices_view().len() || r == self.spec_asks().prices_view().len(),
    {
        let mut n = self.top_n;
        if self.bids.len() < n {
            n = self.bids.len();
        }
        if self.asks.len() < n {
            n = self.asks.len();
        }
        n
    }

    /// Best bid and best ask prices, `0.0` (bits 0) for an empty side.
    pub fn best_quotes(&self) -> (r: (u64, u64))
        requires
            self.wf(),
        ensures
            r.0 == (if self.spec_bids().prices_view().len() == 0 {
                POSITIVE_ZERO
            } else {
                self.spec_bids().prices_view()[0]
            }),
            r.1 == (if self.spec_asks().prices_view().len() == 0 {
                POSITIVE_ZERO
            } else {
                self.spec_asks().prices_view()[0]
            }),
    {
        let b = if self.bids.len() == 0 {
            POSITIVE_ZERO
        } else {
            self.bids.price(0)
        };
        let a = if self.asks.len() == 0 {
            POSITIVE_ZERO
        } else {
            self.asks.price(0)
        };
        (b, a)
    }

    /// Best bid, best ask, and their sizes, when both sides have a level and
    /// none of the four is `<= 0.0`; these are what the microprice weighs.
    pub fn touch(&self) -> (r: Option<(u64, u64, u64, u64)>)
        requires
            self.wf(),
        ensures
            ({
                let b = self.spec_bids();
                let a = self.spec_asks();
                let present = b.prices_view().len() > 0 && a.prices_view().len() > 0;
                &&& !present ==> r == None::<(u64, u64, u64, u64)>
                &&& present ==> {
                    let bid1 = b.prices_view()[0];
                    let ask1 = a.prices_view()[0];
                    let bid_qty = b.sizes_view()[0];
                    let ask_qty = a.sizes_view()[0];
                    let all_positive = !le_bits(bid1, POSITIVE_ZERO) && !le_bits(ask1, POSITIVE_ZERO)
                        && !le_bits(bid_qty, POSITIVE_ZERO) && !le_bits(ask_qty, POSITIVE_ZERO);
                    &&& all_positive ==> r == Some((bid1, ask1, bid_qty, ask_qty))
                    &&& !all_positive ==> r == None::<(u64, u64, u64, u64)>
                }
            }),
    {
        if self.bids.len() == 0 || self.asks.len() == 0 {
            return None;
        }
        let bid1 = self.bids.price(0);
        let ask1 = self.asks.price(0);
        let bid_qty = self.bids.size(0);
        let ask_qty = self.asks.size(0);
        if crate::ieee::less_eq(bid1, POSITIVE_ZERO) || crate::ieee::less_eq(ask1, POSITIVE_ZERO)
            || crate::ieee::less_eq(bid_qty, POSITIVE_ZERO) || crate::ieee::less_eq(ask_qty, POSITIVE_ZERO) {
            return None;
        }
        Some((bid1, ask1, bid_qty, ask_qty))
    }

    /// Where a level at `price` stands on the side of `side`.
    pub fn locate(&self, side: Side, price: u64) -> (pos: usize)
        requires
            self.wf(),
            self.resting_side(side).prices_view().len() > 0 ==> !nan_bits(price),
            self.resting_side(side).prices_view().len() > 0 ==> forall|i: int|
                0 <= i < self.resting_side(side).prices_view().len() ==> !nan_bits(
                    #[trigger] self.resting_side(side).prices_view()[i],
                ),
        ensures
            splits_at(
                self.resting_side(side).spec_descending(),
                self.resting_side(side).prices_view(),
                price,
                pos as int,
            ),
    {
        self.resting(side).locate(price)
    }

    /// Applies a level update on the side of `side` at the position that
    /// [`BookLevels::locate`] gave; the other side is untouched.
    pub fn apply(&mut self, side: Side, pos: usize, same_level: bool, price: u64, size: u64) -> (from: Option<usize>)
        requires
            old(self).wf(),
            splits_at(
                old(self).resting_side(side).spec_descending(),
                old(self).resting_side(side).prices_view(),
                price,
                pos as int,
            ),
            same_level ==> pos < old(self).resting_side(side).prices_view().len(),
        ensures
            final(self).wf(),
            final(self).spec_top_n() == old(self).spec_top_n(),
            level_update(
                old(self).resting_side(side),
                final(self).resting_side(side),
                pos as int,
                same_level,
                price,
                size,
                from,
            ),
            final(self).taking_side(side) == old(self).taking_side(side),
    {
        match side {
            Side::Buy => self.bids.apply(pos, same_level, price, size),
            Side::Sell => self.asks.apply(pos, same_level, price, size),
        }
    }

    /// Stores the running totals of level `i` on the side of `side`.
    pub fn set_cumulative(&mut self, side: Side, i: usize, qty: u64, pq: u64)
        requires
            old(self).wf(),
            i < old(self).resting_side(side).prices_view().len(),
        ensures
            final(self).wf(),
            final(self).spec_top_n() == old(self).spec_top_n(),
            final(self).taking_side(side) == old(self).taking_side(side),
            final(self).resting_side(side).spec_top_k() == old(self).resting_side(side).spec_top_k(),
            final(self).resting_side(side).prices_view() == old(self).resting_side(side).prices_view(),
            final(self).resting_side(side).sizes_view() == old(self).resting_side(side).sizes_view(),
            final(self).resting_side(side).cum_qty_view() == old(self).resting_side(side).cum_qty_view().update(
                i as int,
                qty,
            ),
            final(self).resting_side(side).cum_pq_view() == old(self).resting_side(side).cum_pq_view().update(
                i as int,
                pq,
            ),
    {
        match side {
            Side::Buy => self.bids.set_cumulative(i, qty, pq),
            Side::Sell => self.asks.set_cumulative(i, qty, pq),
        }
    }

    /// The level of the side an order of `side` takes from at which an
    /// order of `qty` is completed; see [`Ladder::fill_level`].
    pub fn fill_level(&self, side: Side, qty: u64) -> (r: Option<usize>)
        requires
            self.wf(),
        ensures
            ({
                let l = self.taking_side(side);
                let cum = l.cum_qty_view();
                let untradable = l.prices_view().len() == 0 || le_bits(qty, POSITIVE_ZERO);
                &&& untradable ==> r == None::<usize>
                &&& !untradable ==> match r {
                    Some(i) => i < cum.len() && reach_boundary(cum, qty, i as int),
                    None => reach_boundary(cum, qty, cum.len() as int),
                }
                &&& nondecreasing(cum) && !untradable ==> match r {
                    Some(i) => i < cum.len() && (forall|j: int| 0 <= j < i ==> lt_bits(#[trigger] cum[j], qty))
                        && !lt_bits(cum[i as int], qty),
                    None => forall|j: int| 0 <= j < cum.len() ==> lt_bits(#[trigger] cum[j], qty),
                }
                &&& nondecreasing(cum) && l.prices_view().len() > 0 ==> (r is Some <==> (!le_bits(
                    qty,
                    POSITIVE_ZERO,
                ) && !lt_bits(cum.last(), qty)))
            }),
    {
        self.taking(side).fill_level(qty)
    }
}

/// Updating a level at a new price with a positive size puts that price and
/// size at the position found for it, unless the position lies beyond
/// `top_k` (then nothing changes); the levels ahead of it stay where they
/// were, each level behind it moves back one place with its own price and
/// size, and the number of levels grows by one, up to `top_k`: on a full side
/// the level that was last is the one dropped.
pub proof fn lemma_insert_then_read(
    before: Ladder,
    after: Ladder,
    pos: int,
    price: u64,
    size: u64,
    from: Option<usize>,
)
    requires
        before.wf(),
        0 <= pos <= before.prices_view().len(),
        positive_bits(size),
        level_update(before, after, pos, false, price, size, from),
    ensures
        from == Some(pos as usize),
        pos < before.spec_top_k() ==> after.prices_view()[pos] == price && after.sizes_view()[pos] == size,
        after.prices_view().len() == if before.prices_view().len() + 1 > before.spec_top_k() {
            before.spec_top_k() as int
        } else {
            before.prices_view().len() + 1int
        },
        forall|i: int| 0 <= i < pos && i < after.prices_view().len() ==> after.prices_view()[i] == before.prices_view()[i]
            && after.sizes_view()[i] == before.sizes_view()[i],
        forall|i: int|
            pos < i < after.prices_view().len() ==> after.prices_view()[i] == before.prices_view()[i - 1]
                && after.sizes_view()[i] == before.sizes_view()[i - 1],
        pos >= before.spec_top_k() ==> after.prices_view() == before.prices_view() && after.sizes_view()
            == before.sizes_view(),
{
    let k = before.spec_top_k() as int;
    if pos >= k {
        assert(before.prices_view().insert(pos, price).take(k) =~= before.prices_view());
        assert(before.sizes_view().insert(pos, size).take(k) =~= before.sizes_view());
    }
}

/// Updating the level found at the position with a nonzero size replaces its
/// size and nothing else; with size `0.0` the level goes and the levels
/// behind it move up by one.
pub proof fn lemma_resize_or_remove(
    before: Ladder,
    after: Ladder,
    pos: int,
    price: u64,
    size: u64,
    from: Option<usize>,
)
    requires
        before.wf(),
        0 <= pos < before.prices_view().len(),
        level_update(before, after, pos, true, price, size, from),
    ensures
        from == Some(pos as usize),
        !zero_bits(size) ==> after.prices_view() == before.prices_view() && after.sizes_view()[pos] == size
            && after.prices_view().len() == before.prices_view().len(),
        zero_bits(size) ==> after.prices_view().len() == before.prices_view().len() - 1 && (forall|i: int|
            pos <= i < after.prices_view().len() ==> after.prices_view()[i] == before.prices_view()[i + 1]
                && after.sizes_view()[i] == before.sizes_view()[i + 1]),
        zero_bits(size) ==> forall|i: int|
            0 <= i < pos ==> after.prices_view()[i] == before.prices_view()[i] && after.sizes_view()[i]
                == before.sizes_view()[i],
        !zero_bits(size) ==> after.sizes_view().len() == before.sizes_view().len() && forall|i: int|
            0 <= i < after.sizes_view().len() && i != pos ==> after.sizes_view()[i] == before.sizes_view()[i],
{
}

/// Removing a level that is not in the book (size `0.0` at a new price)
/// leaves the side unchanged.
pub proof fn lemma_remove_missing_is_noop(
    before: Ladder,
    after: Ladder,
    pos: int,
    price: u64,
    size: u64,
    from: Option<usize>,
)
    requires
        zero_bits(size),
        level_update(before, after, pos, false, price, size, from),
    ensures
        from == None::<usize>,
        after.prices_view() == before.prices_view(),
        after.sizes_view() == before.sizes_view(),
{
}

/// A price located on a side either equals the level found at its position,
/// or lies strictly between the levels on either side of that position.
pub proof fn lemma_located_between(l: Ladder, price: u64, pos: int)
    requires
        l.wf(),
        !nan_bits(price),
        forall|i: int| 0 <= i < l.prices_view().len() ==> !nan_bits(#[trigger] l.prices_view()[i]),
        splits_at(l.spec_descending(), l.prices_view(), price, pos),
    ensures
        pos > 0 ==> crate::ladder::ahead(l.spec_descending(), l.prices_view()[pos - 1], price),
        pos < l.prices_view().len() ==> eq_bits(l.prices_view()[pos], price) || crate::ladder::ahead(
            l.spec_descending(),
            price,
            l.prices_view()[pos],
        ),
{
    if pos < l.prices_view().len() {
        crate::ieee::lemma_float_order(l.prices_view()[pos], price, price);
    }
}

/// An update changes no level ahead of the position it returns: prices,
/// sizes and running totals of those levels are as before, so their running
/// totals need no refresh. An update that returns `None` changes nothing.
pub proof fn lemma_update_keeps_levels_ahead(
    before: Ladder,
    after: Ladder,
    pos: int,
    same_level: bool,
    price: u64,
    size: u64,
    from: Option<usize>,
)
    requires
        before.wf(),
        0 <= pos <= before.prices_view().len(),
        same_level ==> pos < before.prices_view().len(),
        level_update(before, after, pos, same_level, price, size, from),
    ensures
        from is None ==> after.prices_view() == before.prices_view() && after.sizes_view() == before.sizes_view()
            && after.cum_qty_view() == before.cum_qty_view() && after.cum_pq_view() == before.cum_pq_view(),
        from is Some ==> from == Some(pos as usize) && forall|i: int|
            0 <= i < pos && i < after.prices_view().len() ==> {
                &&& after.prices_view()[i] == before.prices_view()[i]
                &&& after.sizes_view()[i] == before.sizes_view()[i]
                &&& after.cum_qty_view()[i] == before.cum_qty_view()[i]
                &&& after.cum_pq_view()[i] == before.cum_pq_view()[i]
            },
{
}


/// A position that splits a side's prices around a price is the only one.
pub proof fn lemma_split_is_unique(descending: bool, prices: Seq<u64>, price: u64, a: int, b: int)
    requires
        splits_at(descending, prices, price, a),
        splits_at(descending, prices, price, b),
    ensures
        a == b,
{
    if a < b {
        assert(!ahead(descending, prices[a], price));
    } else if b < a {
        assert(!ahead(descending, prices[b], price));
    }
}

/// An update keeps a side sound: when its prices are distinct, in strict
/// price priority and not NaN, and its sizes are above `0.0`, they still are
/// after an update with a price that is not NaN and a size that is not below
/// `0.0` (nor NaN), provided the level found at the update's position is
/// taken as the level updated whenever it has exactly the update's price.
pub proof fn lemma_update_keeps_side_sound(
    before: Ladder,
    after: Ladder,
    pos: int,
    same_level: bool,
    price: u64,
    size: u64,
    from: Option<usize>,
)
    requires
        before.wf(),
        after.wf(),
        sound_side(before),
        !nan_bits(price),
        le_bits(POSITIVE_ZERO, size),
        splits_at(before.spec_descending(), before.prices_view(), price, pos),
        same_level ==> pos < before.prices_view().len(),
        matches_level(before.prices_view(), pos, price) ==> same_level,
        level_update(before, after, pos, same_level, price, size, from),
    ensures
        sound_side(after),
{
    let d = before.spec_descending();
    let p0 = before.prices_view();
    let s0 = before.sizes_view();
    let p1 = after.prices_view();
    let s1 = after.sizes_view();
    let k = before.spec_top_k() as int;
    if same_level && zero_bits(size) {
        assert forall|i: int, j: int| 0 <= i < j < p1.len() implies ahead(d, #[trigger] p1[i], #[trigger] p1[j]) by {
            let oi = if i < pos { i } else { i + 1 };
            let oj = if j < pos { j } else { j + 1 };
            assert(p1[i] == p0[oi]);
            assert(p1[j] == p0[oj]);
        }
        assert forall|i: int| 0 <= i < p1.len() implies !nan_bits(#[trigger] p1[i]) by {
            let oi = if i < pos { i } else { i + 1 };
            assert(p1[i] == p0[oi]);
        }
        assert forall|i: int| 0 <= i < s1.len() implies positive_bits(#[trigger] s1[i]) by {
            let oi = if i < pos { i } else { i + 1 };
            assert(s1[i] == s0[oi]);
        }
    } else if same_level {
        assert forall|i: int| 0 <= i < s1.len() implies positive_bits(#[trigger] s1[i]) by {
            if i != pos {
                assert(s1[i] == s0[i]);
            }
        }
    } else if positive_bits(size) {
        let q = p0.insert(pos, price);
        let t = s0.insert(pos, size);
        if pos < p0.len() {
            crate::ieee::lemma_float_order(p0[pos], price, price);
        }
        assert forall|i: int, j: int| 0 <= i < j < q.len() implies ahead(d, #[trigger] q[i], #[trigger] q[j]) by {
            if j == pos {
                assert(q[i] == p0[i]);
            } else if i == pos {
                assert(q[j] == p0[j - 1]);
                if j - 1 > pos {
                    assert(ahead(d, p0[pos], p0[j - 1]));
                    crate::ieee::lemma_float_order(price, p0[pos], p0[j - 1]);
                    crate::ieee::lemma_float_order(p0[j - 1], p0[pos], price);
                }
            } else {
                let oi = if i < pos { i } else { i - 1 };
                let oj = if j < pos { j } else { j - 1 };
                assert(q[i] == p0[oi]);
                assert(q[j] == p0[oj]);
                if i < pos && j > pos {
                    assert(ahead(d, p0[i], p0[pos]));
                }
            }
        }
        assert forall|i: int| 0 <= i < q.len() implies !nan_bits(#[trigger] q[i]) by {
            if i < pos {
                assert(q[i] == p0[i]);
            } else if i > pos {
                assert(q[i] == p0[i - 1]);
            }
        }
        assert forall|i: int| 0 <= i < t.len() implies positive_bits(#[trigger] t[i]) by {
            if i < pos {
                assert(t[i] == s0[i]);
            } else if i > pos {
                assert(t[i] == s0[i - 1]);
            }
        }
        if q.len() > k {
            assert forall|i: int, j: int| 0 <= i < j < p1.len() implies ahead(d, #[trigger] p1[i], #[trigger] p1[j]) by {
                assert(p1[i] == q[i]);
                assert(p1[j] == q[j]);
            }
            assert forall|i: int| 0 <= i < p1.len() implies !nan_bits(#[trigger] p1[i]) by {
                assert(p1[i] == q[i]);
            }
            assert forall|i: int| 0 <= i < s1.len() implies positive_bits(#[trigger] s1[i]) by {
                assert(s1[i] == t[i]);
            }
        }
    }
}

/// Both sides of a book are sound (see [`sound_side`]).
pub open spec fn sound_book(b: BookLevels) -> bool {
    sound_side(b.spec_bids()) && sound_side(b.spec_asks())
}

/// An update of one side keeps a sound book sound, under the conditions of
/// [`lemma_update_keeps_side_sound`]: the side updated stays sound and the
/// other side is untouched.
pub proof fn lemma_update_keeps_book_sound(
    before: BookLevels,
    after: BookLevels,
    side: Side,
    pos: int,
    same_level: bool,
    price: u64,
    size: u64,
    from: Option<usize>,
)
    requires
        before.wf(),
        after.wf(),
        sound_book(before),
        !nan_bits(price),
        le_bits(POSITIVE_ZERO, size),
        splits_at(before.resting_side(side).spec_descending(), before.resting_side(side).prices_view(), price, pos),
        same_level ==> pos < before.resting_side(side).prices_view().len(),
        matches_level(before.resting_side(side).prices_view(), pos, price) ==> same_level,
        level_update(before.resting_side(side), after.resting_side(side), pos, same_level, price, size, from),
        after.taking_side(side) == before.taking_side(side),
    ensures
        sound_book(after),
{
    lemma_update_keeps_side_sound(
        before.resting_side(side),
        after.resting_side(side),
        pos,
        same_level,
        price,
        size,
        from,
    );
}

/// Making the same update twice changes nothing the second time: after an
/// update of a side with distinct prices in strict price priority, by a price
/// that is not NaN and a size that is not below `0.0`, where the level found
/// is taken as the level updated exactly when it has the update's price, the
/// same update leaves prices, sizes and running totals as the first left
/// them.
pub proof fn lemma_repeated_update_changes_nothing(
    l0: Ladder,
    l1: Ladder,
    l2: Ladder,
    pos0: int,
    pos1: int,
    same0: bool,
    same1: bool,
    price: u64,
    size: u64,
    from0: Option<usize>,
    from1: Option<usize>,
)
    requires
        l0.wf(),
        l1.wf(),
        strictly_in_priority(l0.spec_descending(), l0.prices_view()),
        !nan_bits(price),
        le_bits(POSITIVE_ZERO, size),
        splits_at(l0.spec_descending(), l0.prices_view(), price, pos0),
        same0 == matches_level(l0.prices_view(), pos0, price),
        level_update(l0, l1, pos0, same0, price, size, from0),
        splits_at(l1.spec_descending(), l1.prices_view(), price, pos1),
        same1 == matches_level(l1.prices_view(), pos1, price),
        level_update(l1, l2, pos1, same1, price, size, from1),
    ensures
        l2.prices_view() == l1.prices_view(),
        l2.sizes_view() == l1.sizes_view(),
        l2.cum_qty_view() == l1.cum_qty_view(),
        l2.cum_pq_view() == l1.cum_pq_view(),
{
    let d = l0.spec_descending();
    let p0 = l0.prices_view();
    let p1 = l1.prices_view();
    let k = l0.spec_top_k() as int;
    if zero_bits(size) {
        if same0 {
            // the only level at `price` is gone
            assert forall|i: int| 0 <= i < p1.len() implies !eq_bits(#[trigger] p1[i], price) by {
                let oi = if i < pos0 { i } else { i + 1 };
                assert(p1[i] == p0[oi]);
                if oi < pos0 {
                    assert(ahead(d, p0[oi], p0[pos0]));
                } else {
                    assert(ahead(d, p0[pos0], p0[oi]));
                }
            }
        } else {
            lemma_split_is_unique(d, p0, price, pos0, pos1);
        }
    } else {
        // a size above `0.0`
        if same0 {
            lemma_split_is_unique(d, p0, price, pos0, pos1);
        } else if pos0 < k {
            assert(p1[pos0] == price);
            crate::ieee::lemma_float_order(price, price, price);
            if pos1 > pos0 {
                assert(ahead(d, p1[pos0], price));
            } else if pos1 < pos0 {
                assert(p1[pos1] == p0[pos1]);
            }
            assert(pos1 == pos0);
            assert(l1.sizes_view()[pos0] == size);
            assert(l1.sizes_view().update(pos0, size) =~= l1.sizes_view());
        } else {
            assert(p0.insert(pos0, price).take(k) =~= p0);
            assert(l0.sizes_view().insert(pos0, size).take(k) =~= l0.sizes_view());
            assert(l0.cum_qty_view().insert(pos0, POSITIVE_ZERO).take(k) =~= l0.cum_qty_view());
            assert(l0.cum_pq_view().insert(pos0, POSITIVE_ZERO).take(k) =~= l0.cum_pq_view());
            lemma_split_is_unique(d, p0, price, pos0, pos1);
        }
    }
}

} // verus!
