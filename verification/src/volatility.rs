//! The price window behind realized volatility: the accepted prices of the
//! last `window` milliseconds and the log returns between consecutive ones.
//! The returns themselves, and the floating-point sum of their squares, are
//! computed by the caller: it supplies the return into each new price and
//! takes out the square of each return this window drops.
use vstd::prelude::*;
use std::collections::VecDeque;
use crate::ieee::{less_eq, le_bits, POSITIVE_ZERO};
use crate::window::{TimeWindow, MS_TO_NS};

verus! {

/// Prices of a time window and the returns between them.
pub struct ReturnWindow {
    prices: TimeWindow<u64>,
    log_returns: VecDeque<u64>,
    num_returns: usize,
}

impl ReturnWindow {
    pub closed spec fn window(&self) -> TimeWindow<u64> {
        self.prices
    }

    /// The returns held, oldest first (binary64 bit patterns).
    pub closed spec fn log_returns_view(&self) -> Seq<u64> {
        self.log_returns@
    }

    pub closed spec fn spec_num_returns(&self) -> nat {
        self.num_returns as nat
    }

    /// One return between each two consecutive prices of the window, and the
    /// counter counts them.
    pub open spec fn wf(&self) -> bool {
        &&& self.window().wf()
        &&& self.spec_num_returns() == self.log_returns_view().len()
        &&& self.window().contents().len() == 0 ==> self.log_returns_view().len() == 0
        &&& self.window().contents().len() > 0 ==> self.log_returns_view().len() == self.window().contents().len() - 1
    }

    /// An empty window of `window_ms` milliseconds.
    pub fn new(window_ms: u64) -> (r: ReturnWindow)
        requires
            window_ms <= u64::MAX / MS_TO_NS,
        ensures
            r.wf(),
            r.window().spec_window_ns() == window_ms * MS_TO_NS,
            r.window().contents().len() == 0,
            r.window().history().len() == 0,
    {
        ReturnWindow { prices: TimeWindow::new(window_ms), log_returns: VecDeque::new(), num_returns: 0 }
    }

    /// Length of the window in milliseconds.
    pub fn window_ms(&self) -> (r: u64)
        requires
            self.wf(),
        ensures
            r * MS_TO_NS == self.window().spec_window_ns(),
    {
        self.prices.window_ms()
    }

    /// Number of returns held.
    pub fn num_returns(&self) -> (r: usize)
        requires
            self.wf(),
        ensures
            r == self.log_returns_view().len(),
    {
        self.num_returns
    }

    /// Prices `<= 0.0` (and only those) are ignored.
    pub fn accepts(price: u64) -> (r: bool)
        ensures
            r == !le_bits(price, POSITIVE_ZERO),
    {
        !less_eq(price, POSITIVE_ZERO)
    }

    /// The latest accepted price, if any.
    pub fn last_price(&self) -> (r: Option<u64>)
        requires
            self.wf(),
        ensures
            r == (if self.window().contents().len() == 0 {
                None::<u64>
            } else {
                Some(self.window().contents().last().1)
            }),
    {
        let n = self.prices.len();
        if n == 0 {
            None
        } else {
            Some(self.prices.get(n - 1).1)
        }
    }

    /// Records `price` at `timestamp_ns`, with `log_return` the return from
    /// the latest price into it (present exactly when there is a latest
    /// price), then drops the prices that fell out of the window and, for
    /// each, the oldest return. Returns the dropped returns, oldest first.
    /// A price that is not above `0.0` is ignored: nothing changes and
    /// nothing is dropped.
    pub fn record(&mut self, timestamp_ns: u64, price: u64, log_return: Option<u64>) -> (dropped: Vec<u64>)
        requires
            old(self).wf(),
            log_return is Some <==> old(self).window().contents().len() > 0,
        ensures
            final(self).wf(),
            final(self).window().spec_window_ns() == old(self).window().spec_window_ns(),
            le_bits(price, POSITIVE_ZERO) ==> *final(self) == *old(self) && dropped@.len() == 0,
            !le_bits(price, POSITIVE_ZERO) ==> final(self).window().history()
                == old(self).window().history().push((timestamp_ns, price)),
            !le_bits(price, POSITIVE_ZERO) ==> ({
                let all = old(self).window().contents().push((timestamp_ns, price));
                let c = final(self).window().contents();
                let n = all.len() - c.len();
                let rets = match log_return {
                    Some(r) => old(self).log_returns_view().push(r),
                    None => old(self).log_returns_view(),
                };
                &&& 1 <= c.len() <= all.len()
                &&& c == all.skip(n)
                &&& final(self).log_returns_view() == rets.skip(n)
                &&& dropped@ == rets.take(n)
                &&& forall|i: int| 0 <= i < n ==> (#[trigger] all[i]).0 < crate::window::cutoff(
                    old(self).window().spec_window_ns(),
                    timestamp_ns,
                )
                &&& c[0].0 >= crate::window::cutoff(old(self).window().spec_window_ns(), timestamp_ns)
            }),
    {
        if !Self::accepts(price) {
            return Vec::new();
        }
        let ghost p0 = self.prices.contents();
        let plen = self.prices.len();
        match log_return {
            Some(r) => {
                self.log_returns.push_back(r);
                self.num_returns = self.num_returns + 1;
            },
            None => {},
        }
        let ghost rets = self.log_returns@;
        let dropped_prices = self.prices.insert(timestamp_ns, price);
        let ghost after = self.prices;
        let ghost n: int = dropped_prices@.len() as int;
        assert(rets.skip(0) =~= rets);
        let mut out: Vec<u64> = Vec::new();
        let mut k: usize = 0;
        while k < dropped_prices.len()
            invariant
                n == dropped_prices@.len(),
                n == p0.len() + 1 - after.contents().len(),
                after.contents().len() >= 1,
                rets.len() == p0.len() + 1 - 1,
                self.prices == after,
                k <= n,
                self.log_returns@ == rets.skip(k as int),
                out@ == rets.take(k as int),
                self.num_returns == rets.len() - k,
            decreases n - k,
        {
            let front = self.log_returns.pop_front();
            match front {
                Some(r) => {
                    proof {
                        assert(rets.take(k + 1) =~= rets.take(k as int).push(rets[k as int]));
                        assert(rets.skip(k + 1) =~= rets.skip(k as int).subrange(1, rets.skip(k as int).len() as int));
                    }
                    out.push(r);
                    self.num_returns = self.num_returns - 1;
                },
                None => {},
            }
            k = k + 1;
        }
        out
    }
}

} // verus!
