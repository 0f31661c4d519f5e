//! The trade window behind the liquidity score: the trades of the last
//! `window` milliseconds. Their mean size, a floating-point quantity, is
//! computed by the caller from the sizes held here.
use vstd::prelude::*;
use crate::side::Side;
use crate::window::{TimeWindow, MS_TO_NS};

verus! {

/// A trade; `price` and `size` are binary64 bit patterns.
#[derive(Debug, Clone, Copy)]
pub struct Trade {
    pub timestamp_ns: u64,
    pub price: u64,
    pub size: u64,
    pub side: Side,
}

/// Trades of a time window.
pub struct TradeWindow {
    trades: TimeWindow<Trade>,
}

impl TradeWindow {
    pub closed spec fn window(&self) -> TimeWindow<Trade> {
        self.trades
    }

    pub open spec fn wf(&self) -> bool {
        self.window().wf()
    }

    /// An empty window of `window_ms` milliseconds.
    pub fn new(window_ms: u64) -> (r: TradeWindow)
        requires
            window_ms <= u64::MAX / MS_TO_NS,
        ensures
            r.wf(),
            r.window().spec_window_ns() == window_ms * MS_TO_NS,
            r.window().contents().len() == 0,
            r.window().history().len() == 0,
    {
        TradeWindow { trades: TimeWindow::new(window_ms) }
    }

    /// Length of the window in milliseconds.
    pub fn window_ms(&self) -> (r: u64)
        requires
            self.wf(),
        ensures
            r * MS_TO_NS == self.window().spec_window_ns(),
    {
        self.trades.window_ms()
    }

    /// Number of trades in the window.
    pub fn trade_count(&self) -> (r: usize)
        requires
            self.wf(),
        ensures
            r == self.window().contents().len(),
    {
        self.trades.len()
    }

    /// Trade `i` of the window (0 is the oldest).
    pub fn trade(&self, i: usize) -> (r: Trade)
        requires
            self.wf(),
            i < self.window().contents().len(),
        ensures
            r == self.window().contents()[i as int].1,
    {
        self.trades.get(i).1
    }

    /// Records a trade at `timestamp_ns` and drops the trades that fell out
    /// of the window.
    pub fn add_trade(&mut self, timestamp_ns: u64, price: u64, size: u64, side: Side)
        requires
            old(self).wf(),
        ensures
            final(self).wf(),
            final(self).window().spec_window_ns() == old(self).window().spec_window_ns(),
            ({
                let t = Trade { timestamp_ns, price, size, side };
                let all = old(self).window().contents().push((timestamp_ns, t));
                let c = final(self).window().contents();
                let n = all.len() - c.len();
                &&& final(self).window().history() == old(self).window().history().push((timestamp_ns, t))
                &&& 1 <= c.len() <= all.len()
                &&& c == all.skip(n)
                &&& forall|i: int| 0 <= i < n ==> (#[trigger] all[i]).0 < crate::window::cutoff(
                    old(self).window().spec_window_ns(),
                    timestamp_ns,
                )
                &&& c[0].0 >= crate::window::cutoff(old(self).window().spec_window_ns(), timestamp_ns)
            }),
    {
        let trade = Trade { timestamp_ns, price, size, side };
        let _dropped = self.trades.insert(timestamp_ns, trade);
    }
}

} // verus!
