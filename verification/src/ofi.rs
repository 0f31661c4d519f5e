//! The event window behind the order-flow imbalance (OFI): order events of
//! the last `window` milliseconds, with the number of events and of
//! cancellations among them. The imbalance itself, a floating-point running
//! sum of signed sizes, is kept by the caller: it adds the signed size of
//! each new event and subtracts that of each event this window drops.
use vstd::prelude::*;
use crate::side::Side;
use crate::window::{TimeWindow, MS_TO_NS, payloads};

verus! {

/// An order event; `price` and `size` are binary64 bit patterns.
#[derive(Debug, Clone, Copy)]
pub struct OrderEvent {
    pub timestamp_ns: u64,
    pub side: Side,
    pub price: u64,
    pub size: u64,
    pub is_cancel: bool,
}

/// Number of cancellations among timestamped events.
pub open spec fn cancels(s: Seq<(u64, OrderEvent)>) -> nat
    decreases s.len(),
{
    if s.len() == 0 {
        0
    } else {
        (if s[0].1.is_cancel { 1nat } else { 0nat }) + cancels(s.drop_first())
    }
}

/// Appending an event counts it once if it is a cancellation.
pub proof fn lemma_cancels_push(s: Seq<(u64, OrderEvent)>, e: (u64, OrderEvent))
    ensures
        cancels(s.push(e)) == cancels(s) + (if e.1.is_cancel { 1nat } else { 0nat }),
    decreases s.len(),
{
    let t = s.push(e);
    if s.len() > 0 {
        lemma_cancels_push(s.drop_first(), e);
        assert(t.drop_first() =~= s.drop_first().push(e));
        assert(t[0] == s[0]);
    } else {
        assert(t.drop_first() =~= Seq::<(u64, OrderEvent)>::empty());
        assert(t[0] == e);
        assert(cancels(t.drop_first()) == 0);
    }
}

/// There are never more cancellations than events.
pub proof fn lemma_cancels_bounded(s: Seq<(u64, OrderEvent)>)
    ensures
        cancels(s) <= s.len(),
    decreases s.len(),
{
    if s.len() > 0 {
        lemma_cancels_bounded(s.drop_first());
    }
}

/// Order events of a time window with their counts.
pub struct OfiWindow {
    events: TimeWindow<OrderEvent>,
    cancel_count: usize,
    total_count: usize,
}

impl OfiWindow {
    pub closed spec fn window(&self) -> TimeWindow<OrderEvent> {
        self.events
    }

    pub closed spec fn spec_total_count(&self) -> nat {
        self.total_count as nat
    }

    pub closed spec fn spec_cancel_count(&self) -> nat {
        self.cancel_count as nat
    }

    /// The counters count the events, and the cancellations, in the window.
    pub open spec fn wf(&self) -> bool {
        &&& self.window().wf()
        &&& self.spec_total_count() == self.window().contents().len()
        &&& self.spec_cancel_count() == cancels(self.window().contents())
    }

    /// An empty window of `window_ms` milliseconds.
    pub fn new(window_ms: u64) -> (r: OfiWindow)
        requires
            window_ms <= u64::MAX / MS_TO_NS,
        ensures
            r.wf(),
            r.window().spec_window_ns() == window_ms * MS_TO_NS,
            r.window().contents().len() == 0,
            r.window().history().len() == 0,
    {
        OfiWindow { events: TimeWindow::new(window_ms), cancel_count: 0, total_count: 0 }
    }

    /// Length of the window in milliseconds.
    pub fn window_ms(&self) -> (r: u64)
        requires
            self.wf(),
        ensures
            r * MS_TO_NS == self.window().spec_window_ns(),
    {
        self.events.window_ms()
    }

    /// Number of events in the window.
    pub fn total_count(&self) -> (r: usize)
        requires
            self.wf(),
        ensures
            r == self.window().contents().len(),
    {
        self.total_count
    }

    /// Number of cancellations in the window.
    pub fn cancel_count(&self) -> (r: usize)
        requires
            self.wf(),
        ensures
            r == cancels(self.window().contents()),
            r <= self.window().contents().len(),
    {
        proof {
            lemma_cancels_bounded(self.events.contents());
        }
        self.cancel_count
    }

    /// Records an order event at `timestamp_ns` and drops the events that
    /// fell out of the window; returns the dropped events, oldest first.
    pub fn add_order_event(
        &mut self,
        timestamp_ns: u64,
        side: Side,
        price: u64,
        size: u64,
        is_cancel: bool,
    ) -> (dropped: Vec<OrderEvent>)
        requires
            old(self).wf(),
            old(self).window().contents().len() < usize::MAX,
        ensures
            final(self).wf(),
            final(self).window().spec_window_ns() == old(self).window().spec_window_ns(),
            ({
                let e = OrderEvent { timestamp_ns, side, price, size, is_cancel };
                let all = old(self).window().contents().push((timestamp_ns, e));
                let c = final(self).window().contents();
                let n = all.len() - c.len();
                &&& final(self).window().history() == old(self).window().history().push((timestamp_ns, e))
                &&& 1 <= c.len() <= all.len()
                &&& c == all.skip(n)
                &&& dropped@ == payloads(all.take(n))
                &&& forall|i: int| 0 <= i < n ==> (#[trigger] all[i]).0 < crate::window::cutoff(
                    old(self).window().spec_window_ns(),
                    timestamp_ns,
                )
                &&& c[0].0 >= crate::window::cutoff(old(self).window().spec_window_ns(), timestamp_ns)
            }),
    {
        let event = OrderEvent { timestamp_ns, side, price, size, is_cancel };
        let ghost c0 = self.events.contents();
        proof {
            lemma_cancels_bounded(c0);
        }
        self.total_count = self.total_count + 1;
        if is_cancel {
            self.cancel_count = self.cancel_count + 1;
        }
        let dropped = self.events.insert(timestamp_ns, event);
        let ghost all = c0.push((timestamp_ns, event));
        let ghost n: int = all.len() - self.events.contents().len();
        let ghost after = self.events;
        proof {
            lemma_cancels_push(c0, (timestamp_ns, event));
            assert(all.skip(0) =~= all);
        }
        let mut k: usize = 0;
        while k < dropped.len()
            invariant
                0 <= n < all.len(),
                dropped@ == payloads(all.take(n)),
                dropped@.len() == n,
                k <= n,
                self.events == after,
                after.wf(),
                after.contents() == all.skip(n),
                self.total_count == all.len() - k,
                self.cancel_count == cancels(all.skip(k as int)),
            decreases dropped@.len() - k,
        {
            let e = dropped[k];
            proof {
                assert(e == all[k as int].1);
                assert(all.skip(k as int).drop_first() =~= all.skip(k + 1));
                assert(all.skip(k as int)[0] == all[k as int]);
                lemma_cancels_bounded(all.skip(k + 1));
            }
            self.total_count = self.total_count - 1;
            if e.is_cancel {
                self.cancel_count = self.cancel_count - 1;
            }
            k = k + 1;
        }
        dropped
    }
}

} // verus!
