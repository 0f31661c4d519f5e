//! A time window of timestamped items: each new item is appended, then the
//! items at the front whose timestamp falls before `latest - window` are
//! dropped, oldest first.
use vstd::prelude::*;
use std::collections::VecDeque;

verus! {

/// Nanoseconds in a millisecond.
pub const MS_TO_NS: u64 = 1_000_000;

/// Oldest timestamp kept when the latest is `latest`: `latest - window`,
/// or 0 when the window reaches back further.
pub open spec fn cutoff(window_ns: u64, latest: u64) -> u64 {
    if latest >= window_ns {
        (latest - window_ns) as u64
    } else {
        0
    }
}

/// Timestamps that never decrease.
pub open spec fn stamps_in_order<T>(s: Seq<(u64, T)>) -> bool {
    forall|i: int, j: int| 0 <= i < j < s.len() ==> #[trigger] s[i].0 <= #[trigger] s[j].0
}

/// The payloads of a sequence of timestamped items.
pub open spec fn payloads<T>(s: Seq<(u64, T)>) -> Seq<T> {
    s.map_values(|p: (u64, T)| p.1)
}

/// `latest.saturating_sub(window_ns)`.
pub fn cutoff_of(window_ns: u64, latest: u64) -> (r: u64)
    ensures
        r == cutoff(window_ns, latest),
{
    if latest >= window_ns {
        latest - window_ns
    } else {
        0
    }
}

/// A sliding time window over items of type `T`.
pub struct TimeWindow<T> {
    window_ns: u64,
    items: VecDeque<(u64, T)>,
    history: Ghost<Seq<(u64, T)>>,
}

impl<T> TimeWindow<T> {
    /// Length of the window in nanoseconds.
    pub closed spec fn spec_window_ns(&self) -> u64 {
        self.window_ns
    }

    /// The items in the window, oldest first.
    pub closed spec fn contents(&self) -> Seq<(u64, T)> {
        self.items@
    }

    /// Every item ever inserted, oldest first.
    pub closed spec fn history(&self) -> Seq<(u64, T)> {
        self.history@
    }

    /// The window holds the latest items of the history, at least one once
    /// anything was inserted; and when the timestamps came in order, it holds
    /// exactly the items not older than the cutoff of the latest timestamp.
    pub open spec fn wf(&self) -> bool {
        let h = self.history();
        let c = self.contents();
        let s = h.len() - c.len();
        &&& c.len() <= h.len()
        &&& forall|i: int| 0 <= i < c.len() ==> #[trigger] c[i] == h[s + i]
        &&& h.len() > 0 ==> c.len() > 0
        &&& self.spec_window_ns() % MS_TO_NS == 0
        &&& (h.len() > 0 && stamps_in_order(h)) ==> {
            let cut = cutoff(self.spec_window_ns(), h.last().0);
            &&& forall|i: int| 0 <= i < s ==> (#[trigger] h[i]).0 < cut
            &&& forall|i: int| s <= i < h.len() ==> (#[trigger] h[i]).0 >= cut
        }
    }

    /// An empty window of `window_ms` milliseconds.
    pub fn new(window_ms: u64) -> (r: TimeWindow<T>)
        requires
            window_ms <= u64::MAX / MS_TO_NS,
        ensures
            r.wf(),
            r.spec_window_ns() == window_ms * MS_TO_NS,
            r.contents().len() == 0,
            r.history().len() == 0,
    {
        TimeWindow { window_ns: window_ms * MS_TO_NS, items: VecDeque::new(), history: Ghost(Seq::empty()) }
    }

    /// Length of the window in milliseconds.
    pub fn window_ms(&self) -> (r: u64)
        requires
            self.wf(),
        ensures
            r == self.spec_window_ns() / MS_TO_NS,
            r * MS_TO_NS == self.spec_window_ns(),
    {
        self.window_ns / MS_TO_NS
    }

    /// Length of the window in nanoseconds.
    pub fn window_ns(&self) -> (r: u64)
        ensures
            r == self.spec_window_ns(),
    {
        self.window_ns
    }

    /// Number of items in the window.
    pub fn len(&self) -> (r: usize)
        ensures
            r == self.contents().len(),
    {
        proof {
            broadcast use vstd::std_specs::vecdeque::group_vec_dequeue_axioms;
        }
        self.items.len()
    }

    /// Item `i` of the window (0 is the oldest).
    pub fn get(&self, i: usize) -> (r: &(u64, T))
        requires
            i < self.contents().len(),
        ensures
            *r == self.contents()[i as int],
    {
        &self.items[i]
    }

    /// Appends `item` stamped `ts`, then drops the items at the front stamped
    /// before `cutoff(window, ts)`; returns the payloads dropped, oldest first.
    pub fn insert(&mut self, ts: u64, item: T) -> (dropped: Vec<T>)
        requires
            old(self).wf(),
        ensures
            final(self).wf(),
            final(self).spec_window_ns() == old(self).spec_window_ns(),
            final(self).history() == old(self).history().push((ts, item)),
            ({
                let all = old(self).contents().push((ts, item));
                let c = final(self).contents();
                let n = all.len() - c.len();
                let cut = cutoff(old(self).spec_window_ns(), ts);
                &&& 1 <= c.len() <= all.len()
                &&& c == all.skip(n)
                &&& dropped@ == payloads(all.take(n))
                &&& forall|i: int| 0 <= i < n ==> (#[trigger] all[i]).0 < cut
                &&& c[0].0 >= cut
            }),
    {
        broadcast use vstd::std_specs::vecdeque::group_vec_dequeue_axioms;
        let ghost h0 = self.history@;
        let ghost c0 = self.items@;
        self.items.push_back((ts, item));
        let ghost all = self.items@;
        proof {
            self.history@ = h0.push((ts, item));
        }
        let cut = cutoff_of(self.window_ns, ts);
        let mut dropped: Vec<T> = Vec::new();
        let ghost mut n: int = 0;
        while self.items.len() > 0 && self.items[0].0 < cut
            invariant
                all == c0.push((ts, item)),
                self.history@ == h0.push((ts, item)),
                self.window_ns == old(self).window_ns,
                cut == cutoff(self.window_ns, ts),
                0 <= n < all.len(),
                self.items@ == all.skip(n),
                dropped@ == payloads(all.take(n)),
                forall|i: int| 0 <= i < n ==> (#[trigger] all[i]).0 < cut,
            decreases self.items@.len(),
        {
            let front = self.items.pop_front();
            match front {
                Some(p) => {
                    proof {
                        assert(all.take(n + 1) =~= all.take(n).push(all[n]));
                        assert(all.skip(n + 1) =~= all.skip(n).subrange(1, all.skip(n).len() as int));
                        if n + 1 == all.len() {
                            assert(all[n].0 == ts);
                            assert(ts >= cut);
                        }
                    }
                    dropped.push(p.1);
                    proof {
                        n = n + 1;
                    }
                },
                None => {},
            }
        }
        proof {
            let h = self.history@;
            let c = self.items@;
            let s = h.len() - c.len();
            assert(c.len() == all.len() - n);
            assert(s == h0.len() - c0.len() + n);
            assert forall|i: int| 0 <= i < c.len() implies #[trigger] c[i] == h[s + i] by {
                assert(c[i] == all[n + i]);
                if n + i < c0.len() {
                    assert(all[n + i] == c0[n + i]);
                    assert(c0[n + i] == h0[h0.len() - c0.len() + n + i]);
                } else {
                    assert(n + i == c0.len());
                }
            }
            if stamps_in_order(h) {
                let old_s = h0.len() - c0.len();
                assert(stamps_in_order(h0)) by {
                    assert forall|i: int, j: int| 0 <= i < j < h0.len() implies #[trigger] h0[i].0
                        <= #[trigger] h0[j].0 by {
                        assert(h[i] == h0[i]);
                        assert(h[j] == h0[j]);
                    }
                }
                assert(h.last().0 == ts);
                if h0.len() > 0 {
                    assert(h0.last().0 <= ts) by {
                        assert(h[h0.len() - 1] == h0.last());
                    }
                }
                assert forall|i: int| 0 <= i < s implies (#[trigger] h[i]).0 < cut by {
                    if i < old_s {
                        assert(h[i] == h0[i]);
                    } else {
                        let k = i - old_s;
                        assert(k < n);
                        assert(all[k] == h[i]) by {
                            if k < c0.len() {
                                assert(c0[k] == h0[old_s + k]);
                            }
                        }
                    }
                }
                assert forall|i: int| s <= i < h.len() implies (#[trigger] h[i]).0 >= cut by {
                    assert(c[0] == h[s]);
                    assert(c[0] == all[n]);
                    assert(all[n].0 >= cut);
                    if i > s {
                        assert(h[s].0 <= h[i].0);
                    }
                }
            }
        }
        dropped
    }
}

/// When the timestamps came in order, the window holds exactly the items of
/// the history stamped at or after the cutoff of the latest timestamp, in
/// the order they came.
pub proof fn lemma_window_is_recent<T>(w: &TimeWindow<T>)
    requires
        w.wf(),
        w.history().len() > 0,
        stamps_in_order(w.history()),
    ensures
        ({
            let h = w.history();
            let c = w.contents();
            let cut = cutoff(w.spec_window_ns(), h.last().0);
            &&& c == h.skip(h.len() - c.len())
            &&& forall|i: int| 0 <= i < h.len() ==> ((#[trigger] h[i]).0 >= cut <==> h.len() - c.len() <= i)
        }),
{
    let h = w.history();
    let c = w.contents();
    assert(c =~= h.skip(h.len() - c.len()));
}

/// A window made with `window_ms` milliseconds reports that length back.
pub proof fn lemma_window_ms_is_given<T>(w: &TimeWindow<T>, window_ms: u64, reported: u64)
    requires
        w.spec_window_ns() == window_ms * MS_TO_NS,
        reported * MS_TO_NS == w.spec_window_ns(),
    ensures
        reported == window_ms,
{
}

} // verus!
