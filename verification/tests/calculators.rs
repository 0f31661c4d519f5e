use nautilus_stg::{JumpWindow, OfiWindow, ReturnWindow, Side, TradeWindow};

fn f(bits: u64) -> f64 {
    f64::from_bits(bits)
}

fn signed(side: Side, is_cancel: bool, size: f64) -> f64 {
    if side.adds_to_flow(is_cancel) { 1.0 * size } else { -1.0 * size }
}

/// Window plus the running imbalance, kept as the calculator keeps it.
struct Ofi {
    w: OfiWindow,
    sum: f64,
}

impl Ofi {
    fn new(ms: u64) -> Self {
        Ofi { w: OfiWindow::new(ms), sum: 0.0 }
    }
    fn add(&mut self, ts: u64, side: Side, price: f64, size: f64, cancel: bool) {
        self.sum += signed(side, cancel, size);
        for e in self.w.add_order_event(ts, side, price.to_bits(), size.to_bits(), cancel) {
            self.sum -= signed(e.side, e.is_cancel, f(e.size));
        }
    }
    fn cancel_ratio(&self) -> f64 {
        if self.w.total_count() == 0 {
            0.0
        } else {
            self.w.cancel_count() as f64 / self.w.total_count() as f64
        }
    }
}

#[test]
fn test_ofi_calculator_creation() {
    let calc = Ofi::new(200);
    assert_eq!(calc.w.window_ms(), 200);
    assert_eq!(calc.sum, 0.0);
}

#[test]
fn test_ofi_buy_order() {
    let mut calc = Ofi::new(200);
    calc.add(1000, Side::Buy, 100.0, 10.0, false);
    assert_eq!(calc.sum, 10.0);
}

#[test]
fn test_ofi_sell_order() {
    let mut calc = Ofi::new(200);
    calc.add(1000, Side::Sell, 100.10, 5.0, false);
    assert_eq!(calc.sum, -5.0);
}

#[test]
fn test_ofi_mixed_orders() {
    let mut calc = Ofi::new(1000);
    calc.add(1000, Side::Buy, 100.0, 10.0, false);
    calc.add(2000, Side::Sell, 100.10, 5.0, false);
    assert_eq!(calc.sum, 5.0);
}

#[test]
fn test_cancel_ratio() {
    let mut calc = Ofi::new(1000);
    calc.add(1000, Side::Buy, 100.0, 10.0, false);
    calc.add(2000, Side::Buy, 100.0, 5.0, true);
    assert_eq!(calc.cancel_ratio(), 0.5);
}

#[test]
fn test_custom_window_300ms() {
    let mut calc = Ofi::new(300);
    assert_eq!(calc.w.window_ms(), 300);
    calc.add(1000, Side::Buy, 100.0, 10.0, false);
    assert_eq!(calc.sum, 10.0);
}

#[test]
fn test_window_sliding() {
    let mut calc = Ofi::new(1000);
    calc.add(1_000_000_000, Side::Buy, 100.0, 10.0, false);
    assert_eq!(calc.sum, 10.0);
    assert_eq!(calc.w.total_count(), 1);
    calc.add(1_500_000_000, Side::Sell, 100.0, 5.0, false);
    assert_eq!(calc.sum, 5.0);
    assert_eq!(calc.w.total_count(), 2);
    calc.add(2_100_000_000, Side::Buy, 100.0, 3.0, false);
    assert_eq!(calc.sum, -2.0);
    assert_eq!(calc.w.total_count(), 2);
}

#[test]
fn ofi_drops_events_older_than_window_and_counts_cancels() {
    let mut w = OfiWindow::new(1);
    assert!(w.add_order_event(0, Side::Buy, 0, 1.0f64.to_bits(), true).is_empty());
    assert!(w.add_order_event(500_000, Side::Sell, 0, 2.0f64.to_bits(), false).is_empty());
    assert_eq!(w.cancel_count(), 1);
    let dropped = w.add_order_event(1_200_000, Side::Buy, 0, 3.0f64.to_bits(), true);
    assert_eq!(dropped.len(), 1);
    assert_eq!(dropped[0].timestamp_ns, 0);
    assert_eq!(w.total_count(), 2);
    assert_eq!(w.cancel_count(), 1);
    let dropped = w.add_order_event(5_000_000, Side::Buy, 0, 3.0f64.to_bits(), false);
    assert_eq!(dropped.len(), 2);
    assert_eq!(w.total_count(), 1);
    assert_eq!(w.cancel_count(), 0);
}

#[test]
fn window_keeps_event_exactly_at_cutoff() {
    let mut w = OfiWindow::new(1);
    w.add_order_event(1_000_000, Side::Buy, 0, 0, false);
    let dropped = w.add_order_event(2_000_000, Side::Buy, 0, 0, false);
    assert!(dropped.is_empty());
    let dropped = w.add_order_event(2_000_001, Side::Buy, 0, 0, false);
    assert_eq!(dropped.len(), 1);
}

/// Volatility as the calculator computes it.
struct Vol {
    w: ReturnWindow,
    sum_sq: f64,
    window_ns: u64,
}

impl Vol {
    fn new(ms: u64) -> Self {
        Vol { w: ReturnWindow::new(ms), sum_sq: 0.0, window_ns: ms * 1_000_000 }
    }
    fn update(&mut self, ts: u64, price: f64) {
        if !ReturnWindow::accepts(price.to_bits()) {
            return;
        }
        let ret = self.w.last_price().map(|last| (price / f(last)).ln());
        if let Some(r) = ret {
            self.sum_sq += r * r;
        }
        for r in self.w.record(ts, price.to_bits(), ret.map(f64::to_bits)) {
            let r = f(r);
            self.sum_sq -= r * r;
        }
    }
    fn rvol_bps(&self) -> f64 {
        let n = self.w.num_returns();
        if n == 0 {
            return 0.0;
        }
        let var = self.sum_sq / n as f64;
        let factor = (365.0 * 24.0 * 3600.0) / (self.window_ns as f64 / 1_000_000_000.0);
        (var * factor).sqrt() * 10_000.0
    }
}

#[test]
fn test_volatility_calculator_creation() {
    let calc = Vol::new(200);
    assert_eq!(calc.w.window_ms(), 200);
    assert_eq!(calc.rvol_bps(), 0.0);
}

#[test]
fn test_volatility_single_price() {
    let mut calc = Vol::new(1000);
    calc.update(1000, 100.0);
    assert_eq!(calc.rvol_bps(), 0.0);
}

#[test]
fn test_volatility_two_prices() {
    let mut calc = Vol::new(1000);
    calc.update(1000, 100.0);
    calc.update(2000, 101.0);
    calc.update(3000, 100.0);
    calc.update(4000, 101.0);
    assert!(calc.rvol_bps() > 0.0);
}

#[test]
fn test_custom_window_500ms() {
    let mut calc = Vol::new(500);
    assert_eq!(calc.w.window_ms(), 500);
    calc.update(1000, 100.0);
    calc.update(2000, 101.0);
    assert!(calc.rvol_bps() > 0.0);
}

#[test]
fn returns_follow_prices_out_of_window() {
    let mut calc = Vol::new(1);
    calc.update(0, 100.0);
    calc.update(10, 0.0);
    calc.update(20, -1.0);
    assert_eq!(calc.w.num_returns(), 0);
    calc.update(500_000, 101.0);
    calc.update(900_000, 102.0);
    assert_eq!(calc.w.num_returns(), 2);
    calc.update(1_600_000, 103.0);
    assert_eq!(calc.w.num_returns(), 1);
    calc.update(10_000_000, 104.0);
    assert_eq!(calc.w.num_returns(), 0);
    assert_eq!(calc.w.last_price(), Some(104.0f64.to_bits()));
}

/// Average trade size as the calculator computes it.
fn avg_trade_qty(w: &TradeWindow) -> f64 {
    let mut total = 0.0;
    let mut count = 0usize;
    for i in 0..w.trade_count() {
        total += f(w.trade(i).size);
        count += 1;
    }
    if count == 0 { 0.0 } else { total / count as f64 }
}

#[test]
fn test_liquidity_calculator_creation() {
    let w = TradeWindow::new(1000);
    assert_eq!(w.window_ms(), 1000);
    assert_eq!(avg_trade_qty(&w), 0.0);
}

#[test]
fn test_single_trade() {
    let mut w = TradeWindow::new(1000);
    w.add_trade(1000, 100.0f64.to_bits(), 10.0f64.to_bits(), Side::Buy);
    assert!((avg_trade_qty(&w) - 10.0).abs() < 1e-6);
}

#[test]
fn test_multiple_trades() {
    let mut w = TradeWindow::new(1000);
    w.add_trade(1000, 100.0f64.to_bits(), 100.0f64.to_bits(), Side::Buy);
    w.add_trade(2000, 100.05f64.to_bits(), 200.0f64.to_bits(), Side::Sell);
    assert!((avg_trade_qty(&w) - 150.0).abs() < 1e-6);
}

#[test]
fn test_liquidity_score() {
    let mut w = TradeWindow::new(1000);
    w.add_trade(1000, 100.0f64.to_bits(), 100.0f64.to_bits(), Side::Buy);
    w.add_trade(2000, 100.05f64.to_bits(), 200.0f64.to_bits(), Side::Sell);
    let score = 300.0 / (avg_trade_qty(&w) + 1e-6);
    assert!((score - (300.0 / 150.0)).abs() < 1e-5);
}

#[test]
fn liquidity_test_custom_window_2s() {
    let mut w = TradeWindow::new(2000);
    assert_eq!(w.window_ms(), 2000);
    w.add_trade(1000, 100.0f64.to_bits(), 100.0f64.to_bits(), Side::Buy);
    assert!((avg_trade_qty(&w) - 100.0).abs() < 1e-6);
}

/// A jump update as the calculator makes it.
fn jump_update(w: &mut JumpWindow, ts: u64, price: f64) {
    if !JumpWindow::accepts(price.to_bits()) {
        return;
    }
    let mv = w.last_price().map(|last| {
        let last = f(last);
        ((price - last) / last).abs() * 10_000.0
    });
    w.record(ts, price.to_bits(), mv.map(f64::to_bits));
}

#[test]
fn test_jump_calculator_creation() {
    let w = JumpWindow::new(1000, 50.0f64.to_bits());
    assert_eq!(w.window_ms(), 1000);
    assert_eq!(w.jump_count(), 0);
}

#[test]
fn test_no_jump() {
    let mut w = JumpWindow::new(1000, 50.0f64.to_bits());
    jump_update(&mut w, 1000, 100.0);
    jump_update(&mut w, 2000, 100.1);
    assert_eq!(w.jump_count(), 0);
}

#[test]
fn test_single_jump() {
    let mut w = JumpWindow::new(1000, 50.0f64.to_bits());
    jump_update(&mut w, 1000, 100.0);
    jump_update(&mut w, 2000, 101.0);
    assert_eq!(w.jump_count(), 1);
}

#[test]
fn test_max_move_bps() {
    let mut w = JumpWindow::new(1000, 50.0f64.to_bits());
    jump_update(&mut w, 1000, 100.0);
    jump_update(&mut w, 2000, 101.0);
    assert!((f(w.max_move_bps()) - 100.0).abs() < 1e-6);
}

#[test]
fn jump_test_custom_window_2s() {
    let mut w = JumpWindow::new(2000, 50.0f64.to_bits());
    assert_eq!(w.window_ms(), 2000);
    jump_update(&mut w, 1000, 100.0);
    jump_update(&mut w, 2000, 101.0);
    assert_eq!(w.jump_count(), 1);
}

#[test]
fn test_monotonic_queue_maintains_max() {
    let mut w = JumpWindow::new(5000, 50.0f64.to_bits());
    jump_update(&mut w, 1000, 100.0);
    jump_update(&mut w, 2000, 101.0);
    assert!((f(w.max_move_bps()) - 100.0).abs() < 1e-6);
    jump_update(&mut w, 3000, 101.05);
    assert!((f(w.max_move_bps()) - 100.0).abs() < 1e-6);
    jump_update(&mut w, 4000, 103.0);
    assert!(f(w.max_move_bps()) > 190.0);
    jump_update(&mut w, 5000, 103.03);
    assert!(f(w.max_move_bps()) > 190.0);
}

#[test]
fn max_move_follows_the_window() {
    let mut w = JumpWindow::new(1, 50.0f64.to_bits());
    assert_eq!(f(w.max_move_bps()), 0.0);
    jump_update(&mut w, 0, 100.0);
    jump_update(&mut w, 100_000, 102.0);
    jump_update(&mut w, 600_000, 102.1);
    assert!((f(w.max_move_bps()) - 200.0).abs() < 1e-6);
    assert_eq!(w.jump_count(), 1);
    jump_update(&mut w, 1_200_000, 102.2);
    let expected = ((102.2f64 - 102.1) / 102.1).abs() * 10_000.0;
    let second = ((102.1f64 - 102.0) / 102.0).abs() * 10_000.0;
    assert_eq!(f(w.max_move_bps()), second.max(expected));
    assert_eq!(w.jump_count(), 0);
    jump_update(&mut w, 0, -5.0);
    assert_eq!(w.last_price(), Some(102.2f64.to_bits()));
}

#[test]
fn time_window_returns_dropped_payloads_in_order() {
    let mut w: nautilus_stg::TimeWindow<&str> = nautilus_stg::TimeWindow::new(2);
    assert_eq!(w.window_ms(), 2);
    assert_eq!(w.window_ns(), 2_000_000);
    assert!(w.insert(1_000_000, "a").is_empty());
    assert!(w.insert(2_000_000, "b").is_empty());
    assert!(w.insert(2_500_000, "c").is_empty());
    assert_eq!(w.insert(4_100_000, "d"), vec!["a", "b"]);
    assert_eq!(w.len(), 2);
    assert_eq!(*w.get(0), (2_500_000, "c"));
    assert_eq!(*w.get(1), (4_100_000, "d"));
}

#[test]
fn time_window_front_blocks_out_of_order_items() {
    let mut w: nautilus_stg::TimeWindow<u8> = nautilus_stg::TimeWindow::new(1);
    w.insert(5_000_000, 1);
    w.insert(1_000_000, 2);
    assert_eq!(w.insert(5_500_000, 3), Vec::<u8>::new());
    assert_eq!(w.len(), 3);
    assert_eq!(w.insert(7_000_000, 4), vec![1, 2, 3]);
}

#[test]
fn record_ignores_prices_not_above_zero() {
    let mut j = JumpWindow::new(1000, 50.0f64.to_bits());
    j.record(1000, 100.0f64.to_bits(), None);
    for p in [0.0f64, -0.0, -5.0] {
        j.record(2000, p.to_bits(), Some(1.0f64.to_bits()));
        assert_eq!(j.last_price(), Some(100.0f64.to_bits()));
        assert_eq!(j.jump_count(), 0);
        assert_eq!(j.max_move_bps(), 0.0f64.to_bits());
    }

    let mut v = ReturnWindow::new(1000);
    assert!(v.record(1000, 100.0f64.to_bits(), None).is_empty());
    for p in [0.0f64, -1.0] {
        assert!(v.record(5000, p.to_bits(), Some(0.5f64.to_bits())).is_empty());
        assert_eq!(v.num_returns(), 0);
        assert_eq!(v.last_price(), Some(100.0f64.to_bits()));
    }
}
