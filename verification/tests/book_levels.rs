use nautilus_stg::{BookLevels, Side};

const TICK: f64 = 0.01;

fn f(bits: u64) -> f64 {
    f64::from_bits(bits)
}

/// A level update as the book makes it: locate, compare with the level
/// found there within 1e-10, apply, then refresh the running totals.
fn update(book: &mut BookLevels, side: Side, price: f64, size: f64) {
    let pos = book.locate(side, price.to_bits());
    let l = book.resting(side);
    let same = pos < l.len() && {
        let level = f(l.price(pos));
        level == price || (level - price).abs() < 1e-10
    };
    if let Some(start) = book.apply(side, pos, same, price.to_bits(), size.to_bits()) {
        let l = book.resting(side);
        let n = l.len();
        if start >= n {
            return;
        }
        let (mut q, mut pq) = if start > 0 {
            (f(l.cum_qty(start - 1)), f(l.cum_pq(start - 1)))
        } else {
            (0.0, 0.0)
        };
        let mut totals = Vec::new();
        for i in start..n {
            q += f(l.size(i));
            pq += f(l.price(i)) * f(l.size(i));
            totals.push((i, q, pq));
        }
        for (i, q, pq) in totals {
            book.set_cumulative(side, i, q.to_bits(), pq.to_bits());
        }
    }
}

/// (ok, vwap, used_level) of an order of `qty` on `side`.
fn impact(book: &BookLevels, side: Side, qty: f64) -> (bool, f64, usize) {
    match book.fill_level(side, qty.to_bits()) {
        None => (false, 0.0, 0),
        Some(i) => {
            let l = book.taking(side);
            let vwap = if i == 0 {
                f(l.price(0))
            } else {
                let remaining = qty - f(l.cum_qty(i - 1));
                (f(l.cum_pq(i - 1)) + remaining * f(l.price(i))) / qty
            };
            (true, vwap, i)
        }
    }
}

/// (bid1, ask1, mid)
fn best(book: &BookLevels) -> (f64, f64, f64) {
    let (b, a) = book.best_quotes();
    let (b, a) = (f(b), f(a));
    let mid = if b > 0.0 && a > 0.0 { (b + a) / 2.0 } else { 0.0 };
    (b, a, mid)
}

fn prices(book: &BookLevels, side: Side, k: usize) -> Vec<f64> {
    book.resting(side).top(k).0.into_iter().map(f).collect()
}

fn microprice(book: &BookLevels) -> Option<f64> {
    let (b, a, bq, aq) = book.touch()?;
    let (b, a, bq, aq) = (f(b), f(a), f(bq), f(aq));
    let total = bq + aq;
    if total <= 0.0 {
        return None;
    }
    Some((b * aq + a * bq) / total)
}

fn microprice_deviation_bps(book: &BookLevels) -> Option<f64> {
    let mp = microprice(book)?;
    let mid = best(book).2;
    if mid <= 0.0 {
        return None;
    }
    Some((mp - mid) / mid * 10000.0)
}

#[test]
fn test_empty_book() {
    let book = BookLevels::new(100, 10);
    assert_eq!(best(&book).2, 0.0);
}

#[test]
fn test_single_level_update() {
    let mut book = BookLevels::new(100, 10);
    update(&mut book, Side::Buy, 100.0, 10.0);
    update(&mut book, Side::Sell, 101.0, 10.0);
    let (b, a, mid) = best(&book);
    assert_eq!(b, 100.0);
    assert_eq!(a, 101.0);
    assert_eq!(mid, 100.5);
}

#[test]
fn test_impact_single_level() {
    let mut book = BookLevels::new(100, 10);
    update(&mut book, Side::Buy, 100.0, 10.0);
    update(&mut book, Side::Sell, 101.0, 10.0);
    let (ok, vwap, used) = impact(&book, Side::Sell, 5.0);
    assert!(ok);
    assert_eq!(vwap, 100.0);
    assert_eq!(used, 0);
}

#[test]
fn test_impact_multi_level() {
    let mut book = BookLevels::new(100, 10);
    update(&mut book, Side::Buy, 100.0, 10.0);
    update(&mut book, Side::Buy, 99.9, 20.0);
    update(&mut book, Side::Buy, 99.8, 30.0);
    let (ok, vwap, used) = impact(&book, Side::Sell, 25.0);
    assert!(ok);
    assert!(used >= 1);
    assert!(vwap < 100.0);
    assert!(vwap > 99.9);
}

#[test]
fn test_level_deletion() {
    let mut book = BookLevels::new(100, 10);
    update(&mut book, Side::Buy, 100.0, 10.0);
    update(&mut book, Side::Buy, 99.9, 20.0);
    update(&mut book, Side::Buy, 99.8, 30.0);
    let (ps, ss) = book.resting(Side::Buy).top(10);
    assert_eq!(ps.len(), 3);
    assert_eq!(ss.len(), 3);
    update(&mut book, Side::Buy, 99.9, 0.0);
    let (ps, ss) = book.resting(Side::Buy).top(10);
    assert_eq!(ps.len(), 2);
    assert_eq!(ss.len(), 2);
    assert_eq!(f(ps[0]), 100.0);
    assert_eq!(f(ps[1]), 99.8);
}

#[test]
fn test_top_k_limit() {
    let mut book = BookLevels::new(5, 10);
    for i in 0..10 {
        update(&mut book, Side::Buy, 100.0 - i as f64 * 0.1, 10.0);
    }
    let ps = prices(&book, Side::Buy, 20);
    assert_eq!(ps.len(), 5);
    assert_eq!(ps[0], 100.0);
    assert_eq!(ps[4], 99.6);
}

#[test]
fn test_prefix_sums_correctness() {
    let mut book = BookLevels::new(100, 10);
    update(&mut book, Side::Buy, 100.0, 10.0);
    update(&mut book, Side::Buy, 99.9, 20.0);
    update(&mut book, Side::Buy, 99.8, 30.0);
    let (ok, vwap, used) = impact(&book, Side::Sell, 10.0);
    assert!(ok);
    assert_eq!(vwap, 100.0);
    assert_eq!(used, 0);
    let (ok, vwap, used) = impact(&book, Side::Sell, 25.0);
    assert!(ok);
    assert_eq!(used, 1);
    assert!((vwap - 99.94).abs() < 0.01);
    let (ok, vwap, used) = impact(&book, Side::Sell, 60.0);
    assert!(ok);
    assert_eq!(used, 2);
    assert!((vwap - 99.8667).abs() < 0.01);
}

#[test]
fn test_qty_exactly_at_level_boundary() {
    let mut book = BookLevels::new(100, 10);
    update(&mut book, Side::Buy, 100.0, 10.0);
    update(&mut book, Side::Buy, 99.9, 20.0);
    update(&mut book, Side::Buy, 99.8, 30.0);
    let (ok, vwap, used) = impact(&book, Side::Sell, 10.0);
    assert!(ok);
    assert_eq!(vwap, 100.0);
    assert_eq!(used, 0);
    let (ok, vwap, used) = impact(&book, Side::Sell, 30.0);
    assert!(ok);
    assert_eq!(used, 1);
    assert!((vwap - 99.9333).abs() < 0.001);
}

#[test]
fn test_qty_exceeds_all_liquidity() {
    let mut book = BookLevels::new(100, 10);
    update(&mut book, Side::Buy, 100.0, 10.0);
    update(&mut book, Side::Buy, 99.9, 20.0);
    let (ok, _, _) = impact(&book, Side::Sell, 100.0);
    assert!(!ok);
}

#[test]
fn test_one_sided_book_bid_only() {
    let mut book = BookLevels::new(100, 10);
    update(&mut book, Side::Buy, 100.0, 10.0);
    update(&mut book, Side::Buy, 99.9, 20.0);
    let (b, a, mid) = best(&book);
    assert_eq!(b, 100.0);
    assert_eq!(a, 0.0);
    assert_eq!(mid, 0.0);
    assert!(impact(&book, Side::Sell, 5.0).0);
    assert!(!impact(&book, Side::Buy, 5.0).0);
}

#[test]
fn test_one_sided_book_ask_only() {
    let mut book = BookLevels::new(100, 10);
    update(&mut book, Side::Sell, 101.0, 10.0);
    update(&mut book, Side::Sell, 101.1, 20.0);
    let (b, a, mid) = best(&book);
    assert_eq!(a, 101.0);
    assert_eq!(b, 0.0);
    assert_eq!(mid, 0.0);
    assert!(impact(&book, Side::Buy, 5.0).0);
    assert!(!impact(&book, Side::Sell, 5.0).0);
}

#[test]
fn test_empty_book_impact() {
    let book = BookLevels::new(100, 10);
    assert!(!impact(&book, Side::Sell, 10.0).0);
    assert!(!impact(&book, Side::Buy, 10.0).0);
}

#[test]
fn test_incremental_prefix_sums() {
    let mut book = BookLevels::new(100, 10);
    update(&mut book, Side::Buy, 100.0, 10.0);
    update(&mut book, Side::Buy, 99.9, 20.0);
    update(&mut book, Side::Buy, 99.8, 30.0);
    let (ok, vwap, used) = impact(&book, Side::Sell, 60.0);
    assert!(ok);
    assert_eq!(used, 2);
    assert!((vwap - 99.8667).abs() < 0.01);
    update(&mut book, Side::Buy, 99.9, 25.0);
    let (ok, vwap, used) = impact(&book, Side::Sell, 65.0);
    assert!(ok);
    assert_eq!(used, 2);
    assert!((vwap - 99.8692).abs() < 0.01);
    update(&mut book, Side::Buy, 100.0, 0.0);
    let (ok, vwap, used) = impact(&book, Side::Sell, 55.0);
    assert!(ok);
    assert_eq!(used, 1);
    assert!((vwap - 99.8409).abs() < 0.01);
}

#[test]
fn test_microprice_balanced_book() {
    let mut book = BookLevels::new(100, 10);
    update(&mut book, Side::Buy, 100.0, 10.0);
    update(&mut book, Side::Sell, 100.1, 10.0);
    let mp = microprice(&book).unwrap();
    let mid = best(&book).2;
    assert!((mp - mid).abs() < 1e-6);
    assert!((mp - 100.05).abs() < 1e-6);
    let dev_bps = microprice_deviation_bps(&book).unwrap();
    assert!(dev_bps.abs() < 0.1);
}

#[test]
fn test_microprice_bid_heavy() {
    let mut book = BookLevels::new(100, 10);
    update(&mut book, Side::Buy, 100.0, 20.0);
    update(&mut book, Side::Sell, 100.1, 5.0);
    let mp = microprice(&book).unwrap();
    let mid = best(&book).2;
    assert!((mp - 100.08).abs() < 1e-6);
    assert!(mp > mid);
    let dev_bps = microprice_deviation_bps(&book).unwrap();
    assert!((dev_bps - 3.0).abs() < 0.1);
    assert!(dev_bps > 0.0);
}

#[test]
fn test_microprice_ask_heavy() {
    let mut book = BookLevels::new(100, 10);
    update(&mut book, Side::Buy, 100.0, 5.0);
    update(&mut book, Side::Sell, 100.1, 20.0);
    let mp = microprice(&book).unwrap();
    let mid = best(&book).2;
    assert!((mp - 100.02).abs() < 1e-6);
    assert!(mp < mid);
    let dev_bps = microprice_deviation_bps(&book).unwrap();
    assert!((dev_bps + 3.0).abs() < 0.1);
    assert!(dev_bps < 0.0);
}

#[test]
fn test_microprice_one_sided() {
    let mut book = BookLevels::new(100, 10);
    update(&mut book, Side::Buy, 100.0, 10.0);
    assert!(microprice(&book).is_none());
    let mut book2 = BookLevels::new(100, 10);
    update(&mut book2, Side::Sell, 100.1, 10.0);
    assert!(microprice(&book2).is_none());
}

#[test]
fn test_microprice_empty_book() {
    let book = BookLevels::new(100, 10);
    assert!(microprice(&book).is_none());
    assert!(microprice_deviation_bps(&book).is_none());
}

#[test]
fn test_top_n_configuration() {
    let mut book = BookLevels::new(100, 5);
    for i in 0..10 {
        update(&mut book, Side::Buy, 100.0 - i as f64 * 0.1, 10.0);
        update(&mut book, Side::Sell, 100.1 + i as f64 * 0.1, 10.0);
    }
    let n = book.depth_levels();
    let total: f64 = book.bids().top(n).1.into_iter().map(f).sum::<f64>()
        + book.asks().top(n).1.into_iter().map(f).sum::<f64>();
    assert!((total - 100.0).abs() < 0.01);

    let mut book2 = BookLevels::new(100, 20);
    for i in 0..8 {
        update(&mut book2, Side::Buy, 100.0 - i as f64 * 0.1, 10.0);
        update(&mut book2, Side::Sell, 100.1 + i as f64 * 0.1, 10.0);
    }
    let n = book2.depth_levels();
    let total: f64 = book2.bids().top(n).1.into_iter().map(f).sum::<f64>()
        + book2.asks().top(n).1.into_iter().map(f).sum::<f64>();
    assert!((total - 160.0).abs() < 0.01);
}

#[test]
fn test_gap_ticks() {
    let mut book = BookLevels::new(50, 10);
    update(&mut book, Side::Buy, 100.0, 100.0);
    update(&mut book, Side::Buy, 99.95, 50.0);
    update(&mut book, Side::Sell, 100.10, 80.0);
    update(&mut book, Side::Sell, 100.15, 60.0);
    let bids = prices(&book, Side::Buy, 2);
    let asks = prices(&book, Side::Sell, 2);
    let gap_bid = (bids[0] - bids[1]) / TICK;
    let gap_ask = (asks[1] - asks[0]) / TICK;
    assert!(gap_bid > 0.0);
    assert!(gap_ask > 0.0);
}

#[test]
fn levels_stay_in_price_priority() {
    let mut book = BookLevels::new(100, 10);
    for p in [99.5, 100.0, 99.7, 99.9, 99.6, 100.2, 99.8] {
        update(&mut book, Side::Buy, p, 1.0);
        update(&mut book, Side::Sell, p + 1.0, 1.0);
    }
    let bids = prices(&book, Side::Buy, 100);
    let asks = prices(&book, Side::Sell, 100);
    assert_eq!(bids, vec![100.2, 100.0, 99.9, 99.8, 99.7, 99.6, 99.5]);
    assert_eq!(asks, vec![100.5, 100.6, 100.7, 100.8, 100.9, 101.0, 101.2]);
}

#[test]
fn resize_keeps_price_and_near_price_hits_level() {
    let mut book = BookLevels::new(100, 10);
    update(&mut book, Side::Sell, 101.0, 10.0);
    update(&mut book, Side::Sell, 101.0 - 1e-12, 7.0);
    let (ps, ss) = book.resting(Side::Sell).top(10);
    assert_eq!(ps.len(), 1);
    assert_eq!(f(ps[0]), 101.0);
    assert_eq!(f(ss[0]), 7.0);
}

#[test]
fn delete_missing_level_and_negative_size_change_nothing() {
    let mut book = BookLevels::new(100, 10);
    update(&mut book, Side::Buy, 100.0, 10.0);
    assert_eq!(book.apply(Side::Buy, 1, false, 99.0f64.to_bits(), 0.0f64.to_bits()), None);
    assert_eq!(book.apply(Side::Buy, 1, false, 99.0f64.to_bits(), (-3.0f64).to_bits()), None);
    assert_eq!(prices(&book, Side::Buy, 10), vec![100.0]);
}

#[test]
fn top_k_zero_keeps_nothing() {
    let mut book = BookLevels::new(0, 10);
    update(&mut book, Side::Buy, 100.0, 10.0);
    assert_eq!(book.bids().len(), 0);
    assert!(!impact(&book, Side::Sell, 1.0).0);
}

#[test]
fn fill_level_rejects_nonpositive_qty() {
    let mut book = BookLevels::new(10, 10);
    update(&mut book, Side::Buy, 100.0, 10.0);
    assert_eq!(book.fill_level(Side::Sell, 0.0f64.to_bits()), None);
    assert_eq!(book.fill_level(Side::Sell, (-1.0f64).to_bits()), None);
    assert_eq!(book.fill_level(Side::Sell, 10.0f64.to_bits()), Some(0));
    assert_eq!(book.fill_level(Side::Sell, 10.5f64.to_bits()), None);
}

#[test]
fn touch_needs_positive_quotes() {
    let mut book = BookLevels::new(10, 10);
    update(&mut book, Side::Buy, 100.0, 10.0);
    update(&mut book, Side::Sell, 100.1, 5.0);
    assert_eq!(
        book.touch(),
        Some((100.0f64.to_bits(), 100.1f64.to_bits(), 10.0f64.to_bits(), 5.0f64.to_bits()))
    );
    update(&mut book, Side::Sell, 100.1, -5.0);
    assert_eq!(book.touch(), None);
}

#[test]
fn flow_direction_by_side() {
    assert!(Side::Buy.adds_to_flow(false));
    assert!(!Side::Buy.adds_to_flow(true));
    assert!(!Side::Sell.adds_to_flow(false));
    assert!(Side::Sell.adds_to_flow(true));
}

fn side_state(book: &BookLevels, side: Side) -> (Vec<u64>, Vec<u64>, Vec<u64>, Vec<u64>) {
    let l = book.resting(side);
    let n = l.len();
    (
        (0..n).map(|i| l.price(i)).collect(),
        (0..n).map(|i| l.size(i)).collect(),
        (0..n).map(|i| l.cum_qty(i)).collect(),
        (0..n).map(|i| l.cum_pq(i)).collect(),
    )
}

#[test]
fn repeated_update_changes_nothing() {
    let mut book = BookLevels::new(3, 10);
    update(&mut book, Side::Buy, 100.0, 1.0);
    update(&mut book, Side::Buy, 99.0, 2.0);
    update(&mut book, Side::Sell, 101.0, 3.0);
    for &(side, price, size) in &[
        (Side::Buy, 99.5, 4.0),
        (Side::Buy, 100.0, 5.0),
        (Side::Buy, 99.0, 0.0),
        (Side::Buy, 98.0, 1.0),
        (Side::Buy, 97.0, 1.0),
        (Side::Sell, 102.0, 0.0),
    ] {
        update(&mut book, side, price, size);
        let first = (side_state(&book, Side::Buy), side_state(&book, Side::Sell));
        update(&mut book, side, price, size);
        let second = (side_state(&book, Side::Buy), side_state(&book, Side::Sell));
        assert_eq!(first, second);
    }
}

#[test]
fn updates_keep_prices_distinct_and_sizes_positive() {
    let mut book = BookLevels::new(4, 10);
    let stream = [
        (Side::Buy, 100.0, 1.0),
        (Side::Buy, 100.0, 2.0),
        (Side::Buy, 99.0, 0.0),
        (Side::Buy, 98.0, 3.0),
        (Side::Buy, 101.0, 1.5),
        (Side::Buy, 98.0, 0.0),
        (Side::Sell, 102.0, 1.0),
        (Side::Sell, 102.0, 1.0),
        (Side::Sell, 103.0, 2.0),
        (Side::Sell, 101.5, 0.5),
    ];
    for &(side, price, size) in &stream {
        update(&mut book, side, price, size);
        for s in [Side::Buy, Side::Sell] {
            let (ps, ss, cq, _) = side_state(&book, s);
            for w in ps.windows(2) {
                if s == Side::Buy {
                    assert!(f(w[0]) > f(w[1]));
                } else {
                    assert!(f(w[0]) < f(w[1]));
                }
            }
            assert!(ss.iter().all(|&x| f(x) > 0.0));
            let total: f64 = ss.iter().map(|&x| f(x)).sum();
            if let Some(&last) = cq.last() {
                assert!((f(last) - total).abs() < 1e-9);
            }
        }
    }
    assert_eq!(prices(&book, Side::Buy, 10), vec![101.0, 100.0]);
    assert_eq!(prices(&book, Side::Sell, 10), vec![101.5, 102.0, 103.0]);
}

#[test]
fn fill_succeeds_exactly_up_to_total_depth() {
    let mut book = BookLevels::new(10, 10);
    update(&mut book, Side::Sell, 100.0, 1.0);
    update(&mut book, Side::Sell, 101.0, 2.0);
    assert_eq!(book.fill_level(Side::Buy, 3.0f64.to_bits()), Some(1));
    assert_eq!(book.fill_level(Side::Buy, 3.5f64.to_bits()), None);
    assert_eq!(book.fill_level(Side::Buy, 0.5f64.to_bits()), Some(0));
    assert_eq!(book.fill_level(Side::Buy, 0.0f64.to_bits()), None);
}

#[test]
fn infinite_price_overwrites_its_level() {
    let mut book = BookLevels::new(10, 10);
    update(&mut book, Side::Sell, f64::INFINITY, 1.0);
    update(&mut book, Side::Sell, f64::INFINITY, 2.0);
    assert_eq!(prices(&book, Side::Sell, 10), vec![f64::INFINITY]);
    assert_eq!(book.resting(Side::Sell).size(0), 2.0f64.to_bits());
    update(&mut book, Side::Sell, f64::INFINITY, 0.0);
    assert_eq!(book.resting(Side::Sell).len(), 0);
}
