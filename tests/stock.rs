use stock_indicators::{Fraction, Stock, StockError, CAPACITY};

fn value(f: &Fraction) -> f64 {
    f.num as f64 / f.den as f64
}

fn values(v: &[Fraction]) -> Vec<f64> {
    v.iter().map(value).collect()
}

fn series(prices: &[i32]) -> Stock {
    let mut s = Stock::new("TEST".to_string(), prices[0]);
    for w in prices.windows(2) {
        s.update_price(w[1] - w[0]);
    }
    assert_eq!(s.history(), prices.to_vec());
    s
}

#[test]
fn new_holds_start_price_only() {
    let s = Stock::new("ACME".to_string(), 100);
    assert_eq!(s.symbol(), "ACME");
    assert_eq!(s.price(), 100);
    assert_eq!(s.history(), vec![100]);
    assert_eq!(values(&s.calculate_sma(1).unwrap()), vec![100.0]);
    assert_eq!(s.calculate_sma(2).unwrap(), vec![]);
}

#[test]
fn sma_of_two() {
    let s = series(&[10, 12, 11, 14]);
    let sma = s.calculate_sma(2).unwrap();
    assert_eq!(values(&sma), vec![11.0, 11.5, 12.5]);
    assert_eq!(sma[1], Fraction { num: 23, den: 2 });
}

#[test]
fn sma_length_and_window_means() {
    let s = series(&[3, 5, 7, 2, 8, 1]);
    for p in 1..=8usize {
        let sma = s.calculate_sma(p).unwrap();
        let h = s.history();
        let expected_len = if h.len() < p { 0 } else { h.len() - p + 1 };
        assert_eq!(sma.len(), expected_len);
        for (k, f) in sma.iter().enumerate() {
            let total: i32 = h[k..k + p].iter().sum();
            assert_eq!(value(f), total as f64 / p as f64);
        }
    }
}

#[test]
fn sma_whole_history() {
    let s = series(&[1, 2, 3, 4]);
    assert_eq!(values(&s.calculate_sma(4).unwrap()), vec![2.5]);
    assert_eq!(s.calculate_sma(5).unwrap(), vec![]);
}

#[test]
fn rsi_single_moves() {
    let s = series(&[10, 12, 9, 9, 12]);
    let rsi = s.calculate_rsi(1).unwrap();
    assert_eq!(values(&rsi), vec![100.0, 0.0, 100.0, 100.0]);
}

#[test]
fn rsi_two_moves() {
    let s = series(&[10, 12, 9, 9, 12]);
    let rsi = s.calculate_rsi(2).unwrap();
    assert_eq!(values(&rsi), vec![40.0, 0.0, 100.0]);
}

#[test]
fn rsi_length_and_range() {
    let s = series(&[5, 9, 4, 4, 10, 3, 7]);
    for p in 1..=9usize {
        let rsi = s.calculate_rsi(p).unwrap();
        let n = s.history().len();
        assert_eq!(rsi.len(), if n <= p { 0 } else { n - p });
        for f in &rsi {
            let v = value(f);
            assert!((0.0..=100.0).contains(&v));
        }
    }
}

#[test]
fn rsi_needs_more_than_period_prices() {
    let s = series(&[1, 2, 3]);
    assert_eq!(s.calculate_rsi(3).unwrap(), vec![]);
    assert_eq!(s.calculate_rsi(2).unwrap().len(), 1);
}

#[test]
fn volatility_flat_is_zero() {
    let s = series(&[10, 10, 10, 10]);
    assert_eq!(value(&s.calculate_volatility(4).unwrap()).sqrt(), 0.0);
}

#[test]
fn volatility_short_history_is_zero() {
    let s = series(&[10, 20, 30]);
    let f = s.calculate_volatility(4).unwrap();
    assert_eq!(f, Fraction { num: 0, den: 1 });
    assert_eq!(value(&f).sqrt(), 0.0);
}

#[test]
fn volatility_population_deviation() {
    let s = series(&[2, 4, 4, 4, 5, 5, 7, 9]);
    let f = s.calculate_volatility(8).unwrap();
    assert_eq!(value(&f), 4.0);
    assert_eq!(value(&f).sqrt(), 2.0);
}

#[test]
fn volatility_uses_trailing_window() {
    let s = series(&[100, 1, 3]);
    assert_eq!(value(&s.calculate_volatility(2).unwrap()), 1.0);
    assert!(value(&s.calculate_volatility(3).unwrap()) >= 0.0);
}

#[test]
fn zero_period_is_rejected() {
    let s = series(&[1, 2, 3]);
    assert_eq!(s.calculate_sma(0), Err(StockError::InvalidArgument));
    assert_eq!(s.calculate_rsi(0), Err(StockError::InvalidArgument));
    assert_eq!(s.calculate_volatility(0), Err(StockError::InvalidArgument));
}

#[test]
fn history_capped_after_many_updates() {
    let mut s = Stock::new("ACME".to_string(), 1000);
    let mut all = vec![1000];
    for k in 0..60i32 {
        let delta = (k % 7) - 3;
        s.update_price(delta);
        all.push(all[all.len() - 1] + delta);
        assert!(s.history().len() <= CAPACITY);
        assert_eq!(s.price(), *s.history().last().unwrap());
    }
    assert_eq!(all.len(), 61);
    assert_eq!(s.history().len(), 50);
    assert_eq!(s.history(), all[11..].to_vec());
}

#[test]
fn oldest_retained_after_fifty_one_updates() {
    let mut s = Stock::new("ACME".to_string(), 0);
    for _ in 0..51 {
        s.update_price(1);
    }
    assert_eq!(s.history().len(), 50);
    assert_eq!(s.history()[0], 2);
    assert_eq!(s.price(), 51);
}

#[test]
fn history_grows_until_capacity() {
    let mut s = Stock::new("ACME".to_string(), 5);
    for k in 1..=49usize {
        s.update_price(1);
        assert_eq!(s.history().len(), k + 1);
    }
    s.update_price(1);
    assert_eq!(s.history().len(), 50);
    assert_eq!(s.history()[0], 6);
}
