//! Rolling indicators over a series' history. Every value is exact: a mean
//! or a ratio comes back as a `Fraction` of whole numbers.

use vstd::prelude::*;

use crate::series::{Stock, CAPACITY};

verus! {

/// Why an indicator could not be computed.
#[derive(Clone, Copy, Debug, PartialEq, Eq, Structural)]
pub enum StockError {
    /// The period was zero: every indicator divides by it.
    InvalidArgument,
}

/// The exact value `num / den`; `den` is positive.
#[derive(Clone, Copy, Debug, PartialEq, Eq, Structural)]
pub struct Fraction {
    pub num: i128,
    pub den: i128,
}

/// The sum of the prices in `s`.
pub open spec fn sum(s: Seq<i32>) -> int
    decreases s.len(),
{
    if s.len() == 0 {
        0
    } else {
        sum(s.drop_last()) + s.last()
    }
}

/// The `p` prices of `h` that end just before index `end`.
pub open spec fn window(h: Seq<i32>, end: int, p: int) -> Seq<i32> {
    h.subrange(end - p, end)
}

/// `f` is the arithmetic mean of the prices in `s`, as sum over count.
pub open spec fn is_mean(f: Fraction, s: Seq<i32>) -> bool {
    f.num == sum(s) && f.den == s.len()
}

/// How many rolling values an indicator yields when each one needs `need`
/// prices and `n` are held.
pub open spec fn count_windows(n: int, need: int) -> int {
    if n < need {
        0
    } else {
        n - need + 1
    }
}

proof fn lemma_sum_bounds(s: Seq<i32>)
    ensures
        -2147483648 * s.len() <= sum(s) <= 2147483647 * s.len(),
    decreases s.len(),
{
    if s.len() > 0 {
        lemma_sum_bounds(s.drop_last());
    }
}

/// Sum of `h[start..end]`.
fn window_sum(h: &Vec<i32>, start: usize, end: usize) -> (r: i64)
    requires
        start <= end <= h@.len() <= CAPACITY,
    ensures
        r == sum(h@.subrange(start as int, end as int)),
{
    let mut acc: i64 = 0;
    let mut j: usize = start;
    while j < end
        invariant
            start <= j <= end <= h@.len() <= CAPACITY,
            acc == sum(h@.subrange(start as int, j as int)),
        decreases end - j,
    {
        proof {
            let s = h@.subrange(start as int, j as int + 1);
            assert(s.drop_last() =~= h@.subrange(start as int, j as int));
            lemma_sum_bounds(s);
        }
        acc = acc + h[j] as i64;
        j = j + 1;
    }
    acc
}

/// The rise from the second-to-last price of `s` to its last, or zero.
pub open spec fn last_rise(s: Seq<i32>) -> int {
    let d = s.last() - s[s.len() - 2];
    if d > 0 {
        d
    } else {
        0
    }
}

/// The fall from the second-to-last price of `s` to its last, or zero.
pub open spec fn last_fall(s: Seq<i32>) -> int {
    let d = s[s.len() - 2] - s.last();
    if d > 0 {
        d
    } else {
        0
    }
}

/// The total of the rises between consecutive prices of `s`.
pub open spec fn gains(s: Seq<i32>) -> int
    decreases s.len(),
{
    if s.len() < 2 {
        0
    } else {
        gains(s.drop_last()) + last_rise(s)
    }
}

/// The total of the falls between consecutive prices of `s`.
pub open spec fn losses(s: Seq<i32>) -> int
    decreases s.len(),
{
    if s.len() < 2 {
        0
    } else {
        losses(s.drop_last()) + last_fall(s)
    }
}

/// `f` is the relative strength index of the prices in `s`.
///
/// With average gain `G / p` and average loss `L / p` over the window, the
/// index is `100 - 100 / (1 + G / L)`, which is `100 * G / (G + L)`; where
/// there was no loss at all it is `100`.
pub open spec fn is_rsi(f: Fraction, s: Seq<i32>) -> bool {
    if losses(s) == 0 {
        f.num == 100 && f.den == 1
    } else {
        f.num == 100 * gains(s) && f.den == gains(s) + losses(s)
    }
}

/// `f` lies in `[0, 100]`.
pub open spec fn in_percent_range(f: Fraction) -> bool {
    f.den > 0 && 0 <= f.num <= 100 * f.den
}

proof fn lemma_moves_bounds(s: Seq<i32>)
    ensures
        0 <= gains(s) <= 4294967295 * s.len(),
        0 <= losses(s) <= 4294967295 * s.len(),
    decreases s.len(),
{
    if s.len() >= 2 {
        lemma_moves_bounds(s.drop_last());
    }
}

/// Total rises and total falls between consecutive prices of `h[start..end]`.
fn window_moves(h: &Vec<i32>, start: usize, end: usize) -> (r: (i64, i64))
    requires
        start < end <= h@.len() <= CAPACITY,
    ensures
        r.0 == gains(h@.subrange(start as int, end as int)),
        r.1 == losses(h@.subrange(start as int, end as int)),
{
    let mut up: i64 = 0;
    let mut down: i64 = 0;
    let mut j: usize = start + 1;
    while j < end
        invariant
            start < j <= end <= h@.len() <= CAPACITY,
            up == gains(h@.subrange(start as int, j as int)),
            down == losses(h@.subrange(start as int, j as int)),
        decreases end - j,
    {
        proof {
            let s = h@.subrange(start as int, j as int + 1);
            assert(s.drop_last() =~= h@.subrange(start as int, j as int));
            lemma_moves_bounds(s);
        }
        let change: i64 = h[j] as i64 - h[j - 1] as i64;
        if change > 0 {
            up = up + change;
        } else {
            down = down - change;
        }
        j = j + 1;
    }
    (up, down)
}

/// The sum, over the prices `x` of `s`, of `(p * x - total)^2`.
pub open spec fn scaled_sq_devs(s: Seq<i32>, p: int, total: int) -> int
    decreases s.len(),
{
    if s.len() == 0 {
        0
    } else {
        let d = p * s.last() - total;
        scaled_sq_devs(s.drop_last(), p, total) + d * d
    }
}

/// `f` is the population variance of the `p` prices in `s`.
///
/// With mean `m = total / p`, the variance is the mean of `(x - m)^2`, which
/// is `sum((p * x - total)^2) / p^3`.
pub open spec fn is_variance(f: Fraction, s: Seq<i32>) -> bool {
    let p = s.len() as int;
    f.num == scaled_sq_devs(s, p, sum(s)) && f.den == p * p * p
}

proof fn lemma_scaled_sq_devs_bounds(s: Seq<i32>, p: int, total: int)
    requires
        0 <= p <= CAPACITY,
        -107374182400 <= total <= 107374182400,
    ensures
        0 <= scaled_sq_devs(s, p, total) <= 75557863725914323419136 * s.len(),
    decreases s.len(),
{
    if s.len() > 0 {
        lemma_scaled_sq_devs_bounds(s.drop_last(), p, total);
        let x = s.last() as int;
        let d = p * x - total;
        assert(0 <= d * d <= 75557863725914323419136) by (nonlinear_arith)
            requires
                0 <= p <= 50,
                -2147483648 <= x <= 2147483647,
                -107374182400 <= total <= 107374182400,
                d == p * x - total,
        ;
    }
}

impl Stock {
    /// Simple moving averages: the mean of every run of `period` consecutive
    /// prices, oldest run first. Empty when fewer than `period` prices are held.
    pub fn calculate_sma(&self, period: usize) -> (r: Result<Vec<Fraction>, StockError>)
        requires
            self.wf(),
        ensures
            period == 0 ==> r == Err::<Vec<Fraction>, StockError>(StockError::InvalidArgument),
            period > 0 ==> r is Ok,
            r matches Ok(v) ==> {
                let h = self@.history;
                &&& v@.len() == count_windows(h.len() as int, period as int)
                &&& forall|k: int|
                    0 <= k < v@.len() ==> is_mean(#[trigger] v@[k], h.subrange(k, k + period))
            },
    {
        if period == 0 {
            return Err(StockError::InvalidArgument);
        }
        let h = self.history_ref();
        let n = h.len();
        let mut out: Vec<Fraction> = Vec::new();
        if n < period {
            return Ok(out);
        }
        let mut i: usize = period;
        while i <= n
            invariant
                1 <= period <= i <= n + 1,
                n == h@.len() <= CAPACITY,
                h@ == self@.history,
                out@.len() == i - period,
                forall|k: int|
                    0 <= k < out@.len() ==> is_mean(#[trigger] out@[k], h@.subrange(k, k + period)),
            decreases n + 1 - i,
        {
            let total = window_sum(h, i - period, i);
            out.push(Fraction { num: total as i128, den: period as i128 });
            i = i + 1;
        }
        Ok(out)
    }

    /// Relative strength index of every run of `period + 1` consecutive
    /// prices (so `period` moves), oldest run first. Empty when no more than
    /// `period` prices are held.
    pub fn calculate_rsi(&self, period: usize) -> (r: Result<Vec<Fraction>, StockError>)
        requires
            self.wf(),
        ensures
            period == 0 ==> r == Err::<Vec<Fraction>, StockError>(StockError::InvalidArgument),
            period > 0 ==> r is Ok,
            r matches Ok(v) ==> {
                let h = self@.history;
                &&& v@.len() == count_windows(h.len() as int, period + 1)
                &&& forall|k: int|
                    0 <= k < v@.len() ==> is_rsi(#[trigger] v@[k], h.subrange(k, k + period + 1))
                &&& forall|k: int| 0 <= k < v@.len() ==> in_percent_range(#[trigger] v@[k])
            },
    {
        if period == 0 {
            return Err(StockError::InvalidArgument);
        }
        let h = self.history_ref();
        let n = h.len();
        let mut out: Vec<Fraction> = Vec::new();
        if n <= period {
            return Ok(out);
        }
        let mut i: usize = period;
        while i < n
            invariant
                1 <= period <= i <= n,
                n == h@.len() <= CAPACITY,
                h@ == self@.history,
                out@.len() == i - period,
                forall|k: int|
                    0 <= k < out@.len() ==> is_rsi(#[trigger] out@[k], h@.subrange(k, k + period + 1)),
                forall|k: int| 0 <= k < out@.len() ==> in_percent_range(#[trigger] out@[k]),
            decreases n - i,
        {
            let (up, down) = window_moves(h, i - period, i + 1);
            proof {
                lemma_moves_bounds(h@.subrange(i - period, i + 1));
            }
            let value = if down == 0 {
                Fraction { num: 100, den: 1 }
            } else {
                Fraction { num: 100 * up as i128, den: up as i128 + down as i128 }
            };
            out.push(value);
            i = i + 1;
        }
        Ok(out)
    }

    /// Population variance of the last `period` prices; the volatility is
    /// its square root. Zero when fewer than `period` prices are held.
    pub fn calculate_volatility(&self, period: usize) -> (r: Result<Fraction, StockError>)
        requires
            self.wf(),
        ensures
            period == 0 ==> r == Err::<Fraction, StockError>(StockError::InvalidArgument),
            period > 0 ==> r is Ok,
            r matches Ok(f) ==> {
                let h = self@.history;
                &&& f.den > 0
                &&& f.num >= 0
                &&& h.len() < period ==> f == (Fraction { num: 0, den: 1 })
                &&& h.len() >= period ==> is_variance(f, window(h, h.len() as int, period as int))
            },
    {
        if period == 0 {
            return Err(StockError::InvalidArgument);
        }
        let h = self.history_ref();
        let n = h.len();
        if n < period {
            return Ok(Fraction { num: 0, den: 1 });
        }
        let start = n - period;
        let total = window_sum(h, start, n);
        let ghost w = h@.subrange(start as int, n as int);
        proof {
            lemma_sum_bounds(w);
        }
        let p = period as i64;
        let mut acc: i128 = 0;
        let mut j: usize = start;
        while j < n
            invariant
                start <= j <= n == h@.len() <= CAPACITY,
                start == n - period,
                p == period,
                total == sum(w),
                w == h@.subrange(start as int, n as int),
                -107374182400 <= total <= 107374182400,
                acc == scaled_sq_devs(h@.subrange(start as int, j as int), p as int, total as int),
                0 <= acc <= 75557863725914323419136 * (j - start),
            decreases n - j,
        {
            let x = h[j] as i64;
            assert(-107374182400 <= p * x <= 107374182400) by (nonlinear_arith)
                requires
                    1 <= p <= 50,
                    -2147483648 <= x <= 2147483647,
            ;
            let d = p * x - total;
            proof {
                let s = h@.subrange(start as int, j as int + 1);
                assert(s.drop_last() =~= h@.subrange(start as int, j as int));
                lemma_scaled_sq_devs_bounds(s, p as int, total as int);
                assert(d * d <= 75557863725914323419136) by (nonlinear_arith)
                    requires
                        -214748364800 <= d <= 214748364800,
                ;
            }
            acc = acc + (d as i128) * (d as i128);
            j = j + 1;
        }
        assert(h@.subrange(start as int, n as int) =~= window(h@, n as int, period as int));
        let q = period as i128;
        assert(0 < q * q <= 2500 && 0 < q * q * q <= 125000) by (nonlinear_arith)
            requires
                1 <= q <= 50,
        ;
        let den = q * q * q;
        Ok(Fraction { num: acc, den })
    }
}

} // verus!
