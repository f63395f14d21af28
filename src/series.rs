//! The price series: an identifier, the current price, and the most recent
//! prices, oldest first, never more than `CAPACITY` of them.

use vstd::prelude::*;

verus! {

/// The most prices a series keeps; recording one more drops the oldest.
pub const CAPACITY: usize = 50;

/// History after recording `price`: it goes at the end, and if that makes
/// the history longer than `CAPACITY`, the oldest price is dropped.
pub open spec fn record(history: Seq<i32>, price: i32) -> Seq<i32> {
    let grown = history.push(price);
    if grown.len() > CAPACITY {
        grown.drop_first()
    } else {
        grown
    }
}

/// Every price taken from `start` through the moves `deltas`: `start`
/// first, then one price per move.
pub open spec fn walk(start: int, deltas: Seq<int>) -> Seq<int>
    decreases deltas.len(),
{
    if deltas.len() == 0 {
        seq![start]
    } else {
        let w = walk(start, deltas.drop_last());
        w.push(w.last() + deltas.last())
    }
}

/// Every price of `walk(start, deltas)` is a valid price.
pub open spec fn walk_fits(start: int, deltas: Seq<int>) -> bool {
    forall|i: int|
        0 <= i < walk(start, deltas).len() ==> i32::MIN <= #[trigger] walk(start, deltas)[i]
            <= i32::MAX
}

proof fn lemma_walk_len(start: int, deltas: Seq<int>)
    ensures
        walk(start, deltas).len() == deltas.len() + 1,
    decreases deltas.len(),
{
    if deltas.len() > 0 {
        lemma_walk_len(start, deltas.drop_last());
    }
}

/// A series started at `start_price` and moved by each of `deltas` in turn
/// holds the last `CAPACITY` prices of the walk (all of them while there are
/// no more), in order, and its current price is the walk's last. So the
/// history never grows past `CAPACITY`, and after `k >= CAPACITY` moves its
/// oldest price is the one taken after move `k + 1 - CAPACITY`.
pub proof fn lemma_history_is_walk_tail(symbol: Seq<char>, start_price: i32, deltas: Seq<int>)
    requires
        walk_fits(start_price as int, deltas),
    ensures
        ({
            let v = StockView::initial(symbol, start_price).moved_by(deltas);
            let w = walk(start_price as int, deltas);
            &&& v.wf()
            &&& v.price == w.last()
            &&& v.history.len() == if w.len() < CAPACITY { w.len() as int } else { CAPACITY as int }
            &&& forall|i: int|
                0 <= i < v.history.len() ==> #[trigger] v.history[i] == w[w.len()
                    - v.history.len() + i]
        }),
    decreases deltas.len(),
{
    lemma_walk_len(start_price as int, deltas);
    let w = walk(start_price as int, deltas);
    if deltas.len() == 0 {
        assert(w[0] == start_price);
    } else {
        let rest = deltas.drop_last();
        let wr = walk(start_price as int, rest);
        lemma_walk_len(start_price as int, rest);
        assert forall|i: int| 0 <= i < wr.len() implies i32::MIN <= #[trigger] wr[i]
            <= i32::MAX by {
            assert(w[i] == wr[i]);
        }
        lemma_history_is_walk_tail(symbol, start_price, rest);
        assert(w[w.len() - 1] == w.last());
    }
}

/// What a series holds, as mathematical values.
pub struct StockView {
    pub symbol: Seq<char>,
    pub price: i32,
    pub history: Seq<i32>,
}

impl StockView {
    /// A series as it stands right after construction.
    pub open spec fn initial(symbol: Seq<char>, start_price: i32) -> StockView {
        StockView { symbol, price: start_price, history: seq![start_price] }
    }

    /// The series after the price moves by `delta` ticks.
    pub open spec fn moved(self, delta: int) -> StockView {
        let price = (self.price + delta) as i32;
        StockView { symbol: self.symbol, price, history: record(self.history, price) }
    }

    /// The series after the moves `deltas`, one after another.
    pub open spec fn moved_by(self, deltas: Seq<int>) -> StockView
        decreases deltas.len(),
    {
        if deltas.len() == 0 {
            self
        } else {
            self.moved_by(deltas.drop_last()).moved(deltas.last())
        }
    }

    /// The history is never empty, never over capacity, and ends with the
    /// current price.
    pub open spec fn wf(self) -> bool {
        &&& 1 <= self.history.len() <= CAPACITY
        &&& self.history.last() == self.price
    }
}

/// A traded instrument and its recent prices, in ticks.
pub struct Stock {
    symbol: String,
    price: i32,
    history: Vec<i32>,
}

impl View for Stock {
    type V = StockView;

    closed spec fn view(&self) -> StockView {
        StockView { symbol: self.symbol@, price: self.price, history: self.history@ }
    }
}

impl Stock {
    pub open spec fn wf(&self) -> bool {
        self@.wf()
    }

    /// A series for `symbol` whose history holds `start_price` alone.
    pub fn new(symbol: String, start_price: i32) -> (r: Stock)
        ensures
            r@ == StockView::initial(symbol@, start_price),
            r.wf(),
    {
        let mut history: Vec<i32> = Vec::new();
        history.push(start_price);
        let r = Stock { symbol, price: start_price, history };
        assert(r@.history =~= seq![start_price]);
        r
    }

    pub fn symbol(&self) -> (r: String)
        ensures
            r@ == self@.symbol,
    {
        self.symbol.clone()
    }

    /// The current price, which is the last price of the history.
    pub fn price(&self) -> (r: i32)
        requires
            self.wf(),
        ensures
            r == self@.price,
            r == self@.history.last(),
    {
        self.price
    }

    /// A copy of the history, oldest first.
    pub fn history(&self) -> (r: Vec<i32>)
        ensures
            r@ == self@.history,
    {
        let r = self.history.clone();
        assert(r@ =~= self.history@);
        r
    }

    /// Moves the price by `delta` ticks and records the new price, dropping
    /// the oldest one when the history would go over `CAPACITY`.
    pub fn update_price(&mut self, delta: i32)
        requires
            old(self).wf(),
            i32::MIN <= old(self)@.price + delta <= i32::MAX,
        ensures
            final(self)@ == old(self)@.moved(delta as int),
            final(self).wf(),
    {
        self.price = self.price + delta;
        self.history.push(self.price);
        if self.history.len() > CAPACITY {
            self.history.remove(0);
        }
        proof {
            let h = old(self)@.history.push(self.price);
            if h.len() > CAPACITY {
                assert(self.history@ =~= h.drop_first());
            } else {
                assert(self.history@ =~= h);
            }
        }
    }

    /// The history itself, for the indicators to read.
    pub(crate) fn history_ref(&self) -> (r: &Vec<i32>)
        ensures
            r@ == self@.history,
    {
        &self.history
    }
}

} // verus!
