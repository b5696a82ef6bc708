//! Price updates from the ticker stream, and the per-symbol market state
//! that they are merged into.
use vstd::prelude::*;
use crate::decimal::{Decimal, fmt_dec, price_text, plain_text, push_str, string_from_chars};
use crate::arith::{parse_dec, price_of, finite_of, dec_difference, dec_quotient, dec_product};

verus! {

/// One entry of a ticker stream frame, as the exchange sends it: the prices
/// are still text.
pub struct TickerUpdate {
    /// Event time (millis)
    pub ts: u64,
    /// Exchange symbol
    pub symbol: String,
    /// Last price
    pub px: String,
    /// Price 24h ago
    pub px_24h: String,
}

/// A single update item from the markets websocket stream
pub struct Update {
    /// Exchange symbol
    pub symbol: String,
    /// timestamp (millis)
    pub ts: u64,
    /// price update
    pub px: Decimal,
    /// price 24h ago
    pub px_24h: Decimal,
}

/// Why a frame of updates was refused.
#[derive(Debug, Clone, Copy, PartialEq, Eq, Structural)]
pub enum ParseError {
    /// The frame is not a batch of ticker entries.
    Frame,
    /// The last price of the entry at this position is no number.
    Price(usize),
    /// The 24h reference price of the entry at this position is no number.
    ReferencePrice(usize),
    /// A number of the ticker entry at this position is no number.
    Number(usize),
}

/// The update that a ticker entry stands for, if both prices are numbers.
pub open spec fn update_of(t: TickerUpdate) -> Option<(u64, Seq<char>, Decimal, Decimal)> {
    match (price_of(t.px@), price_of(t.px_24h@)) {
        (Some(px), Some(r)) => Some((t.ts, t.symbol@, px, r)),
        _ => None,
    }
}

/// The error for a frame: the first entry whose price, then reference
/// price, is no number.
pub open spec fn first_bad_entry(raw: Seq<TickerUpdate>) -> Option<ParseError>
    decreases raw.len(),
{
    if raw.len() == 0 {
        None
    } else {
        match first_bad_entry(raw.drop_last()) {
            Some(e) => Some(e),
            None => {
                let i = (raw.len() - 1) as usize;
                if price_of(raw.last().px@) is None {
                    Some(ParseError::Price(i))
                } else if price_of(raw.last().px_24h@) is None {
                    Some(ParseError::ReferencePrice(i))
                } else {
                    None
                }
            },
        }
    }
}

/// An update, as plain values.
pub open spec fn update_view(u: Update) -> (u64, Seq<char>, Decimal, Decimal) {
    (u.ts, u.symbol@, u.px, u.px_24h)
}

/// Parse a ws stream message with updates: every entry or none. On success
/// the updates stand in the order of the entries.
#[verifier::rlimit(40)]
pub fn parse_updates(raw: &Vec<TickerUpdate>) -> (r: Result<Vec<Update>, ParseError>)
    ensures
        first_bad_entry(raw@) is None ==> (r matches Ok(us) && us@.len() == raw@.len()
            && forall|i: int| 0 <= i < raw@.len() ==> update_of(#[trigger] raw@[i]) == Some(update_view(us@[i]))),
        first_bad_entry(raw@) matches Some(e) ==> r == Err::<Vec<Update>, ParseError>(e),
        r matches Ok(us) ==> forall|i: int| 0 <= i < us@.len() ==> us@[i].px.wf() && us@[i].px_24h.wf(),
{
    let mut out: Vec<Update> = Vec::new();
    let mut i: usize = 0;
    while i < raw.len()
        invariant
            i <= raw@.len(),
            out@.len() == i,
            first_bad_entry(raw@.subrange(0, i as int)) is None,
            forall|j: int| 0 <= j < i ==> update_of(#[trigger] raw@[j]) == Some(update_view(out@[j])),
            forall|j: int| 0 <= j < i ==> out@[j].px.wf() && out@[j].px_24h.wf(),
        decreases raw.len() - i,
    {
        let t = &raw[i];
        assert(raw@.subrange(0, i + 1).drop_last() =~= raw@.subrange(0, i as int));
        let px = match parse_dec(t.px.as_str()) {
            Some(px) => px,
            None => {
                proof {
                    lemma_first_bad_prefix(raw@, (i + 1) as int);
                }
                return Err(ParseError::Price(i));
            },
        };
        let px_24h = match parse_dec(t.px_24h.as_str()) {
            Some(r) => r,
            None => {
                proof {
                    lemma_first_bad_prefix(raw@, (i + 1) as int);
                }
                return Err(ParseError::ReferencePrice(i));
            },
        };
        out.push(Update { symbol: t.symbol.clone(), ts: t.ts, px, px_24h });
        i = i + 1;
    }
    assert(raw@.subrange(0, raw@.len() as int) =~= raw@);
    Ok(out)
}

/// Once a prefix has a bad entry, every longer prefix reports that one.
pub proof fn lemma_first_bad_prefix(raw: Seq<TickerUpdate>, n: int)
    requires
        0 <= n <= raw.len(),
    ensures
        first_bad_entry(raw.subrange(0, n)) is Some ==> first_bad_entry(raw) == first_bad_entry(
            raw.subrange(0, n),
        ),
    decreases raw.len() - n,
{
    if n < raw.len() {
        lemma_first_bad_prefix(raw, n + 1);
        assert(raw.subrange(0, n + 1).drop_last() =~= raw.subrange(0, n));
    } else {
        assert(raw.subrange(0, n) =~= raw);
    }
}

/// Which way a price moved.
#[derive(Debug, Clone, Copy, PartialEq, Eq, Structural)]
pub enum Trend {
    Up,
    Down,
    Flat,
}

/// Stores the relevant market data; a price not yet known is `None`.
#[derive(Debug, Clone, Copy)]
pub struct MarketState {
    pub px: Option<Decimal>,
    pub ts: u64,
    pub last_px: Option<Decimal>,
    pub px_24h: Option<Decimal>,
    pub precision: u32,
}

/// Every known price of the state is within the bounds of `Decimal`.
pub open spec fn prices_wf(s: MarketState) -> bool {
    &&& s.px matches Some(d) ==> d.wf()
    &&& s.last_px matches Some(d) ==> d.wf()
    &&& s.px_24h matches Some(d) ==> d.wf()
}

/// The state after one update: the current price becomes the previous one.
pub open spec fn updated(s: MarketState, u: (u64, Seq<char>, Decimal, Decimal)) -> MarketState {
    MarketState { px: Some(u.2), ts: u.0, last_px: s.px, px_24h: Some(u.3), precision: s.precision }
}

/// How `a` compares with `b`: `Flat` when either is unknown.
pub open spec fn trend_of(a: Option<Decimal>, b: Option<Decimal>) -> Trend {
    match (a, b) {
        (Some(x), Some(y)) => if y.lt(x) {
            Trend::Up
        } else if x.lt(y) {
            Trend::Down
        } else {
            Trend::Flat
        },
        _ => Trend::Flat,
    }
}

/// The change from the reference price to the previous price, as a
/// fraction of the reference price, when the rounded arithmetic gives one.
pub open spec fn change_of(s: MarketState) -> Option<Decimal> {
    match (s.last_px, s.px_24h) {
        (Some(l), Some(r)) => match finite_of(
            dec_difference(l.coef as int, l.exp as int, r.coef as int, r.exp as int),
        ) {
            Some(d) => finite_of(dec_quotient(d.coef as int, d.exp as int, r.coef as int, r.exp as int)),
            None => None,
        },
        _ => None,
    }
}

/// `s` cut to six characters and padded on the left with spaces to six.
pub open spec fn fit6(s: Seq<char>) -> Seq<char> {
    let t = if s.len() > 6 {
        s.subrange(0, 6)
    } else {
        s
    };
    Seq::new((6 - t.len()) as nat, |i: int| ' ') + t
}

/// The percentage text of a state: `-` when there is no change to show,
/// else the change times one hundred, with a `+` when it is positive;
/// always six characters wide.
pub open spec fn percent_text(s: MarketState) -> Seq<char> {
    fit6(
        match change_of(s) {
            None => "-"@,
            Some(p) => {
                let t = match finite_of(dec_product(p.coef as int, p.exp as int, 100, 0)) {
                    Some(q) => plain_text(q),
                    None => "-"@,
                };
                if p.coef > 0 {
                    "+"@ + t
                } else {
                    t
                }
            },
        },
    )
}

impl MarketState {
    /// A state with no prices known yet.
    pub fn new() -> (r: MarketState)
        ensures
            r.px is None,
            r.last_px is None,
            r.px_24h is None,
            r.ts == 0,
            r.precision == 8,
    {
        MarketState { px: None, ts: 0, last_px: None, px_24h: None, precision: 8 }
    }

    /// Update `MarketState` with data from `Update`
    pub fn update(&mut self, update: &Update)
        ensures
            *final(self) == updated(*old(self), update_view(*update)),
    {
        self.last_px = self.px;
        self.px = Some(update.px);
        self.px_24h = Some(update.px_24h);
        self.ts = update.ts;
    }

    /// The current price as display text.
    pub fn price_string(&self) -> (r: String)
        requires
            prices_wf(*self),
        ensures
            r@ == price_text(self.px),
    {
        fmt_dec(self.px)
    }

    /// The change against the price 24h ago, in percent, six characters
    /// wide.
    #[verifier::rlimit(40)]
    pub fn percentage_string(&self) -> (r: String)
        requires
            prices_wf(*self),
        ensures
            r@ == percent_text(*self),
    {
        let change: Option<Decimal> = match (self.last_px, self.px_24h) {
            (Some(l), Some(r)) => match l.sub(&r) {
                Some(d) => d.div(&r),
                None => None,
            },
            _ => None,
        };
        let mut s: Vec<char> = Vec::new();
        match change {
            None => push_str("-", &mut s),
            Some(p) => {
                if p.coef > 0 {
                    push_str("+", &mut s);
                }
                match p.mul(&Decimal::new(100, 0)) {
                    Some(q) => {
                        let t = q.plain_chars();
                        crate::decimal::push_range(&t, 0, t.len(), &mut s);
                        assert(t@.subrange(0, t@.len() as int) =~= t@);
                    },
                    None => push_str("-", &mut s),
                }
            },
        }
        let ghost full = s@;
        if s.len() > 6 {
            s.truncate(6);
        }
        let mut out: Vec<char> = Vec::new();
        let pad: usize = 6 - s.len();
        crate::decimal::push_repeated(' ', pad, &mut out);
        crate::decimal::push_range(&s, 0, s.len(), &mut out);
        proof {
            assert(s@.subrange(0, s@.len() as int) =~= s@);
            if full.len() > 6 {
                assert(s@ =~= full.subrange(0, 6));
            }
            assert(out@ =~= fit6(full));
        }
        string_from_chars(&out)
    }

    /// Which way the price moved with the last update.
    pub fn style(&self) -> (r: Trend)
        requires
            prices_wf(*self),
        ensures
            r == trend_of(self.px, self.last_px),
    {
        trend(self.px, self.last_px)
    }

    /// Which way the price moved against the price 24h ago.
    pub fn style_percent(&self) -> (r: Trend)
        requires
            prices_wf(*self),
        ensures
            r == trend_of(self.px, self.px_24h),
    {
        trend(self.px, self.px_24h)
    }
}

fn trend(a: Option<Decimal>, b: Option<Decimal>) -> (r: Trend)
    requires
        a matches Some(x) ==> x.wf(),
        b matches Some(y) ==> y.wf(),
    ensures
        r == trend_of(a, b),
{
    match (a, b) {
        (Some(x), Some(y)) => {
            let c = x.compare(&y);
            if c == 1 {
                Trend::Up
            } else if c == -1 {
                Trend::Down
            } else {
                Trend::Flat
            }
        },
        _ => Trend::Flat,
    }
}

} // verus!
