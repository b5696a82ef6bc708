//! The symbol catalog: tradable symbols with their 24h volume in USDT,
//! ranked by volume, and the base and quote currencies ranked the same way.
use vstd::prelude::*;
use crate::decimal::{Decimal, chars_of, push_range, push_str, string_from_chars, text_eq};
use crate::arith::{finite_of, dec_product, dec_sum, price_of};
use crate::market::ParseError;
use crate::rank::{Ranked, ranked_desc, sort_by_rank, stable_arrangement};

verus! {

/// The currency that all volumes are converted to.
pub open spec fn reference_unit() -> Seq<char> {
    "USDT"@
}

/// A symbol of the exchange's catalog, as the exchange lists it.
pub struct MarketInfoSymbol {
    pub symbol: String,
    pub status: String,
    pub base_asset: String,
    pub quote_asset: String,
}

/// A 24h ticker entry, as the exchange sends it: the numbers are still text.
pub struct Ticker {
    pub symbol: String,
    pub price_change: String,
    pub quote_volume: String,
    pub last_price: String,
}

/// Market information subset as retrieved from the 24h ticker.
pub struct Market {
    pub symbol: String,
    pub price: Decimal,
    pub volume: Decimal,
    pub price_change: Decimal,
}

/// `Info` contains symbol, base, quote and the 24h volume in USDT.
pub struct Info {
    pub symbol: String,
    pub base: String,
    pub quote: String,
    pub volume: Decimal,
}

impl Ranked for Info {
    open spec fn rank(&self) -> Decimal {
        self.volume
    }

    fn volume_of(&self) -> (r: Decimal) {
        self.volume
    }
}

impl Clone for Info {
    fn clone(&self) -> (r: Info)
        ensures
            r == *self,
    {
        Info {
            symbol: self.symbol.clone(),
            base: self.base.clone(),
            quote: self.quote.clone(),
            volume: self.volume,
        }
    }
}

/// An info, as plain values: symbol, base, quote and volume.
pub open spec fn info_view(i: Info) -> (Seq<char>, Seq<char>, Seq<char>, Decimal) {
    (i.symbol@, i.base@, i.quote@, i.volume)
}

impl Info {
    /// The symbol as shown in lists: the base alone when it is quoted in
    /// USDT, else the whole symbol.
    pub fn short_symbol(&self) -> (r: &String)
        ensures
            r@ == if self.quote@ == reference_unit() {
                self.base@
            } else {
                self.symbol@
            },
    {
        if text_eq(self.quote.as_str(), "USDT") {
            &self.base
        } else {
            &self.symbol
        }
    }
}

/// A market, as plain values: symbol, price, volume and price change.
pub open spec fn market_view(m: Market) -> (Seq<char>, Decimal, Decimal, Decimal) {
    (m.symbol@, m.price, m.volume, m.price_change)
}

/// The markets of a ticker list: entries whose volume is positive, in
/// order; or the first entry with a field that is no number.
pub open spec fn markets_of(ts: Seq<Ticker>) -> Result<Seq<(Seq<char>, Decimal, Decimal, Decimal)>, ParseError>
    decreases ts.len(),
{
    if ts.len() == 0 {
        Ok(Seq::empty())
    } else {
        match markets_of(ts.drop_last()) {
            Err(e) => Err(e),
            Ok(ms) => {
                let t = ts.last();
                match (price_of_plain(t.price_change@), price_of_plain(t.quote_volume@), price_of_plain(t.last_price@)) {
                    (Some(c), Some(v), Some(p)) => if v.coef > 0 {
                        Ok(ms.push((t.symbol@, p, v, c)))
                    } else {
                        Ok(ms)
                    },
                    _ => Err(ParseError::Number((ts.len() - 1) as usize)),
                }
            },
        }
    }
}

/// The number that a ticker field stands for, read as it is.
pub open spec fn price_of_plain(s: Seq<char>) -> Option<Decimal> {
    match crate::arith::dec_parsed(s) {
        Some(t) => finite_of(t),
        None => None,
    }
}

/// Reads the markets of a 24h ticker list: every number or none. Only
/// markets with a positive volume are kept, in the order of the list.
#[verifier::rlimit(40)]
pub fn get_markets(tickers: &Vec<Ticker>) -> (r: Result<Vec<Market>, ParseError>)
    ensures
        match (r, markets_of(tickers@)) {
            (Ok(ms), Ok(vs)) => ms@.map_values(|m: Market| market_view(m)) == vs,
            (Err(e), Err(f)) => e == f,
            _ => false,
        },
        r matches Ok(ms) ==> forall|i: int| 0 <= i < ms@.len() ==> (#[trigger] ms@[i]).volume.wf()
            && ms@[i].price.wf(),
{
    let mut out: Vec<Market> = Vec::new();
    let mut i: usize = 0;
    assert(tickers@.subrange(0, 0) =~= Seq::<Ticker>::empty());
    assert(out@.map_values(|m: Market| market_view(m)) =~= Seq::empty());
    while i < tickers.len()
        invariant
            i <= tickers@.len(),
            markets_of(tickers@.subrange(0, i as int)) == Ok::<_, ParseError>(out@.map_values(|m: Market| market_view(m))),
            forall|k: int| 0 <= k < out@.len() ==> (#[trigger] out@[k]).volume.wf() && out@[k].price.wf(),
        decreases tickers.len() - i,
    {
        let t = &tickers[i];
        let ghost pre = tickers@.subrange(0, i + 1);
        assert(pre.drop_last() =~= tickers@.subrange(0, i as int));
        let c = crate::arith::parse_decimal(t.price_change.as_str());
        let v = crate::arith::parse_decimal(t.quote_volume.as_str());
        let p = crate::arith::parse_decimal(t.last_price.as_str());
        match (c, v, p) {
            (Some(c), Some(v), Some(p)) => {
                if v.coef > 0 {
                    out.push(Market { symbol: t.symbol.clone(), price: p, volume: v, price_change: c });
                }
            },
            _ => {
                proof {
                    lemma_markets_err_prefix(tickers@, i + 1);
                }
                return Err(ParseError::Number(i));
            },
        }
        assert(out@.map_values(|m: Market| market_view(m)) =~= markets_of(pre)->Ok_0);
        i = i + 1;
    }
    assert(tickers@.subrange(0, tickers@.len() as int) =~= tickers@);
    Ok(out)
}

/// Once a prefix of the ticker list fails, the whole list fails alike.
pub proof fn lemma_markets_err_prefix(ts: Seq<Ticker>, n: int)
    requires
        0 <= n <= ts.len(),
    ensures
        markets_of(ts.subrange(0, n)) is Err ==> markets_of(ts) == markets_of(ts.subrange(0, n)),
    decreases ts.len() - n,
{
    if n < ts.len() {
        lemma_markets_err_prefix(ts, n + 1);
        assert(ts.subrange(0, n + 1).drop_last() =~= ts.subrange(0, n));
    } else {
        assert(ts.subrange(0, n) =~= ts);
    }
}


/// The first market of the list with this symbol.
pub open spec fn first_market(ms: Seq<Market>, name: Seq<char>) -> Option<Market>
    decreases ms.len(),
{
    if ms.len() == 0 {
        None
    } else {
        match first_market(ms.drop_last(), name) {
            Some(m) => Some(m),
            None => if ms.last().symbol@ == name {
                Some(ms.last())
            } else {
                None
            },
        }
    }
}

pub proof fn lemma_first_market_prefix(ms: Seq<Market>, name: Seq<char>, n: int)
    requires
        0 <= n <= ms.len(),
    ensures
        first_market(ms.subrange(0, n), name) is Some ==> first_market(ms, name) == first_market(
            ms.subrange(0, n),
            name,
        ),
        (forall|k: int| 0 <= k < ms.len() ==> (#[trigger] ms[k]).symbol@ != name) ==> first_market(ms, name) is None,
    decreases ms.len() - n,
{
    if n < ms.len() {
        lemma_first_market_prefix(ms, name, n + 1);
        assert(ms.subrange(0, n + 1).drop_last() =~= ms.subrange(0, n));
    } else {
        assert(ms.subrange(0, n) =~= ms);
        lemma_first_market_none(ms, name);
    }
}

pub proof fn lemma_first_market_none(ms: Seq<Market>, name: Seq<char>)
    ensures
        (forall|k: int| 0 <= k < ms.len() ==> (#[trigger] ms[k]).symbol@ != name) ==> first_market(ms, name) is None,
    decreases ms.len(),
{
    if ms.len() > 0 {
        lemma_first_market_none(ms.drop_last(), name);
        if forall|k: int| 0 <= k < ms.len() ==> (#[trigger] ms[k]).symbol@ != name {
            assert forall|k: int| 0 <= k < ms.drop_last().len() implies (#[trigger] ms.drop_last()[k]).symbol@ != name by {
                assert(ms.drop_last()[k] == ms[k]);
            }
        }
    }
}

/// The position of the first market with this symbol.
fn find_market(ms: &Vec<Market>, name: &String) -> (r: Option<usize>)
    ensures
        match r {
            Some(i) => i < ms@.len() && first_market(ms@, name@) == Some(ms@[i as int]),
            None => first_market(ms@, name@) is None,
        },
{
    let mut i: usize = 0;
    while i < ms.len()
        invariant
            i <= ms@.len(),
            first_market(ms@.subrange(0, i as int), name@) is None,
            forall|k: int| 0 <= k < i ==> (#[trigger] ms@[k]).symbol@ != name@,
        decreases ms.len() - i,
    {
        assert(ms@.subrange(0, i + 1).drop_last() =~= ms@.subrange(0, i as int));
        if ms[i].symbol == *name {
            proof {
                lemma_first_market_prefix(ms@, name@, i + 1);
            }
            return Some(i);
        }
        i = i + 1;
    }
    proof {
        lemma_first_market_none(ms@, name@);
    }
    None
}

/// The catalog entry of a listed symbol: a trading symbol with a market,
/// whose volume is converted to USDT through the market of its quote
/// currency against USDT when it is quoted in another currency. `None` when
/// it is not trading, has no market, or its volume cannot be converted.
pub open spec fn info_of(s: MarketInfoSymbol, ms: Seq<Market>) -> Option<Info> {
    if s.status@ != "TRADING"@ {
        None
    } else {
        match first_market(ms, s.symbol@) {
            None => None,
            Some(m) => if s.quote_asset@ == reference_unit() {
                Some(Info { symbol: s.symbol, base: s.base_asset, quote: s.quote_asset, volume: m.volume })
            } else {
                match first_market(ms, s.quote_asset@ + reference_unit()) {
                    None => None,
                    Some(m2) => match finite_of(
                        dec_product(m.volume.coef as int, m.volume.exp as int, m2.price.coef as int, m2.price.exp as int),
                    ) {
                        Some(v) => Some(Info { symbol: s.symbol, base: s.base_asset, quote: s.quote_asset, volume: v }),
                        None => None,
                    },
                }
            },
        }
    }
}

/// The catalog entries of the listed symbols, in the order of the list.
pub open spec fn infos_of(ss: Seq<MarketInfoSymbol>, ms: Seq<Market>) -> Seq<Info>
    decreases ss.len(),
{
    if ss.len() == 0 {
        Seq::empty()
    } else {
        let prev = infos_of(ss.drop_last(), ms);
        match info_of(ss.last(), ms) {
            Some(i) => prev.push(i),
            None => prev,
        }
    }
}

/// Get all traded symbols with their volume in USDT (unsorted).
#[verifier::rlimit(40)]
pub fn get_infos(symbols: &Vec<MarketInfoSymbol>, markets: &Vec<Market>) -> (r: Vec<Info>)
    requires
        forall|i: int| 0 <= i < markets@.len() ==> (#[trigger] markets@[i]).volume.wf(),
    ensures
        r@ == infos_of(symbols@, markets@),
        forall|i: int| 0 <= i < r@.len() ==> (#[trigger] r@[i]).volume.wf(),
{
    let mut out: Vec<Info> = Vec::new();
    let mut i: usize = 0;
    let trading = string_from_chars(&chars_of("TRADING"));
    assert(symbols@.subrange(0, 0) =~= Seq::<MarketInfoSymbol>::empty());
    while i < symbols.len()
        invariant
            i <= symbols@.len(),
            trading@ == "TRADING"@,
            out@ == infos_of(symbols@.subrange(0, i as int), markets@),
            forall|k: int| 0 <= k < markets@.len() ==> (#[trigger] markets@[k]).volume.wf(),
            forall|k: int| 0 <= k < out@.len() ==> (#[trigger] out@[k]).volume.wf(),
        decreases symbols.len() - i,
    {
        let s = &symbols[i];
        let ghost pre = symbols@.subrange(0, i + 1);
        assert(pre.drop_last() =~= symbols@.subrange(0, i as int));
        assert(pre.last() == *s);
        if s.status == trading {
            match find_market(markets, &s.symbol) {
                Some(k) => {
                    let m = &markets[k];
                    if text_eq(s.quote_asset.as_str(), "USDT") {
                        out.push(Info { symbol: s.symbol.clone(), base: s.base_asset.clone(), quote: s.quote_asset.clone(), volume: m.volume });
                    } else {
                        let mut name: Vec<char> = chars_of(s.quote_asset.as_str());
                        push_str("USDT", &mut name);
                        let pair = string_from_chars(&name);
                        match find_market(markets, &pair) {
                            Some(k2) => {
                                match m.volume.mul(&markets[k2].price) {
                                    Some(v) => {
                                        out.push(Info { symbol: s.symbol.clone(), base: s.base_asset.clone(), quote: s.quote_asset.clone(), volume: v });
                                    },
                                    None => {},
                                }
                            },
                            None => {},
                        }
                    }
                },
                None => {},
            }
        }
        i = i + 1;
    }
    assert(symbols@.subrange(0, symbols@.len() as int) =~= symbols@);
    out
}

/// Sort [`Vec`] of [`Info`] by trading volume descending; infos of equal
/// volume keep their order.
pub fn sort_infos(infos: Vec<Info>) -> (r: Vec<Info>)
    requires
        forall|i: int| 0 <= i < infos@.len() ==> (#[trigger] infos@[i]).volume.wf(),
    ensures
        r@.to_multiset() == infos@.to_multiset(),
        ranked_desc(r@),
        r@.len() == infos@.len(),
        exists|p: Seq<int>| stable_arrangement(infos@, r@, p),
{
    sort_by_rank(infos)
}


/// A base or quote currency with the total volume of its symbols.
pub struct Group {
    pub name: String,
    pub volume: Decimal,
}

impl Ranked for Group {
    open spec fn rank(&self) -> Decimal {
        self.volume
    }

    fn volume_of(&self) -> (r: Decimal) {
        self.volume
    }
}

/// The position of the first group with this name.
pub open spec fn group_index(gs: Seq<Group>, name: Seq<char>) -> Option<int>
    decreases gs.len(),
{
    if gs.len() == 0 {
        None
    } else {
        match group_index(gs.drop_last(), name) {
            Some(k) => Some(k),
            None => if gs.last().name@ == name {
                Some(gs.len() - 1)
            } else {
                None
            },
        }
    }
}

/// Adds a volume to the group of `key`, or opens that group. A total that
/// would not be finite is left as it was.
pub open spec fn add_to_group(gs: Seq<Group>, key: String, v: Decimal) -> Seq<Group> {
    match group_index(gs, key@) {
        Some(k) => match finite_of(
            dec_sum(gs[k].volume.coef as int, gs[k].volume.exp as int, v.coef as int, v.exp as int),
        ) {
            Some(t) => gs.update(k, Group { name: gs[k].name, volume: t }),
            None => gs,
        },
        None => gs.push(Group { name: key, volume: v }),
    }
}

/// The groups of the infos by base (`by_base`) or by quote currency, in
/// the order in which they first appear; infos whose base is USDT are left
/// out of both.
pub open spec fn groups_of(infos: Seq<Info>, by_base: bool) -> Seq<Group>
    decreases infos.len(),
{
    if infos.len() == 0 {
        Seq::empty()
    } else {
        let prev = groups_of(infos.drop_last(), by_base);
        let i = infos.last();
        if i.base@ == reference_unit() {
            prev
        } else {
            add_to_group(prev, if by_base { i.base } else { i.quote }, i.volume)
        }
    }
}

pub proof fn lemma_group_index(gs: Seq<Group>, name: Seq<char>)
    ensures
        group_index(gs, name) matches Some(k) ==> 0 <= k < gs.len() && gs[k].name@ == name,
        group_index(gs, name) is None ==> forall|k: int| 0 <= k < gs.len() ==> (#[trigger] gs[k]).name@ != name,
    decreases gs.len(),
{
    if gs.len() > 0 {
        lemma_group_index(gs.drop_last(), name);
        if group_index(gs, name) is None {
            assert forall|k: int| 0 <= k < gs.len() implies (#[trigger] gs[k]).name@ != name by {
                if k < gs.len() - 1 {
                    assert(gs.drop_last()[k] == gs[k]);
                }
            }
        }
    }
}

/// Whether `k` is the first position with this name.
pub open spec fn first_with_name(gs: Seq<Group>, name: Seq<char>, k: int) -> bool {
    0 <= k < gs.len() && gs[k].name@ == name && forall|j: int| 0 <= j < k ==> (#[trigger] gs[j]).name@ != name
}

pub proof fn lemma_group_index_first(gs: Seq<Group>, name: Seq<char>, k: int)
    requires
        first_with_name(gs, name, k),
    ensures
        group_index(gs, name) == Some(k),
    decreases gs.len(),
{
    if k < gs.len() - 1 {
        assert forall|j: int| 0 <= j < k implies (#[trigger] gs.drop_last()[j]).name@ != name by {
            assert(gs.drop_last()[j] == gs[j]);
        }
        lemma_group_index_first(gs.drop_last(), name, k);
    } else {
        lemma_group_index(gs.drop_last(), name);
        match group_index(gs.drop_last(), name) {
            Some(j) => {
                assert(gs.drop_last()[j] == gs[j]);
            },
            None => {},
        }
    }
}

/// Adds a volume to the group of `key` (see `add_to_group`).
fn add_volume(gs: &mut Vec<Group>, key: &String, v: Decimal)
    requires
        v.wf(),
        forall|i: int| 0 <= i < old(gs)@.len() ==> (#[trigger] old(gs)@[i]).volume.wf(),
    ensures
        final(gs)@ == add_to_group(old(gs)@, *key, v),
        forall|i: int| 0 <= i < final(gs)@.len() ==> (#[trigger] final(gs)@[i]).volume.wf(),
{
    let mut k: usize = 0;
    while k < gs.len()
        invariant
            k <= gs@.len(),
            gs@ == old(gs)@,
            forall|j: int| 0 <= j < k ==> (#[trigger] gs@[j]).name@ != key@,
            forall|i: int| 0 <= i < gs@.len() ==> (#[trigger] gs@[i]).volume.wf(),
            v.wf(),
        decreases gs.len() - k,
    {
        if gs[k].name == *key {
            proof {
                lemma_group_index_first(gs@, key@, k as int);
            }
            match gs[k].volume.add(&v) {
                Some(t) => {
                    let g = gs.remove(k);
                    gs.insert(k, Group { name: g.name, volume: t });
                    assert(gs@ =~= old(gs)@.update(k as int, Group { name: old(gs)@[k as int].name, volume: t }));
                },
                None => {},
            }
            return;
        }
        k = k + 1;
    }
    proof {
        lemma_group_index(gs@, key@);
        match group_index(gs@, key@) {
            Some(j) => {
                assert(gs@[j].name@ == key@);
            },
            None => {},
        }
    }
    gs.push(Group { name: key.clone(), volume: v });
}


/// The base and quote currencies of the infos with their total volumes,
/// each list sorted by volume descending (equal volumes keep the order of
/// first appearance). Infos whose base is USDT count for neither.
#[verifier::rlimit(40)]
pub fn sort_base_quote(infos: &Vec<Info>) -> (r: (Vec<Group>, Vec<Group>))
    requires
        forall|i: int| 0 <= i < infos@.len() ==> (#[trigger] infos@[i]).volume.wf(),
    ensures
        r.0@.to_multiset() == groups_of(infos@, true).to_multiset(),
        r.1@.to_multiset() == groups_of(infos@, false).to_multiset(),
        ranked_desc(r.0@),
        ranked_desc(r.1@),
        exists|p: Seq<int>| stable_arrangement(groups_of(infos@, true), r.0@, p),
        exists|p: Seq<int>| stable_arrangement(groups_of(infos@, false), r.1@, p),
{
    let mut bases: Vec<Group> = Vec::new();
    let mut quotes: Vec<Group> = Vec::new();
    let mut i: usize = 0;
    assert(infos@.subrange(0, 0) =~= Seq::<Info>::empty());
    while i < infos.len()
        invariant
            i <= infos@.len(),
            bases@ == groups_of(infos@.subrange(0, i as int), true),
            quotes@ == groups_of(infos@.subrange(0, i as int), false),
            forall|k: int| 0 <= k < infos@.len() ==> (#[trigger] infos@[k]).volume.wf(),
            forall|k: int| 0 <= k < bases@.len() ==> (#[trigger] bases@[k]).volume.wf(),
            forall|k: int| 0 <= k < quotes@.len() ==> (#[trigger] quotes@[k]).volume.wf(),
        decreases infos.len() - i,
    {
        let info = &infos[i];
        let ghost pre = infos@.subrange(0, i + 1);
        assert(pre.drop_last() =~= infos@.subrange(0, i as int));
        assert(pre.last() == *info);
        if !text_eq(info.base.as_str(), "USDT") {
            add_volume(&mut bases, &info.base, info.volume);
            add_volume(&mut quotes, &info.quote, info.volume);
        }
        i = i + 1;
    }
    assert(infos@.subrange(0, infos@.len() as int) =~= infos@);
    (sort_by_rank(bases), sort_by_rank(quotes))
}

} // verus!
