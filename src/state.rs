//! The aggregation actor's state and its transitions: one call per event,
//! each returning what the surrounding loop has to do next.
use vstd::prelude::*;
use crate::decimal::{push_int, push_range, push_str, string_from_chars, chars_of, text_eq};
use crate::market::{
    parse_updates, prices_wf, update_view, updated, first_bad_entry, update_of, MarketState,
    ParseError, TickerUpdate, Update,
};
use crate::catalog::{reference_unit, Info};
use crate::interval::{interval_name, scale_interval, Interval};
use crate::view::{initial_view, next_view, moves_cursor, Nav, UIView, ViewState};

verus! {

/// A ticker stream frame once decoded: a batch of ticker entries, or any
/// other text.
pub enum WsFrame {
    Updates(Vec<TickerUpdate>),
    Text(String),
}

/// Messages that the `UI` can receive
pub enum Msg {
    /// timestamp (millis) at receipt and websocket data
    WS(u64, WsFrame),
    /// Downloaded infos for each symbol
    Infos(Vec<Info>),
    /// info message to UI
    Msg(String),
    /// On 'l' key press show PriceList
    PriceList,
    /// On 't' key press show PriceTable
    PriceTable,
    /// On 'g' display graph with given time scale, or stored time scale if Nothing
    Graph(Option<u32>),
    /// On '%' key press
    TogglePercent,
    /// On 'x' key press
    ToggleExtended,
    /// On 's' show the search widget
    Search,
    /// On arrow up
    ArrowUp,
    /// On arrow down
    ArrowDown,
    /// On arrow left
    ArrowLeft,
    /// On arrow right
    ArrowRight,
    /// Home key resets cursor to top left
    Home,
    /// On pressing enter
    Enter,
    /// On 'h' key press show help
    Help,
    /// On 'a' key press show about page
    About,
    /// On ESC go back to previous page
    Esc,
    /// stop ui
    Stop,
}

/// The navigation event of a message.
pub open spec fn nav_of(m: &Msg) -> Nav {
    match m {
        Msg::WS(_, _) => Nav::Other,
        Msg::Infos(_) => Nav::CatalogReady,
        Msg::Msg(_) => Nav::Other,
        Msg::PriceList => Nav::PriceList,
        Msg::PriceTable => Nav::PriceTable,
        Msg::Graph(s) => Nav::Graph(*s),
        Msg::TogglePercent => Nav::TogglePercent,
        Msg::ToggleExtended => Nav::ToggleExtended,
        Msg::Search => Nav::Search,
        Msg::ArrowUp => Nav::ArrowUp,
        Msg::ArrowDown => Nav::ArrowDown,
        Msg::ArrowLeft => Nav::ArrowLeft,
        Msg::ArrowRight => Nav::ArrowRight,
        Msg::Home => Nav::Home,
        Msg::Enter => Nav::Enter,
        Msg::Help => Nav::Help,
        Msg::About => Nav::About,
        Msg::Esc => Nav::Esc,
        Msg::Stop => Nav::Stop,
    }
}

/// What the loop around the state does after an event.
#[derive(Debug, Clone, Copy, PartialEq, Eq, Structural)]
pub enum Action {
    /// Redraw the current view.
    Draw,
    /// Redraw, fetch the klines of the selected symbol at this interval,
    /// and report the outcome with `klines_loaded`.
    FetchKlines(Interval),
    /// Draw a last time and stop.
    Stop,
}

/// The position of the first info with this symbol.
pub open spec fn info_index(infos: Seq<Info>, name: Seq<char>) -> Option<int>
    decreases infos.len(),
{
    if infos.len() == 0 {
        None
    } else {
        match info_index(infos.drop_last(), name) {
            Some(k) => Some(k),
            None => if infos.last().symbol@ == name {
                Some(infos.len() - 1)
            } else {
                None
            },
        }
    }
}

pub proof fn lemma_info_index_prefix(infos: Seq<Info>, name: Seq<char>, n: int)
    requires
        0 <= n <= infos.len(),
    ensures
        info_index(infos.subrange(0, n), name) is Some ==> info_index(infos, name) == info_index(
            infos.subrange(0, n),
            name,
        ),
    decreases infos.len() - n,
{
    if n < infos.len() {
        lemma_info_index_prefix(infos, name, n + 1);
        assert(infos.subrange(0, n + 1).drop_last() =~= infos.subrange(0, n));
    } else {
        assert(infos.subrange(0, n) =~= infos);
    }
}

/// The position of the first info with this symbol.
pub fn find_info(infos: &Vec<Info>, name: &String) -> (r: Option<usize>)
    ensures
        match r {
            Some(i) => i < infos@.len() && info_index(infos@, name@) == Some(i as int),
            None => info_index(infos@, name@) is None,
        },
{
    let mut i: usize = 0;
    assert(infos@.subrange(0, 0) =~= Seq::<Info>::empty());
    while i < infos.len()
        invariant
            i <= infos@.len(),
            info_index(infos@.subrange(0, i as int), name@) is None,
        decreases infos.len() - i,
    {
        assert(infos@.subrange(0, i + 1).drop_last() =~= infos@.subrange(0, i as int));
        if infos[i].symbol == *name {
            proof {
                lemma_info_index_prefix(infos@, name@, i + 1);
            }
            return Some(i);
        }
        i = i + 1;
    }
    assert(infos@.subrange(0, i as int) =~= infos@);
    None
}

/// The market states after one update: only a symbol of the catalog has a
/// state, created empty on its first update.
pub open spec fn apply_update(
    ms: Seq<Option<MarketState>>,
    lookup: Seq<Info>,
    u: (u64, Seq<char>, crate::decimal::Decimal, crate::decimal::Decimal),
) -> Seq<Option<MarketState>> {
    match info_index(lookup, u.1) {
        Some(k) => {
            let base = match ms[k] {
                Some(s) => s,
                None => MarketState { px: None, ts: 0, last_px: None, px_24h: None, precision: 8 },
            };
            ms.update(k, Some(updated(base, u)))
        },
        None => ms,
    }
}

/// The market states after a batch of updates, applied in order.
pub open spec fn apply_all(
    ms: Seq<Option<MarketState>>,
    lookup: Seq<Info>,
    us: Seq<(u64, Seq<char>, crate::decimal::Decimal, crate::decimal::Decimal)>,
) -> Seq<Option<MarketState>>
    decreases us.len(),
{
    if us.len() == 0 {
        ms
    } else {
        apply_update(apply_all(ms, lookup, us.drop_last()), lookup, us.last())
    }
}

/// The latest of a timestamp and those of a batch.
pub open spec fn latest_ts(t: u64, us: Seq<(u64, Seq<char>, crate::decimal::Decimal, crate::decimal::Decimal)>) -> u64
    decreases us.len(),
{
    if us.len() == 0 {
        t
    } else {
        let p = latest_ts(t, us.drop_last());
        if us.last().0 > p {
            us.last().0
        } else {
            p
        }
    }
}

/// The updates of a batch as plain values.
pub open spec fn batch_view(us: Seq<Update>) -> Seq<(u64, Seq<char>, crate::decimal::Decimal, crate::decimal::Decimal)> {
    us.map_values(|u: Update| update_view(u))
}

/// Current state of the `UI`
pub struct UIState {
    pub message: String,
    /// The market state of each catalog symbol, by its position in `lookup`
    pub markets: Vec<Option<MarketState>>,
    pub latency: u64,
    pub view: ViewState,
    /// ts of last market update
    pub ts_last_update: u64,
    /// The whole catalog, once it has arrived
    pub lookup: Option<Vec<Info>>,
    /// The catalog entries that are shown
    pub infos: Option<Vec<Info>>,
    /// The selected symbol
    pub symbol: String,
    /// The search cursor moved since the last draw
    pub cursor_moved: bool,
}

/// The catalog as a sequence (empty before it arrives).
pub open spec fn lookup_seq(l: Option<Vec<Info>>) -> Seq<Info> {
    match l {
        Some(v) => v@,
        None => Seq::empty(),
    }
}

impl UIState {
    /// One market slot per catalog symbol, each with known prices in bounds.
    pub open spec fn wf(&self) -> bool {
        &&& self.markets@.len() == lookup_seq(self.lookup).len()
        &&& forall|i: int| 0 <= i < self.markets@.len() ==> (#[trigger] self.markets@[i] matches Some(s) ==> prices_wf(s))
    }

    /// New `UIState` with empty fields, 0 latency, nothing shown yet, and
    /// BTCUSDT selected.
    pub fn new() -> (r: UIState)
        ensures
            r.wf(),
            r.message@ == Seq::<char>::empty(),
            r.markets@.len() == 0,
            r.lookup is None,
            r.infos is None,
            r.view == initial_view(),
            r.symbol@ == "BTCUSDT"@,
            r.ts_last_update == 0,
            r.latency == 0,
            !r.cursor_moved,
    {
        UIState {
            message: string_from_chars(&Vec::new()),
            markets: Vec::new(),
            latency: 0,
            view: ViewState::new(),
            ts_last_update: 0,
            lookup: None,
            infos: None,
            symbol: string_from_chars(&chars_of("BTCUSDT")),
            cursor_moved: false,
        }
    }

    /// Applies a batch of updates in order. Before the catalog arrives
    /// nothing changes; after, each update of a catalog symbol moves its
    /// state on, and the time of the last update advances to the latest.
    #[verifier::rlimit(40)]
    pub fn update(&mut self, updates: &Vec<Update>)
        requires
            old(self).wf(),
            forall|i: int| 0 <= i < updates@.len() ==> (#[trigger] updates@[i]).px.wf() && updates@[i].px_24h.wf(),
        ensures
            final(self).wf(),
            old(self).lookup is None ==> final(self).markets@ == old(self).markets@
                && final(self).ts_last_update == old(self).ts_last_update,
            old(self).lookup is Some ==> final(self).markets@ == apply_all(old(self).markets@, lookup_seq(old(self).lookup), batch_view(updates@))
                && final(self).ts_last_update == latest_ts(old(self).ts_last_update, batch_view(updates@)),
            final(self).lookup == old(self).lookup,
            final(self).infos == old(self).infos,
            final(self).view == old(self).view,
            final(self).message == old(self).message,
            final(self).symbol == old(self).symbol,
            final(self).latency == old(self).latency,
            final(self).cursor_moved == old(self).cursor_moved,
    {
        let lookup = match &self.lookup {
            Some(l) => l,
            None => return,
        };
        let ghost l = lookup@;
        let ghost m0 = self.markets@;
        let ghost t0 = self.ts_last_update;
        let mut i: usize = 0;
        assert(updates@.subrange(0, 0) =~= Seq::<Update>::empty());
        assert(batch_view(updates@.subrange(0, 0)) =~= Seq::empty());
        while i < updates.len()
            invariant
                i <= updates@.len(),
                lookup@ == l,
                self.lookup == old(self).lookup,
                lookup_seq(self.lookup) == l,
                self.infos == old(self).infos,
                self.view == old(self).view,
                self.message == old(self).message,
                self.symbol == old(self).symbol,
                self.latency == old(self).latency,
                self.cursor_moved == old(self).cursor_moved,
                self.markets@.len() == l.len(),
                self.markets@ == apply_all(m0, l, batch_view(updates@.subrange(0, i as int))),
                self.ts_last_update == latest_ts(t0, batch_view(updates@.subrange(0, i as int))),
                forall|k: int| 0 <= k < self.markets@.len() ==> (#[trigger] self.markets@[k] matches Some(s) ==> prices_wf(s)),
                forall|k: int| 0 <= k < updates@.len() ==> (#[trigger] updates@[k]).px.wf() && updates@[k].px_24h.wf(),
            decreases updates.len() - i,
        {
            let u = &updates[i];
            let ghost pre = updates@.subrange(0, i + 1);
            assert(pre.drop_last() =~= updates@.subrange(0, i as int));
            assert(batch_view(pre).drop_last() =~= batch_view(updates@.subrange(0, i as int)));
            assert(batch_view(pre).last() == update_view(*u));
            if u.ts > self.ts_last_update {
                self.ts_last_update = u.ts;
            }
            match find_info(lookup, &u.symbol) {
                Some(k) => {
                    let mut s = match self.markets[k] {
                        Some(s) => s,
                        None => MarketState::new(),
                    };
                    s.update(u);
                    self.markets.set(k, Some(s));
                },
                None => {},
            }
            i = i + 1;
        }
        assert(updates@.subrange(0, updates@.len() as int) =~= updates@);
    }
}


/// Quote currencies whose symbols are not shown in lists.
pub open spec fn hidden_quote(q: Seq<char>) -> bool {
    q == "TUSD"@ || q == "BUSD"@ || q == "USDC"@
}

/// The catalog entries that are shown, in catalog order.
pub open spec fn shown_infos(s: Seq<Info>) -> Seq<Info>
    decreases s.len(),
{
    if s.len() == 0 {
        Seq::empty()
    } else {
        let prev = shown_infos(s.drop_last());
        if hidden_quote(s.last().quote@) {
            prev
        } else {
            prev.push(s.last())
        }
    }
}

/// The market state that a new catalog keeps for a symbol: the one it had
/// in the previous catalog, if any.
pub open spec fn carried_state(
    old_lookup: Option<Vec<Info>>,
    old_markets: Seq<Option<MarketState>>,
    name: Seq<char>,
) -> Option<MarketState> {
    match info_index(lookup_seq(old_lookup), name) {
        Some(k) => old_markets[k],
        None => None,
    }
}

/// The decimal digits of a position.
pub open spec fn index_text(i: usize) -> Seq<char> {
    crate::decimal::digits_of(i as nat)
}

/// The status text of a refused frame.
pub open spec fn parse_error_text(e: ParseError) -> Seq<char> {
    match e {
        ParseError::Frame => "Malformed update frame"@,
        ParseError::Price(i) => "Bad price in update "@ + index_text(i),
        ParseError::ReferencePrice(i) => "Bad 24h price in update "@ + index_text(i),
        ParseError::Number(i) => "Bad number in ticker "@ + index_text(i),
    }
}

/// The status text of a parse error (see `parse_error_text`).
pub fn error_text(e: ParseError) -> (r: String)
    ensures
        r@ == parse_error_text(e),
{
    let mut out: Vec<char> = Vec::new();
    match e {
        ParseError::Frame => push_str("Malformed update frame", &mut out),
        ParseError::Price(i) => {
            push_str("Bad price in update ", &mut out);
            crate::decimal::push_digits(i as u64, &mut out);
        },
        ParseError::ReferencePrice(i) => {
            push_str("Bad 24h price in update ", &mut out);
            crate::decimal::push_digits(i as u64, &mut out);
        },
        ParseError::Number(i) => {
            push_str("Bad number in ticker ", &mut out);
            crate::decimal::push_digits(i as u64, &mut out);
        },
    }
    string_from_chars(&out)
}

/// The unsigned 64-bit integer a text holds: an optional `+`, then one or
/// more decimal digits, of a value that fits.
pub open spec fn u64_of_text(s: Seq<char>) -> Option<u64> {
    let d = if s.len() > 0 && s[0] == '+' {
        s.drop_first()
    } else {
        s
    };
    if d.len() > 0 && crate::decimal::all_digits(d) && crate::decimal::digits_value(d) <= u64::MAX {
        Some(crate::decimal::digits_value(d) as u64)
    } else {
        None
    }
}

/// Reads an unsigned 64-bit integer (see `u64_of_text`).
#[verifier::rlimit(40)]
pub fn parse_u64(s: &str) -> (r: Option<u64>)
    ensures
        r == u64_of_text(s@),
{
    let cs = chars_of(s);
    let start: usize = if cs.len() > 0 && cs[0] == '+' {
        1
    } else {
        0
    };
    let ghost d = if s@.len() > 0 && s@[0] == '+' {
        s@.drop_first()
    } else {
        s@
    };
    assert(d =~= cs@.subrange(start as int, cs@.len() as int));
    if start >= cs.len() {
        return None;
    }
    let mut v: u64 = 0;
    let mut i: usize = start;
    assert(cs@.subrange(start as int, start as int) =~= Seq::<char>::empty());
    while i < cs.len()
        invariant
            start <= i <= cs@.len(),
            cs@ == s@,
            d == cs@.subrange(start as int, cs@.len() as int),
            d == (if s@.len() > 0 && s@[0] == '+' {
                s@.drop_first()
            } else {
                s@
            }),
            d.len() > 0,
            crate::decimal::all_digits(cs@.subrange(start as int, i as int)),
            v == crate::decimal::digits_value(cs@.subrange(start as int, i as int)),
        decreases cs.len() - i,
    {
        let c = cs[i];
        let ghost pre = cs@.subrange(start as int, i + 1);
        assert(pre.drop_last() =~= cs@.subrange(start as int, i as int));
        if c < '0' || c > '9' {
            assert(d[i - start] == c);
            assert(!crate::decimal::is_digit(d[(i - start) as int]));
            return None;
        }
        let digit = (c as u32 - '0' as u32) as u64;
        if v > (u64::MAX - digit) / 10 {
            proof {
                assert(crate::decimal::all_digits(pre));
                crate::decimal::lemma_digits_value_nonneg(pre);
                assert(pre =~= d.subrange(0, (i + 1 - start) as int));
                if crate::decimal::all_digits(d) {
                    lemma_digits_value_prefix(d, (i + 1 - start) as int);
                }
                assert(v * 10 + digit > u64::MAX) by (nonlinear_arith)
                    requires v > (u64::MAX - digit) / 10, digit <= 9;
            }
            return None;
        }
        v = v * 10 + digit;
        i = i + 1;
    }
    assert(cs@.subrange(start as int, i as int) =~= d);
    Some(v)
}

/// A digit string's value is at least that of any of its prefixes.
pub proof fn lemma_digits_value_prefix(s: Seq<char>, n: int)
    requires
        0 <= n <= s.len(),
        crate::decimal::all_digits(s),
    ensures
        crate::decimal::digits_value(s) >= crate::decimal::digits_value(s.subrange(0, n)),
    decreases s.len() - n,
{
    if n < s.len() {
        lemma_digits_value_prefix(s, n + 1);
        let p = s.subrange(0, n + 1);
        assert(p.drop_last() =~= s.subrange(0, n));
        assert(crate::decimal::all_digits(p)) by {
            assert forall|i: int| 0 <= i < p.len() implies crate::decimal::is_digit(#[trigger] p[i]) by {
                assert(p[i] == s[i]);
            }
        }
        crate::decimal::lemma_digits_value_nonneg(p);
    } else {
        assert(s.subrange(0, n) =~= s);
    }
}


/// The text of a message that shows `lit`.
fn text(lit: &str) -> (r: String)
    ensures
        r@ == lit@,
{
    string_from_chars(&chars_of(lit))
}

/// The status text while klines are fetched.
pub open spec fn getting_text(i: Interval, symbol: Seq<char>) -> Seq<char> {
    "Getting "@ + interval_name(i) + " klines for "@ + symbol
}

/// The status text once klines have arrived.
pub open spec fn showing_text(i: Interval, symbol: Seq<char>) -> Seq<char> {
    "Show "@ + interval_name(i) + " klines for "@ + symbol
}

/// The status text that a key sets, if it sets one; `v` is the view state
/// before the key.
pub open spec fn key_message(v: ViewState, n: Nav, symbol: Seq<char>) -> Option<Seq<char>> {
    let w = next_view(v, n);
    match n {
        Nav::PriceList => Some("Show price list"@),
        Nav::PriceTable => Some("Show price table"@),
        Nav::Graph(_) => Some(getting_text(scale_interval(w.time_scale), symbol)),
        Nav::TogglePercent => Some(
            if w.show_percent {
                "Show %"@
            } else {
                "Hide %"@
            },
        ),
        Nav::ToggleExtended => Some(
            if w.extended {
                "Show extended"@
            } else {
                "Show reduced"@
            },
        ),
        Nav::Search => Some("Select symbol"@),
        Nav::Enter => if v.mode == UIView::Search {
            Some(getting_text(scale_interval(w.time_scale), symbol))
        } else {
            None
        },
        Nav::Help => Some("Help"@),
        Nav::About => Some("About"@),
        Nav::Esc => Some(Seq::empty()),
        Nav::Stop => Some("Stop"@),
        _ => None,
    }
}

/// The action after a key; `v` is the view state before it.
pub open spec fn key_action(v: ViewState, n: Nav) -> Action {
    let w = next_view(v, n);
    match n {
        Nav::Graph(_) => Action::FetchKlines(scale_interval(w.time_scale)),
        Nav::Enter => if v.mode == UIView::Search {
            Action::FetchKlines(scale_interval(w.time_scale))
        } else {
            Action::Draw
        },
        Nav::Stop => Action::Stop,
        _ => Action::Draw,
    }
}

impl UIState {
    /// Replaces the catalog. Each symbol keeps the market state it had
    /// under the previous catalog; symbols quoted in TUSD, BUSD or USDC are
    /// not shown.
    #[verifier::rlimit(40)]
    pub fn set_catalog(&mut self, infos: Vec<Info>)
        requires
            old(self).wf(),
        ensures
            final(self).wf(),
            final(self).lookup matches Some(l) && l@ == infos@,
            final(self).infos matches Some(v) && v@ == shown_infos(infos@),
            forall|i: int| 0 <= i < infos@.len() ==> #[trigger] final(self).markets@[i] == carried_state(
                old(self).lookup,
                old(self).markets@,
                infos@[i].symbol@,
            ),
            final(self).view == old(self).view,
            final(self).message == old(self).message,
            final(self).symbol == old(self).symbol,
            final(self).ts_last_update == old(self).ts_last_update,
            final(self).latency == old(self).latency,
            final(self).cursor_moved == old(self).cursor_moved,
    {
        let mut markets: Vec<Option<MarketState>> = Vec::new();
        let mut shown: Vec<Info> = Vec::new();
        let mut i: usize = 0;
        assert(infos@.subrange(0, 0) =~= Seq::<Info>::empty());
        while i < infos.len()
            invariant
                i <= infos@.len(),
                markets@.len() == i,
                self.wf(),
                self.lookup == old(self).lookup,
                self.markets == old(self).markets,
                forall|k: int| 0 <= k < i ==> #[trigger] markets@[k] == carried_state(
                    old(self).lookup,
                    old(self).markets@,
                    infos@[k].symbol@,
                ),
                forall|k: int| 0 <= k < markets@.len() ==> (#[trigger] markets@[k] matches Some(s) ==> prices_wf(s)),
                shown@ == shown_infos(infos@.subrange(0, i as int)),
            decreases infos.len() - i,
        {
            let info = &infos[i];
            let carried = match &self.lookup {
                Some(l) => match find_info(l, &info.symbol) {
                    Some(k) => self.markets[k],
                    None => None,
                },
                None => None,
            };
            markets.push(carried);
            let ghost pre = infos@.subrange(0, i + 1);
            assert(pre.drop_last() =~= infos@.subrange(0, i as int));
            assert(pre.last() == *info);
            let q = info.quote.as_str();
            if !(text_eq(q, "TUSD") || text_eq(q, "BUSD") || text_eq(q, "USDC")) {
                shown.push(info.clone());
            }
            i = i + 1;
        }
        assert(infos@.subrange(0, infos@.len() as int) =~= infos@);
        self.markets = markets;
        self.lookup = Some(infos);
        self.infos = Some(shown);
    }

    /// Sets the status text.
    fn say(&mut self, s: String)
        ensures
            final(self).message == s,
            final(self).markets == old(self).markets,
            final(self).lookup == old(self).lookup,
            final(self).infos == old(self).infos,
            final(self).view == old(self).view,
            final(self).symbol == old(self).symbol,
            final(self).ts_last_update == old(self).ts_last_update,
            final(self).latency == old(self).latency,
            final(self).cursor_moved == old(self).cursor_moved,
    {
        self.message = s;
    }

    /// The status text while the klines of the selected symbol are fetched.
    fn getting(&self, i: Interval) -> (r: String)
        ensures
            r@ == getting_text(i, self.symbol@),
    {
        let mut out: Vec<char> = Vec::new();
        push_str("Getting ", &mut out);
        push_str(i.str(), &mut out);
        push_str(" klines for ", &mut out);
        push_str(self.symbol.as_str(), &mut out);
        assert(out@ =~= getting_text(i, self.symbol@));
        string_from_chars(&out)
    }
}


/// The updates of a well-formed batch of ticker entries, as plain values.
pub open spec fn raw_batch(raw: Seq<TickerUpdate>) -> Seq<(u64, Seq<char>, crate::decimal::Decimal, crate::decimal::Decimal)> {
    raw.map_values(|t: TickerUpdate| update_of(t)->Some_0)
}

/// The latency of a heartbeat frame carrying `sent`, received at `at`.
pub open spec fn latency_of(at: u64, sent: u64) -> u64 {
    if at >= sent {
        (at - sent) as u64
    } else {
        0
    }
}

/// What processing an event did, when the interface runs: `pre` is the
/// state before, `post` the state after, `r` the answer.
pub open spec fn handled(pre: UIState, post: UIState, msg: Msg, r: Action) -> bool {
    match msg {
        Msg::WS(at, WsFrame::Updates(raw)) => {
            &&& r == Action::Draw
            &&& keeps_catalog(pre, post)
            &&& post.latency == pre.latency
            &&& post.cursor_moved == pre.cursor_moved
            &&& match first_bad_entry(raw@) {
                Some(e) => {
                    &&& post.markets == pre.markets
                    &&& post.ts_last_update == pre.ts_last_update
                    &&& post.message@ == parse_error_text(e)
                },
                None => {
                    &&& post.message == pre.message
                    &&& pre.lookup is Some ==> post.markets@ == apply_all(
                        pre.markets@,
                        lookup_seq(pre.lookup),
                        raw_batch(raw@),
                    ) && post.ts_last_update == latest_ts(pre.ts_last_update, raw_batch(raw@))
                    &&& pre.lookup is None ==> post.markets@ == pre.markets@ && post.ts_last_update
                        == pre.ts_last_update
                },
            }
        },
        Msg::WS(at, WsFrame::Text(t)) => {
            &&& r == Action::Draw
            &&& keeps_catalog(pre, post)
            &&& post.markets == pre.markets
            &&& post.ts_last_update == pre.ts_last_update
            &&& post.cursor_moved == pre.cursor_moved
            &&& match u64_of_text(t@) {
                Some(sent) => post.latency == latency_of(at, sent) && post.message == pre.message,
                None => post.message@ == parse_error_text(ParseError::Frame) && post.latency == pre.latency,
            }
        },
        Msg::Infos(l) => {
            &&& r == Action::Draw
            &&& post.message == pre.message
            &&& post.symbol == pre.symbol
            &&& post.latency == pre.latency
            &&& post.ts_last_update == pre.ts_last_update
            &&& post.cursor_moved == pre.cursor_moved
            &&& post.lookup matches Some(v) && v@ == l@
            &&& post.infos matches Some(v) && v@ == shown_infos(l@)
            &&& forall|i: int| 0 <= i < l@.len() ==> #[trigger] post.markets@[i] == carried_state(
                pre.lookup,
                pre.markets@,
                l@[i].symbol@,
            )
        },
        Msg::Msg(m) => {
            &&& r == Action::Draw
            &&& post.message == m
            &&& post.markets == pre.markets
            &&& keeps_catalog(pre, post)
            &&& post.latency == pre.latency
            &&& post.ts_last_update == pre.ts_last_update
            &&& post.cursor_moved == pre.cursor_moved
        },
        _ => {
            let n = nav_of(&msg);
            &&& r == key_action(pre.view, n)
            &&& post.markets == pre.markets
            &&& keeps_catalog(pre, post)
            &&& post.latency == pre.latency
            &&& post.ts_last_update == pre.ts_last_update
            &&& post.cursor_moved == (pre.cursor_moved || moves_cursor(pre.view, n))
            &&& match key_message(pre.view, n, pre.symbol@) {
                Some(t) => post.message@ == t,
                None => post.message == pre.message,
            }
        },
    }
}

/// The catalog, the shown infos and the selected symbol are as they were.
pub open spec fn keeps_catalog(pre: UIState, post: UIState) -> bool {
    &&& post.lookup == pre.lookup
    &&& post.infos == pre.infos
    &&& post.symbol == pre.symbol
}

impl UIState {
    /// Processes one event of the mailbox.
    ///
    /// Once stopped, nothing changes and the answer is `Stop`. Otherwise a
    /// frame of updates is applied whole or, if any entry is malformed, not
    /// at all and its error shown; a frame holding a bare integer is a
    /// heartbeat that sets the latency; a catalog replaces the catalog;
    /// keys move the view state and set the status text.
    #[verifier::rlimit(40)]
    pub fn handle(&mut self, msg: Msg) -> (r: Action)
        requires
            old(self).wf(),
        ensures
            final(self).wf(),
            final(self).view == next_view(old(self).view, nav_of(&msg)),
            old(self).view.mode == UIView::Stopped ==> r == Action::Stop && *final(self) == *old(self),
            old(self).view.mode != UIView::Stopped ==> handled(*old(self), *final(self), msg, r),
    {
        if self.view.mode == UIView::Stopped {
            return Action::Stop;
        }
        let ghost m0 = msg;
        match msg {
            Msg::WS(at, frame) => {
                match frame {
                    WsFrame::Updates(raw) => {
                        match parse_updates(&raw) {
                            Ok(us) => {
                                assert(batch_view(us@) =~= raw_batch(raw@));
                                self.update(&us);
                                assert(handled(*old(self), *self, m0, Action::Draw));
                            },
                            Err(e) => {
                                self.say(error_text(e));
                            },
                        }
                    },
                    WsFrame::Text(t) => {
                        match parse_u64(t.as_str()) {
                            Some(sent) => {
                                self.latency = if at >= sent {
                                    at - sent
                                } else {
                                    0
                                };
                            },
                            None => {
                                self.say(error_text(ParseError::Frame));
                            },
                        }
                    },
                }
                Action::Draw
            },
            Msg::Infos(l) => {
                self.set_catalog(l);
                self.view.navigate(Nav::CatalogReady);
                assert(handled(*old(self), *self, m0, Action::Draw));
                Action::Draw
            },
            Msg::Msg(m) => {
                self.message = m;
                Action::Draw
            },
            Msg::PriceList => self.key(Nav::PriceList),
            Msg::PriceTable => self.key(Nav::PriceTable),
            Msg::Graph(scale) => self.key(Nav::Graph(scale)),
            Msg::TogglePercent => self.key(Nav::TogglePercent),
            Msg::ToggleExtended => self.key(Nav::ToggleExtended),
            Msg::Search => self.key(Nav::Search),
            Msg::ArrowUp => self.key(Nav::ArrowUp),
            Msg::ArrowDown => self.key(Nav::ArrowDown),
            Msg::ArrowLeft => self.key(Nav::ArrowLeft),
            Msg::ArrowRight => self.key(Nav::ArrowRight),
            Msg::Home => self.key(Nav::Home),
            Msg::Enter => self.key(Nav::Enter),
            Msg::Help => self.key(Nav::Help),
            Msg::About => self.key(Nav::About),
            Msg::Esc => self.key(Nav::Esc),
            Msg::Stop => self.key(Nav::Stop),
        }
    }

    /// Applies a key: moves the view state, sets the status text and tells
    /// what to do next.
    #[verifier::rlimit(40)]
    fn key(&mut self, n: Nav) -> (r: Action)
        requires
            old(self).wf(),
            old(self).view.mode != UIView::Stopped,
            n != Nav::CatalogReady,
            n != Nav::Other,
        ensures
            final(self).wf(),
            final(self).view == next_view(old(self).view, n),
            r == key_action(old(self).view, n),
            final(self).markets == old(self).markets,
            keeps_catalog(*old(self), *final(self)),
            final(self).latency == old(self).latency,
            final(self).ts_last_update == old(self).ts_last_update,
            final(self).cursor_moved == (old(self).cursor_moved || moves_cursor(old(self).view, n)),
            match key_message(old(self).view, n, old(self).symbol@) {
                Some(t) => final(self).message@ == t,
                None => final(self).message == old(self).message,
            },
    {
        let searching = self.view.mode == UIView::Search;
        let moved = self.view.navigate(n);
        if moved {
            self.cursor_moved = true;
        }
        let interval = Interval::from_scale(self.view.time_scale);
        match n {
            Nav::PriceList => {
                self.message = text("Show price list");
                Action::Draw
            },
            Nav::PriceTable => {
                self.message = text("Show price table");
                Action::Draw
            },
            Nav::Graph(_) => {
                self.message = self.getting(interval);
                Action::FetchKlines(interval)
            },
            Nav::TogglePercent => {
                self.message = if self.view.show_percent {
                    text("Show %")
                } else {
                    text("Hide %")
                };
                Action::Draw
            },
            Nav::ToggleExtended => {
                self.message = if self.view.extended {
                    text("Show extended")
                } else {
                    text("Show reduced")
                };
                Action::Draw
            },
            Nav::Search => {
                self.message = text("Select symbol");
                Action::Draw
            },
            Nav::Enter => {
                if searching {
                    self.message = self.getting(interval);
                    Action::FetchKlines(interval)
                } else {
                    Action::Draw
                }
            },
            Nav::Help => {
                self.message = text("Help");
                Action::Draw
            },
            Nav::About => {
                self.message = text("About");
                Action::Draw
            },
            Nav::Esc => {
                self.message = string_from_chars(&Vec::new());
                Action::Draw
            },
            Nav::Stop => {
                self.message = text("Stop");
                Action::Stop
            },
            _ => Action::Draw,
        }
    }

    /// Records the outcome of a klines fetch for `interval`: on success the
    /// graph is shown.
    pub fn klines_loaded(&mut self, interval: Interval, outcome: Result<(), String>)
        requires
            old(self).wf(),
        ensures
            final(self).wf(),
            outcome is Ok ==> final(self).view == (ViewState { mode: UIView::Graph, ..old(self).view })
                && final(self).message@ == showing_text(interval, old(self).symbol@),
            outcome matches Err(e) ==> final(self).view == old(self).view
                && final(self).message@ == "Failed to get klines: "@ + e@,
            final(self).markets == old(self).markets,
    {
        match outcome {
            Ok(()) => {
                self.view.mode = UIView::Graph;
                let mut out: Vec<char> = Vec::new();
                push_str("Show ", &mut out);
                push_str(interval.str(), &mut out);
                push_str(" klines for ", &mut out);
                push_str(self.symbol.as_str(), &mut out);
                assert(out@ =~= showing_text(interval, self.symbol@));
                self.message = string_from_chars(&out);
            },
            Err(e) => {
                let mut out: Vec<char> = Vec::new();
                push_str("Failed to get klines: ", &mut out);
                push_str(e.as_str(), &mut out);
                self.message = string_from_chars(&out);
            },
        }
    }
}


/// `s` cut to at most `n` characters.
pub open spec fn cut(s: Seq<char>, n: int) -> Seq<char> {
    if s.len() > n {
        s.subrange(0, n)
    } else {
        s
    }
}

/// The latency field of the status bar: the time since the last update in
/// milliseconds, or `?ms` before any update.
pub open spec fn latency_text(now_millis: u64, last: u64) -> Seq<char> {
    if last != 0 {
        crate::decimal::digits_of(latency_of(now_millis, last) as nat) + "ms"@
    } else {
        "?ms"@
    }
}

/// The status bar: the time, the status text and, right-aligned, the
/// latency field, all in `width` characters; when that does not fit, the
/// time and the status text cut to `width`.
pub open spec fn message_bar_text(now: Seq<char>, message: Seq<char>, lat: Seq<char>, width: int) -> Seq<char> {
    let l = now.len() + message.len() + lat.len() + 2;
    if width > l {
        let field = width - l;
        let pad = if field > lat.len() {
            field - lat.len()
        } else {
            0
        };
        now + seq![' '] + message + seq![' '] + Seq::new(pad as nat, |i: int| ' ') + lat
    } else {
        cut(now + seq![' '] + message, width)
    }
}

impl UIState {
    /// After a draw: a cursor that moved selects the symbol under it, and
    /// the status text names it.
    pub fn after_draw(&mut self)
        requires
            old(self).wf(),
        ensures
            final(self).wf(),
            !final(self).cursor_moved,
            old(self).cursor_moved ==> final(self).message@ == "SEL "@ + old(self).symbol@,
            !old(self).cursor_moved ==> final(self).message == old(self).message,
            final(self).view == old(self).view,
            final(self).markets == old(self).markets,
            final(self).symbol == old(self).symbol,
    {
        if self.cursor_moved {
            let mut out: Vec<char> = Vec::new();
            push_str("SEL ", &mut out);
            push_str(self.symbol.as_str(), &mut out);
            self.message = string_from_chars(&out);
            self.cursor_moved = false;
        }
    }

    /// Takes back what drawing the search page found: the position of the
    /// symbol under the cursor among the shown infos, and the cursor kept
    /// within the grid.
    pub fn search_selected(&mut self, selected: usize, cursor: (u16, u16))
        requires
            old(self).wf(),
        ensures
            final(self).wf(),
            final(self).view == (ViewState { cursor_ix: cursor.0, cursor_iy: cursor.1, ..old(self).view }),
            match old(self).infos {
                Some(v) => if selected < v@.len() {
                    final(self).symbol@ == v@[selected as int].symbol@
                } else {
                    final(self).symbol == old(self).symbol
                },
                None => final(self).symbol == old(self).symbol,
            },
            final(self).markets == old(self).markets,
            final(self).message == old(self).message,
    {
        self.view.cursor_ix = cursor.0;
        self.view.cursor_iy = cursor.1;
        match &self.infos {
            Some(v) => {
                if selected < v.len() {
                    self.symbol = v[selected].symbol.clone();
                }
            },
            None => {},
        }
    }

    /// The status bar for a terminal `width` characters wide, at the time
    /// `now` (its text) and `now_millis`.
    #[verifier::rlimit(40)]
    pub fn message_bar(&self, now: &str, now_millis: u64, width: u16) -> (r: String)
        ensures
            r@ == message_bar_text(now@, self.message@, latency_text(now_millis, self.ts_last_update), width as int),
    {
        let mut lat: Vec<char> = Vec::new();
        if self.ts_last_update != 0 {
            let d = if now_millis >= self.ts_last_update {
                now_millis - self.ts_last_update
            } else {
                0
            };
            crate::decimal::push_digits(d, &mut lat);
            push_str("ms", &mut lat);
        } else {
            push_str("?ms", &mut lat);
        }
        let ghost latv = lat@;
        assert(latv == latency_text(now_millis, self.ts_last_update));
        let now_c = chars_of(now);
        let msg_c = chars_of(self.message.as_str());
        let l: u128 = now_c.len() as u128 + msg_c.len() as u128 + lat.len() as u128 + 2;
        let mut out: Vec<char> = Vec::new();
        push_range(&now_c, 0, now_c.len(), &mut out);
        out.push(' ');
        push_range(&msg_c, 0, msg_c.len(), &mut out);
        assert(now_c@.subrange(0, now_c@.len() as int) =~= now@);
        assert(msg_c@.subrange(0, msg_c@.len() as int) =~= self.message@);
        assert(out@ =~= now@ + seq![' '] + self.message@);
        if width as u128 > l {
            let field = width as u128 - l;
            let pad: u128 = if field > lat.len() as u128 {
                field - lat.len() as u128
            } else {
                0
            };
            out.push(' ');
            crate::decimal::push_repeated(' ', pad as usize, &mut out);
            push_range(&lat, 0, lat.len(), &mut out);
            assert(lat@.subrange(0, lat@.len() as int) =~= lat@);
            assert(out@ =~= message_bar_text(now@, self.message@, latv, width as int));
        } else {
            if out.len() > width as usize {
                out.truncate(width as usize);
            }
            assert(out@ =~= message_bar_text(now@, self.message@, latv, width as int));
        }
        string_from_chars(&out)
    }
}

} // verus!
