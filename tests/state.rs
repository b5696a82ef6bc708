use coinlive::{
    get_infos, get_markets, is_quit, msg_of_key, parse_dec, parse_updates, search_layout,
    sort_base_quote, sort_infos, Action, Decimal, Info, Interval, Key, MarketInfoSymbol,
    MarketState, Msg, ParseError, Ticker, TickerUpdate, Trend, UIState, UIView, Update, WsFrame,
};

fn dec(s: &str) -> Decimal {
    parse_dec(s).expect("a number")
}

fn ticker(symbol: &str, volume: &str, price: &str) -> Ticker {
    Ticker {
        symbol: symbol.to_string(),
        price_change: "0".to_string(),
        quote_volume: volume.to_string(),
        last_price: price.to_string(),
    }
}

fn listed(symbol: &str, base: &str, quote: &str, status: &str) -> MarketInfoSymbol {
    MarketInfoSymbol {
        symbol: symbol.to_string(),
        status: status.to_string(),
        base_asset: base.to_string(),
        quote_asset: quote.to_string(),
    }
}

fn info(symbol: &str, base: &str, quote: &str, volume: &str) -> Info {
    Info { symbol: symbol.to_string(), base: base.to_string(), quote: quote.to_string(), volume: dec(volume) }
}

fn entry(ts: u64, symbol: &str, px: &str, px_24h: &str) -> TickerUpdate {
    TickerUpdate { ts, symbol: symbol.to_string(), px: px.to_string(), px_24h: px_24h.to_string() }
}

fn update(symbol: &str, px: &str) -> Update {
    Update { symbol: symbol.to_string(), ts: 1, px: dec(px), px_24h: dec("90") }
}

fn ready_state() -> UIState {
    let mut s = UIState::new();
    let catalog = vec![info("BTCUSDT", "BTC", "USDT", "1000"), info("ETHBTC", "ETH", "BTC", "500000")];
    assert_eq!(s.handle(Msg::Infos(catalog)), Action::Draw);
    s
}

#[test]
fn catalog_converts_volume_through_the_quote_pair() {
    let markets = get_markets(&vec![ticker("BTCUSDT", "1000", "50000"), ticker("ETHBTC", "10", "0.05")]).unwrap();
    let symbols = vec![listed("BTCUSDT", "BTC", "USDT", "TRADING"), listed("ETHBTC", "ETH", "BTC", "TRADING")];
    let infos = get_infos(&symbols, &markets);
    assert_eq!(infos.len(), 2);
    assert_eq!(infos[1].symbol, "ETHBTC");
    assert!(infos[1].volume.value_eq(&Decimal::new(500000, 0)));
    assert!(infos[0].volume.value_eq(&Decimal::new(1000, 0)));
}

#[test]
fn catalog_drops_unconvertible_and_halted_symbols() {
    let markets = get_markets(&vec![
        ticker("BTCUSDT", "1000", "50000"),
        ticker("XYZABC", "10", "1"),
        ticker("OLDUSDT", "5", "1"),
        ticker("NILUSDT", "0", "1"),
    ])
    .unwrap();
    // a zero volume is not kept
    assert_eq!(markets.len(), 3);
    let symbols = vec![
        listed("XYZABC", "XYZ", "ABC", "TRADING"),
        listed("OLDUSDT", "OLD", "USDT", "BREAK"),
        listed("BTCUSDT", "BTC", "USDT", "TRADING"),
        listed("NILUSDT", "NIL", "USDT", "TRADING"),
    ];
    let infos = get_infos(&symbols, &markets);
    assert_eq!(infos.len(), 1);
    assert_eq!(infos[0].symbol, "BTCUSDT");
}

#[test]
fn get_markets_refuses_a_bad_number() {
    let r = get_markets(&vec![ticker("BTCUSDT", "1000", "50000"), ticker("ETHBTC", "ten", "0.05")]);
    assert!(matches!(r, Err(ParseError::Number(1))));
}

#[test]
fn sort_infos_by_volume_descending_and_stable() {
    let infos = vec![
        info("A", "A", "USDT", "5"),
        info("B", "B", "USDT", "50"),
        info("C", "C", "USDT", "5.0"),
        info("D", "D", "USDT", "7"),
    ];
    let sorted = sort_infos(infos);
    let names: Vec<&str> = sorted.iter().map(|i| i.symbol.as_str()).collect();
    assert_eq!(names, vec!["B", "D", "A", "C"]);
}

#[test]
fn base_and_quote_groups_ranked_by_total_volume() {
    let infos = vec![
        info("ETHUSDT", "ETH", "USDT", "300"),
        info("BTCUSDT", "BTC", "USDT", "500"),
        info("ETHBTC", "ETH", "BTC", "400"),
        info("USDTTRY", "USDT", "TRY", "9000"),
    ];
    let (bases, quotes) = sort_base_quote(&infos);
    let b: Vec<&str> = bases.iter().map(|g| g.name.as_str()).collect();
    let q: Vec<&str> = quotes.iter().map(|g| g.name.as_str()).collect();
    assert_eq!(b, vec!["ETH", "BTC"]);
    assert_eq!(q, vec!["USDT", "BTC"]);
    assert!(bases[0].volume.value_eq(&Decimal::new(700, 0)));
}

#[test]
fn short_symbol_drops_usdt() {
    assert_eq!(info("BTCUSDT", "BTC", "USDT", "1").short_symbol(), "BTC");
    assert_eq!(info("ETHBTC", "ETH", "BTC", "1").short_symbol(), "ETHBTC");
}

#[test]
fn market_state_keeps_current_and_previous_price() {
    let mut m = MarketState::new();
    for px in ["100", "105", "95"].iter() {
        m.update(&update("BTCUSDT", px));
    }
    assert!(m.px.unwrap().value_eq(&Decimal::new(95, 0)));
    assert!(m.last_px.unwrap().value_eq(&Decimal::new(105, 0)));
    assert_eq!(m.price_string(), "95");
    assert_eq!(m.style(), Trend::Down);
    assert_eq!(m.style_percent(), Trend::Up);
}

#[test]
fn percentage_string_is_six_wide() {
    let mut m = MarketState::new();
    assert_eq!(m.percentage_string(), "     -");
    m.update(&Update { symbol: "X".to_string(), ts: 1, px: dec("110"), px_24h: dec("100") });
    // no previous price yet
    assert_eq!(m.percentage_string(), "     -");
    m.update(&Update { symbol: "X".to_string(), ts: 2, px: dec("120"), px_24h: dec("100") });
    assert_eq!(m.percentage_string(), " +10.0");
    m.update(&Update { symbol: "X".to_string(), ts: 3, px: dec("90"), px_24h: dec("240") });
    assert_eq!(m.percentage_string(), " -50.0");
    m.update(&Update { symbol: "X".to_string(), ts: 4, px: dec("90"), px_24h: dec("7") });
    // cut to six characters
    assert_eq!(m.percentage_string(), "+1185.");
    m.update(&Update { symbol: "X".to_string(), ts: 5, px: dec("90"), px_24h: dec("90") });
    assert_eq!(m.percentage_string(), "     0");
}

#[test]
fn parse_updates_all_or_nothing() {
    let ok = parse_updates(&vec![entry(5, "BTCUSDT", "100.50", "90"), entry(6, "ETHBTC", "0.05", "0.04")]).unwrap();
    assert_eq!(ok.len(), 2);
    assert_eq!(ok[1].symbol, "ETHBTC");
    assert_eq!(ok[0].ts, 5);
    assert_eq!((ok[0].px.coef, ok[0].px.exp), (1005, -1));
    let bad = parse_updates(&vec![entry(5, "BTCUSDT", "100", "90"), entry(6, "ETHBTC", "", "0.04")]);
    assert!(matches!(bad, Err(ParseError::Price(1))));
    let bad = parse_updates(&vec![entry(5, "BTCUSDT", "100", "x")]);
    assert!(matches!(bad, Err(ParseError::ReferencePrice(0))));
}

#[test]
fn price_updates_reach_the_market_state() {
    let mut s = ready_state();
    for (i, px) in ["100", "105", "95"].iter().enumerate() {
        let frame = WsFrame::Updates(vec![entry(10 + i as u64, "BTCUSDT", px, "90")]);
        assert_eq!(s.handle(Msg::WS(20, frame)), Action::Draw);
    }
    let m = s.markets[0].unwrap();
    assert!(m.px.unwrap().value_eq(&Decimal::new(95, 0)));
    assert!(m.last_px.unwrap().value_eq(&Decimal::new(105, 0)));
    assert!(s.markets[1].is_none());
    assert_eq!(s.ts_last_update, 12);
    // symbols outside the catalog are ignored
    s.handle(Msg::WS(20, WsFrame::Updates(vec![entry(30, "NOPE", "1", "1")])));
    assert_eq!(s.markets.len(), 2);
}

#[test]
fn malformed_batch_changes_no_market() {
    let mut s = ready_state();
    s.handle(Msg::WS(20, WsFrame::Updates(vec![entry(10, "BTCUSDT", "100", "90")])));
    let frame = WsFrame::Updates(vec![entry(11, "ETHBTC", "0.05", "0.04"), entry(11, "BTCUSDT", "", "90")]);
    assert_eq!(s.handle(Msg::WS(20, frame)), Action::Draw);
    assert_eq!(s.message, "Bad price in update 1");
    assert!(s.markets[0].unwrap().px.unwrap().value_eq(&Decimal::new(100, 0)));
    assert!(s.markets[1].is_none());
    assert_eq!(s.ts_last_update, 10);
}

#[test]
fn heartbeat_sets_latency_and_junk_is_reported() {
    let mut s = ready_state();
    s.handle(Msg::WS(1500, WsFrame::Text("1200".to_string())));
    assert_eq!(s.latency, 300);
    s.handle(Msg::WS(1500, WsFrame::Text("+1400".to_string())));
    assert_eq!(s.latency, 100);
    s.handle(Msg::WS(1500, WsFrame::Text("hello".to_string())));
    assert_eq!(s.message, "Malformed update frame");
    assert_eq!(s.latency, 100);
}

#[test]
fn search_then_esc_returns_to_the_previous_view() {
    let mut s = ready_state();
    assert_eq!(s.view.mode, UIView::PriceList);
    s.handle(Msg::PriceTable);
    s.handle(Msg::Search);
    assert_eq!(s.view.mode, UIView::Search);
    assert_eq!(s.message, "Select symbol");
    s.handle(Msg::Esc);
    assert_eq!(s.view.mode, UIView::PriceTable);
    assert_eq!(s.view.back, None);
    // with nothing to go back to, Esc shows the price list
    s.handle(Msg::Esc);
    assert_eq!(s.view.mode, UIView::PriceList);
}

#[test]
fn keys_toggle_and_select_views() {
    let mut s = UIState::new();
    assert_eq!(s.view.mode, UIView::Empty);
    s.handle(Msg::TogglePercent);
    assert!(s.view.show_percent);
    assert_eq!(s.message, "Show %");
    s.handle(Msg::ToggleExtended);
    assert!(!s.view.extended);
    assert_eq!(s.message, "Show reduced");
    s.handle(Msg::Help);
    assert_eq!(s.view.mode, UIView::Help);
    assert_eq!(s.view.back, Some(UIView::Empty));
    s.handle(Msg::About);
    assert_eq!(s.view.back, Some(UIView::Help));
    s.handle(Msg::Msg("hello".to_string()));
    assert_eq!(s.message, "hello");
    assert_eq!(s.handle(Msg::Stop), Action::Stop);
    assert_eq!(s.view.mode, UIView::Stopped);
    assert_eq!(s.handle(Msg::PriceList), Action::Stop);
    assert_eq!(s.view.mode, UIView::Stopped);
}

#[test]
fn graph_keys_fetch_klines() {
    let mut s = ready_state();
    assert_eq!(s.handle(Msg::Graph(Some(4))), Action::FetchKlines(Interval::I1h));
    assert_eq!(s.message, "Getting 1h klines for BTCUSDT");
    assert_eq!(s.handle(Msg::Graph(None)), Action::FetchKlines(Interval::I1h));
    s.klines_loaded(Interval::I1h, Ok(()));
    assert_eq!(s.view.mode, UIView::Graph);
    assert_eq!(s.message, "Show 1h klines for BTCUSDT");
    s.klines_loaded(Interval::I1h, Err("timeout".to_string()));
    assert_eq!(s.message, "Failed to get klines: timeout");
}

#[test]
fn search_cursor_and_selection() {
    let mut s = ready_state();
    assert_eq!(s.handle(Msg::ArrowDown), Action::Draw);
    assert_eq!(s.view.cursor_iy, 0);
    s.handle(Msg::Search);
    s.handle(Msg::ArrowDown);
    s.handle(Msg::ArrowRight);
    assert_eq!((s.view.cursor_ix, s.view.cursor_iy), (1, 1));
    assert!(s.cursor_moved);
    // two symbols in a column of height 10: the cursor goes back to (0, 1)
    let (sel, cursor) = search_layout(2, 7, 80, 10, (s.view.cursor_ix, s.view.cursor_iy));
    assert_eq!((sel, cursor), (0, (0, 1)));
    s.search_selected(sel, cursor);
    let (sel, cursor) = search_layout(2, 7, 80, 10, (0, 1));
    assert_eq!(sel, 1);
    s.search_selected(sel, cursor);
    assert_eq!(s.symbol, "ETHBTC");
    s.after_draw();
    assert_eq!(s.message, "SEL ETHBTC");
    assert!(!s.cursor_moved);
    assert_eq!(s.handle(Msg::Enter), Action::FetchKlines(Interval::I1m));
    assert_eq!(s.view.mode, UIView::Graph);
    assert_eq!(s.view.back, Some(UIView::Search));
    s.handle(Msg::Home);
    assert_eq!((s.view.cursor_ix, s.view.cursor_iy), (0, 1));
}

#[test]
fn search_layout_grid() {
    // 25 symbols, 10 rows, columns of 8 + 1: three columns fit in 27
    assert_eq!(search_layout(25, 8, 27, 10, (2, 4)), (24, (2, 4)));
    assert_eq!(search_layout(25, 8, 27, 10, (2, 5)), (0, (2, 5)));
    assert_eq!(search_layout(25, 8, 27, 10, (7, 40)), (0, (2, 9)));
    // only two columns fit in 18
    assert_eq!(search_layout(25, 8, 18, 10, (5, 0)), (0, (1, 0)));
    assert_eq!(search_layout(0, 8, 18, 10, (5, 0)), (0, (0, 0)));
    assert_eq!(search_layout(5, 8, 18, 0, (1, 1)), (0, (0, 0)));
}

#[test]
fn message_bar_layout() {
    let mut s = UIState::new();
    s.message = "Help".to_string();
    // the latency goes in a field as wide as what is left after the text
    assert_eq!(s.message_bar("12:00:00", 5000, 20), "12:00:00 Help ?ms");
    assert_eq!(s.message_bar("12:00:00", 5000, 25), "12:00:00 Help      ?ms");
    assert_eq!(s.message_bar("12:00:00", 5000, 10), "12:00:00 H");
    s.handle(Msg::Infos(vec![info("BTCUSDT", "BTC", "USDT", "1")]));
    s.handle(Msg::WS(0, WsFrame::Updates(vec![entry(4000, "BTCUSDT", "1", "1")])));
    assert_eq!(s.message_bar("12:00:00", 5000, 22), "12:00:00 Help 1000ms");
    assert_eq!(s.message_bar("12:00:00", 5000, 30), "12:00:00 Help     1000ms");
}

#[test]
fn keys_map_to_messages() {
    assert!(matches!(msg_of_key(Key::Char('q')), Some(Msg::Stop)));
    assert!(matches!(msg_of_key(Key::Ctrl('c')), Some(Msg::Stop)));
    assert!(matches!(msg_of_key(Key::Char('7')), Some(Msg::Graph(Some(7)))));
    assert!(matches!(msg_of_key(Key::Char('g')), Some(Msg::Graph(None))));
    assert!(matches!(msg_of_key(Key::Char('\n')), Some(Msg::Enter)));
    assert!(matches!(msg_of_key(Key::Esc), Some(Msg::Esc)));
    assert!(msg_of_key(Key::Char('z')).is_none());
    assert!(msg_of_key(Key::Other).is_none());
    assert!(is_quit(Key::Char('q')));
    assert!(!is_quit(Key::Char('l')));
}

#[test]
fn intervals() {
    assert_eq!(Interval::I15m.seconds(), 900);
    assert_eq!(Interval::I1M.seconds(), 2592000);
    assert_eq!(Interval::I12h.str(), "12h");
    assert_eq!(Interval::from_scale(9), Interval::I1d);
    assert_eq!(Interval::from_scale(0), Interval::I1m);
    assert_eq!(Interval::from_scale(42), Interval::I1m);
}

#[test]
fn markets_survive_a_new_catalog() {
    let mut s = ready_state();
    s.handle(Msg::WS(0, WsFrame::Updates(vec![entry(1, "ETHBTC", "0.05", "0.04")])));
    s.handle(Msg::Infos(vec![info("ETHBTC", "ETH", "BTC", "1"), info("BNBBUSD", "BNB", "BUSD", "1")]));
    assert!(s.markets[0].is_some());
    assert!(s.markets[1].is_none());
    assert_eq!(s.infos.as_ref().unwrap().len(), 1);
    assert_eq!(s.lookup.as_ref().unwrap().len(), 2);
}

#[test]
fn keys_keep_catalog_symbol_and_times() {
    let mut s = ready_state();
    s.handle(Msg::WS(5000, WsFrame::Updates(vec![entry(4000, "BTCUSDT", "1", "1")])));
    s.handle(Msg::WS(5000, WsFrame::Text("4900".to_string())));
    for msg in [Msg::Search, Msg::ArrowDown, Msg::Home, Msg::Esc, Msg::Msg("x".to_string()), Msg::Help] {
        s.handle(msg);
        assert_eq!(s.symbol, "BTCUSDT");
        assert_eq!(s.lookup.as_ref().unwrap().len(), 2);
        assert_eq!(s.ts_last_update, 4000);
        assert_eq!(s.latency, 100);
    }
    // once stopped, nothing changes
    s.handle(Msg::Stop);
    let before = s.message.clone();
    s.handle(Msg::WS(9000, WsFrame::Updates(vec![entry(8000, "BTCUSDT", "2", "1")])));
    assert_eq!(s.ts_last_update, 4000);
    assert_eq!(s.message, before);
}

#[test]
fn two_batches_apply_once_each() {
    let mut s = ready_state();
    s.handle(Msg::WS(0, WsFrame::Updates(vec![entry(1, "BTCUSDT", "100", "90")])));
    s.handle(Msg::WS(0, WsFrame::Updates(vec![entry(2, "BTCUSDT", "105", "90")])));
    let m = s.markets[0].unwrap();
    assert!(m.px.unwrap().value_eq(&Decimal::new(105, 0)));
    assert!(m.last_px.unwrap().value_eq(&Decimal::new(100, 0)));
}
