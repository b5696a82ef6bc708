//! Live cryptocurrency price dashboard: the verified core.
//!
//! Decimal prices and their display, nice axis ranges, the symbol catalog,
//! the update parser, per-symbol market state, and the view-state machine
//! of the aggregation actor that merges keyboard, catalog and price events.
mod arith;
mod catalog;
mod compact;
mod decimal;
mod interval;
mod keys;
mod market;
mod nice;
mod rank;
mod search;
mod state;
mod view;

pub use arith::parse_dec;
pub use catalog::{
    get_infos, get_markets, sort_base_quote, sort_infos, Group, Info, Market, MarketInfoSymbol, Ticker,
};
pub use compact::Nice;
pub use decimal::{fmt_dec, Decimal};
pub use interval::Interval;
pub use keys::{is_quit, msg_of_key, Key};
pub use market::{parse_updates, MarketState, ParseError, TickerUpdate, Trend, Update};
pub use nice::{dec_nice_range, Dec64Nice};
pub use search::search_layout;
pub use state::{Action, Msg, UIState, WsFrame};
pub use view::{Nav, UIView, ViewState};
