//! The view-state machine: which page is shown, where Esc leads back to,
//! the display toggles, the chart time scale and the search cursor.
use vstd::prelude::*;

verus! {

/// All the different pages
#[derive(Debug, Clone, Copy, PartialEq, Eq, Structural)]
pub enum UIView {
    /// display PriceList
    PriceList,
    /// display PriceTable
    PriceTable,
    /// display graph
    Graph,
    /// display search widget
    Search,
    /// display nothing (no catalog yet)
    Empty,
    /// display help
    Help,
    /// display about page
    About,
    /// the interface has stopped
    Stopped,
}

/// The navigation events that change the view state.
#[derive(Debug, Clone, Copy, PartialEq, Eq, Structural)]
pub enum Nav {
    /// A catalog arrived
    CatalogReady,
    /// 'l'
    PriceList,
    /// 't'
    PriceTable,
    /// 'g' (no scale) or a digit (that scale)
    Graph(Option<u32>),
    /// '%'
    TogglePercent,
    /// 'x'
    ToggleExtended,
    /// 's'
    Search,
    ArrowUp,
    ArrowDown,
    ArrowLeft,
    ArrowRight,
    /// Home: cursor to the top left
    Home,
    /// Enter: chart of the selected symbol
    Enter,
    /// 'h'
    Help,
    /// 'a'
    About,
    /// Esc: back to the previous view
    Esc,
    /// 'q' or Ctrl-c
    Stop,
    /// Anything that leaves the view state as it is
    Other,
}

/// The view state of the interface.
#[derive(Debug, Clone, Copy)]
pub struct ViewState {
    /// the page shown
    pub mode: UIView,
    /// where to go back to if ESC is pressed
    pub back: Option<UIView>,
    /// show the change in percent instead of the price
    pub show_percent: bool,
    /// extended view of table page
    pub extended: bool,
    /// time scale for graph
    pub time_scale: u32,
    /// x position of symbol in search widget
    pub cursor_ix: u16,
    /// y position of symbol in search widget
    pub cursor_iy: u16,
}

/// Enters a page from which Esc returns to the current one.
pub open spec fn enter_modal(v: ViewState, to: UIView) -> ViewState {
    ViewState { mode: to, back: Some(v.mode), ..v }
}

/// The view state after a navigation event. Once stopped, nothing changes.
pub open spec fn next_view(v: ViewState, n: Nav) -> ViewState {
    if v.mode == UIView::Stopped {
        v
    } else {
        match n {
            Nav::CatalogReady => if v.mode == UIView::Empty {
                ViewState { mode: UIView::PriceList, ..v }
            } else {
                v
            },
            Nav::PriceList => ViewState { mode: UIView::PriceList, ..v },
            Nav::PriceTable => ViewState { mode: UIView::PriceTable, ..v },
            Nav::Graph(scale) => ViewState {
                time_scale: match scale {
                    Some(s) => s,
                    None => v.time_scale,
                },
                ..v
            },
            Nav::TogglePercent => ViewState { show_percent: !v.show_percent, ..v },
            Nav::ToggleExtended => ViewState { extended: !v.extended, ..v },
            Nav::Search => enter_modal(v, UIView::Search),
            Nav::ArrowUp => if v.mode == UIView::Search && v.cursor_iy > 0 {
                ViewState { cursor_iy: (v.cursor_iy - 1) as u16, ..v }
            } else {
                v
            },
            Nav::ArrowDown => if v.mode == UIView::Search && v.cursor_iy < u16::MAX {
                ViewState { cursor_iy: (v.cursor_iy + 1) as u16, ..v }
            } else {
                v
            },
            Nav::ArrowLeft => if v.mode == UIView::Search && v.cursor_ix > 0 {
                ViewState { cursor_ix: (v.cursor_ix - 1) as u16, ..v }
            } else {
                v
            },
            Nav::ArrowRight => if v.mode == UIView::Search && v.cursor_ix < u16::MAX {
                ViewState { cursor_ix: (v.cursor_ix + 1) as u16, ..v }
            } else {
                v
            },
            Nav::Home => if v.mode == UIView::Search {
                ViewState { cursor_ix: 0, cursor_iy: 0, ..v }
            } else {
                v
            },
            Nav::Enter => if v.mode == UIView::Search {
                enter_modal(v, UIView::Graph)
            } else {
                v
            },
            Nav::Help => enter_modal(v, UIView::Help),
            Nav::About => enter_modal(v, UIView::About),
            Nav::Esc => ViewState {
                mode: match v.back {
                    Some(b) => b,
                    None => UIView::PriceList,
                },
                back: None,
                ..v
            },
            Nav::Stop => ViewState { mode: UIView::Stopped, ..v },
            Nav::Other => v,
        }
    }
}

/// Whether a navigation event moves the search cursor.
pub open spec fn moves_cursor(v: ViewState, n: Nav) -> bool {
    v.mode == UIView::Search && (n == Nav::ArrowUp && v.cursor_iy > 0 || n == Nav::ArrowDown
        || n == Nav::ArrowLeft && v.cursor_ix > 0 || n == Nav::ArrowRight || n == Nav::Home)
}

/// The view state at start: nothing shown, prices (not percentages) in the
/// extended table, the first time scale, the cursor at the top left.
pub open spec fn initial_view() -> ViewState {
    ViewState {
        mode: UIView::Empty,
        back: None,
        show_percent: false,
        extended: true,
        time_scale: 0,
        cursor_ix: 0,
        cursor_iy: 0,
    }
}

impl ViewState {
    /// The view state at start (see `initial_view`).
    pub fn new() -> (r: ViewState)
        ensures
            r == initial_view(),
    {
        ViewState {
            mode: UIView::Empty,
            back: None,
            show_percent: false,
            extended: true,
            time_scale: 0,
            cursor_ix: 0,
            cursor_iy: 0,
        }
    }

    /// Applies a navigation event; tells whether the search cursor moved.
    pub fn navigate(&mut self, n: Nav) -> (moved: bool)
        ensures
            *final(self) == next_view(*old(self), n),
            moved == (old(self).mode != UIView::Stopped && moves_cursor(*old(self), n)),
    {
        if self.mode == UIView::Stopped {
            return false;
        }
        let searching = self.mode == UIView::Search;
        match n {
            Nav::CatalogReady => {
                if self.mode == UIView::Empty {
                    self.mode = UIView::PriceList;
                }
                false
            },
            Nav::PriceList => {
                self.mode = UIView::PriceList;
                false
            },
            Nav::PriceTable => {
                self.mode = UIView::PriceTable;
                false
            },
            Nav::Graph(scale) => {
                match scale {
                    Some(s) => self.time_scale = s,
                    None => {},
                }
                false
            },
            Nav::TogglePercent => {
                self.show_percent = !self.show_percent;
                false
            },
            Nav::ToggleExtended => {
                self.extended = !self.extended;
                false
            },
            Nav::Search => {
                self.back = Some(self.mode);
                self.mode = UIView::Search;
                false
            },
            Nav::ArrowUp => {
                if searching && self.cursor_iy > 0 {
                    self.cursor_iy = self.cursor_iy - 1;
                    true
                } else {
                    false
                }
            },
            Nav::ArrowDown => {
                if searching && self.cursor_iy < u16::MAX {
                    self.cursor_iy = self.cursor_iy + 1;
                }
                searching
            },
            Nav::ArrowLeft => {
                if searching && self.cursor_ix > 0 {
                    self.cursor_ix = self.cursor_ix - 1;
                    true
                } else {
                    false
                }
            },
            Nav::ArrowRight => {
                if searching && self.cursor_ix < u16::MAX {
                    self.cursor_ix = self.cursor_ix + 1;
                }
                searching
            },
            Nav::Home => {
                if searching {
                    self.cursor_ix = 0;
                    self.cursor_iy = 0;
                }
                searching
            },
            Nav::Enter => {
                if searching {
                    self.back = Some(self.mode);
                    self.mode = UIView::Graph;
                }
                false
            },
            Nav::Help => {
                self.back = Some(self.mode);
                self.mode = UIView::Help;
                false
            },
            Nav::About => {
                self.back = Some(self.mode);
                self.mode = UIView::About;
                false
            },
            Nav::Esc => {
                self.mode = match self.back {
                    Some(b) => b,
                    None => UIView::PriceList,
                };
                self.back = None;
                false
            },
            Nav::Stop => {
                self.mode = UIView::Stopped;
                false
            },
            Nav::Other => false,
        }
    }
}

/// Pressing 's' and then Esc returns to the page that was shown before 's'
/// (while the interface runs).
pub proof fn lemma_search_then_esc(v: ViewState)
    requires
        v.mode != UIView::Stopped,
    ensures
        next_view(next_view(v, Nav::Search), Nav::Esc).mode == v.mode,
        next_view(next_view(v, Nav::Search), Nav::Esc).back is None,
{
}

/// Any modal page (search, help, about) is left by Esc for the page it
/// was entered from.
pub proof fn lemma_modal_then_esc(v: ViewState, n: Nav)
    requires
        v.mode != UIView::Stopped,
        n == Nav::Search || n == Nav::Help || n == Nav::About,
    ensures
        next_view(next_view(v, n), Nav::Esc).mode == v.mode,
{
}

/// Once stopped, no event changes the view state.
pub proof fn lemma_stopped_is_final(v: ViewState, n: Nav)
    requires
        v.mode == UIView::Stopped,
    ensures
        next_view(v, n) == v,
{
}

} // verus!
