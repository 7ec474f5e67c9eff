//! The viewer's state and the decisions it makes on keys, mouse clicks, clock
//! ticks and the results of network requests.
//!
//! Every step here is a plain function of the state and an event. Work that
//! leaves the process (HTTP requests, the clipboard, files, the AI stream) is
//! asked for by returning a `Command`; its outcome is handed back through the
//! `App` methods that take it.

use vstd::prelude::*;

use vstd::utf8::encode_utf8;

use crate::api::{
    count_map_segments, distinct_names, lemma_map_count_le, lifetime_wf, map_count, MatchItem,
    PlayerLifetimeStats, PlayerProfile,
};
use crate::summary::{
    lifetime_summary, lifetime_text, maps_summary, maps_text, matches_summary, matches_text,
};
use crate::text::{
    chars_of, contains, decimal, join2, join3, owned, push_char, same_text, string_of,
    text_contains, trim, trim_text, u64_text, usize_text, utf8_len_exceeds,
};

verus! {

broadcast use vstd::string::group_string_axioms;

// ---------------------------------------------------------------------------
// Scroll positions
// ---------------------------------------------------------------------------

/// A width and a height in terminal cells.
#[derive(Debug, Clone, Copy, PartialEq, Eq, Structural)]
pub struct Extent {
    pub width: u16,
    pub height: u16,
}

/// The scroll position of a scrollable view, with the sizes its last drawing
/// found: what `tui_scrollview::ScrollViewState` keeps. The view is drawn
/// outside the library, which hands back the position drawing left and the
/// sizes it used (see `Scroll::drawn`).
#[derive(Debug, Clone, Copy, PartialEq, Eq, Structural)]
pub struct Scroll {
    /// The leftmost column shown.
    pub x: u16,
    /// The top row shown.
    pub y: u16,
    /// The width and height of the scrolled content, once drawn.
    pub size: Option<Extent>,
    /// The width and height of the area it was drawn in, once drawn.
    pub page: Option<Extent>,
}

/// `n - 1`, or 0 for 0.
pub open spec fn dec16(n: u16) -> u16 {
    if n > 0 {
        (n - 1) as u16
    } else {
        0
    }
}

/// `a + b`, or `u16::MAX` where that does not fit.
pub open spec fn add16(a: u16, b: u16) -> u16 {
    if a + b <= u16::MAX {
        (a + b) as u16
    } else {
        u16::MAX
    }
}

/// `a - b`, or 0 below zero.
pub open spec fn sub16(a: u16, b: u16) -> u16 {
    if a >= b {
        (a - b) as u16
    } else {
        0
    }
}

/// The rows of a page: the height of the area last drawn in, 1 before any
/// drawing.
pub open spec fn page_rows(s: Scroll) -> u16 {
    match s.page {
        Some(p) => p.height,
        None => 1,
    }
}

/// `s` scrolled so that `row` is the top row, at the left edge.
pub open spec fn scrolled_to(s: Scroll, row: u16) -> Scroll {
    Scroll { x: 0, y: row, ..s }
}

/// A scroll position at the top left, not drawn yet.
pub open spec fn fresh_scroll() -> Scroll {
    Scroll { x: 0, y: 0, size: None, page: None }
}

/// `s` back at the top left.
pub open spec fn at_top(s: Scroll) -> Scroll {
    Scroll { x: 0, y: 0, ..s }
}

/// `s` at the last row of the content last drawn, or as far as a `u16` goes
/// before any drawing.
pub open spec fn at_bottom(s: Scroll) -> Scroll {
    Scroll {
        y: match s.size {
            Some(sz) => sub16(sz.height, 1),
            None => u16::MAX,
        },
        ..s
    }
}

/// `s` a page further down, keeping one row of the last page in view.
pub open spec fn paged_down(s: Scroll) -> Scroll {
    Scroll { y: sub16(add16(s.y, page_rows(s)), 1), ..s }
}

/// `s` a page further up, keeping one row of the last page in view.
pub open spec fn paged_up(s: Scroll) -> Scroll {
    Scroll { y: sub16(add16(s.y, 1), page_rows(s)), ..s }
}

/// `s` scrolled one row up (`up`) or down.
pub open spec fn stepped(s: Scroll, up: bool) -> Scroll {
    Scroll {
        y: if up {
            dec16(s.y)
        } else {
            add16(s.y, 1)
        },
        ..s
    }
}

impl Scroll {
    /// At the top left, not drawn yet (`ScrollViewState::new`).
    pub fn new() -> (s: Scroll)
        ensures
            s == fresh_scroll(),
    {
        Scroll { x: 0, y: 0, size: None, page: None }
    }

    /// Scrolls so that `row` is the top row, at the left edge
    /// (`ScrollViewState::set_offset` with the position `(0, row)`).
    pub fn set_row(&mut self, row: u16)
        ensures
            *final(self) == scrolled_to(*old(self), row),
    {
        self.x = 0;
        self.y = row;
    }

    /// The top row shown (`ScrollViewState::offset`'s row).
    pub fn row(&self) -> (r: u16)
        ensures
            r == self.y,
    {
        self.y
    }

    /// One row up, not above the first (`ScrollViewState::scroll_up`).
    pub fn up(&mut self)
        ensures
            *final(self) == stepped(*old(self), true),
    {
        self.y = if self.y > 0 {
            self.y - 1
        } else {
            0
        };
    }

    /// One row down, as far as a `u16` goes (`ScrollViewState::scroll_down`).
    pub fn down(&mut self)
        ensures
            *final(self) == stepped(*old(self), false),
    {
        self.y = if self.y < u16::MAX {
            self.y + 1
        } else {
            u16::MAX
        };
    }

    fn page_height(&self) -> (r: u16)
        ensures
            r == page_rows(*self),
    {
        match self.page {
            Some(p) => p.height,
            None => 1,
        }
    }

    /// A page down, keeping one row of the last page in view
    /// (`ScrollViewState::scroll_page_down`).
    pub fn page_down(&mut self)
        ensures
            *final(self) == paged_down(*old(self)),
    {
        let p = self.page_height();
        let added: u16 = if self.y <= u16::MAX - p {
            self.y + p
        } else {
            u16::MAX
        };
        self.y = if added >= 1 {
            added - 1
        } else {
            0
        };
    }

    /// A page up, keeping one row of the last page in view
    /// (`ScrollViewState::scroll_page_up`).
    pub fn page_up(&mut self)
        ensures
            *final(self) == paged_up(*old(self)),
    {
        let p = self.page_height();
        let added: u16 = if self.y < u16::MAX {
            self.y + 1
        } else {
            u16::MAX
        };
        self.y = if added >= p {
            added - p
        } else {
            0
        };
    }

    /// Back to the top left (`ScrollViewState::scroll_to_top`).
    pub fn to_top(&mut self)
        ensures
            *final(self) == at_top(*old(self)),
    {
        self.x = 0;
        self.y = 0;
    }

    /// To the last row of the content last drawn, or as far as a `u16` goes
    /// before any drawing (the drawing then stops at the end;
    /// `ScrollViewState::scroll_to_bottom`).
    pub fn to_bottom(&mut self)
        ensures
            *final(self) == at_bottom(*old(self)),
    {
        self.y = match self.size {
            Some(sz) => if sz.height >= 1 {
                sz.height - 1
            } else {
                0
            },
            None => u16::MAX,
        };
    }

    /// Records a drawing: the position it left (`x`, `y`), the size of the
    /// content and the size of the area it was drawn in.
    pub fn drawn(&mut self, x: u16, y: u16, size: Extent, page: Extent)
        ensures
            *final(self) == (Scroll { x, y, size: Some(size), page: Some(page) }),
    {
        self.x = x;
        self.y = y;
        self.size = Some(size);
        self.page = Some(page);
    }
}

// ---------------------------------------------------------------------------
// Outside types
// ---------------------------------------------------------------------------
//
// The clock is read through `instant_now` and `seconds_since`, of which
// nothing is stated.

/// A point in time (`std::time::Instant`).
#[verifier::external_type_specification]
#[verifier::external_body]
pub struct ExInstant(std::time::Instant);

/// `Instant::clone`: `Instant` is `Copy`, so the clone is the same instant.
pub assume_specification[ <std::time::Instant as Clone>::clone ](t: &std::time::Instant) -> (r:
    std::time::Instant)
    ensures
        r == *t,
;

/// `Instant::now`: the current time.
#[verifier::external_body]
fn instant_now() -> std::time::Instant {
    std::time::Instant::now()
}

/// `Instant::elapsed` in whole seconds: the time passed since `t`.
#[verifier::external_body]
fn seconds_since(t: &std::time::Instant) -> u64 {
    t.elapsed().as_secs()
}

// ---------------------------------------------------------------------------
// Plain state
// ---------------------------------------------------------------------------

/// Whether keys edit the search text.
#[derive(Debug, Clone, Copy, PartialEq, Eq, Structural)]
pub enum InputMode {
    Normal,
    Editing,
}

/// Where the loading of a player's data stands.
#[derive(Debug, PartialEq)]
pub enum LoadingState {
    Idle,
    Loading,
    Success,
    Error(String),
}

/// A short message shown for a few seconds.
#[derive(Debug, Clone)]
pub struct Toast {
    pub message: String,
    pub created_at: std::time::Instant,
    pub duration_secs: u64,
    pub is_error: bool,
}

/// A rectangle of terminal cells.
#[derive(Debug, Clone, Copy, PartialEq, Eq, Structural)]
pub struct Rect {
    pub x: u16,
    pub y: u16,
    pub width: u16,
    pub height: u16,
}

/// A key the viewer reacts to.
#[derive(Debug, Clone, Copy, PartialEq, Eq, Structural)]
pub enum Key {
    Char(char),
    Enter,
    Esc,
    Up,
    Down,
    PageUp,
    PageDown,
    Home,
    End,
    Tab,
    Backspace,
    Delete,
    Other,
}

/// A mouse button.
#[derive(Debug, Clone, Copy, PartialEq, Eq, Structural)]
pub enum MouseButton {
    Left,
    Right,
    Middle,
}

/// What the mouse did.
#[derive(Debug, Clone, Copy, PartialEq, Eq, Structural)]
pub enum MouseKind {
    ScrollUp,
    ScrollDown,
    Down(MouseButton),
    Other,
}

/// A mouse event at a terminal cell.
#[derive(Debug, Clone, Copy, PartialEq, Eq, Structural)]
pub struct MouseInput {
    pub kind: MouseKind,
    pub column: u16,
    pub row: u16,
}

/// The texts an AI analysis of a player is asked with, and the AI service key
/// to ask with.
pub struct AiRequest {
    pub name: String,
    pub lifetime: String,
    pub maps: String,
    pub matches: String,
    pub key: Option<String>,
}

/// Work outside the library that a step asks for.
pub enum Command {
    /// Nothing to do.
    Nothing,
    /// Leave the program.
    Quit,
    /// Look the player in the search field up (see `App::fetch_stats`).
    FetchStats,
    /// Load the given page of the match history (see `App::begin_page`).
    FetchPage(usize),
    /// Copy the text to the clipboard (then `App::copy_finished`).
    CopyText(String),
    /// Switch to the colour theme of that name.
    LoadTheme(String),
    /// Start an AI analysis (its text comes back through `App::receive_ai`).
    Analyze(AiRequest),
    /// Write the current tab's data to a file (see `App::begin_export`).
    Export,
}

/// The number of spinner frames.
pub const SPINNER_FRAMES: usize = 10;

/// The number of matches on one page of the history.
pub const PAGE_SIZE: usize = 30;

/// The number of searches kept in the history.
pub const HISTORY_LIMIT: usize = 10;

/// The state of the viewer.
pub struct App {
    pub input: String,
    pub input_mode: InputMode,
    pub player_info: Option<PlayerProfile>,
    pub lifetime_stats: Option<PlayerLifetimeStats>,
    pub match_history: Option<Vec<MatchItem>>,
    pub loading_state: LoadingState,
    pub selected_tab: usize,
    pub selected_row: usize,
    pub lifetime_sv: Scroll,
    pub matches_sv: Scroll,
    pub maps_sv: Scroll,
    pub spinner_frame: usize,
    pub toasts: Vec<Toast>,
    pub show_help: bool,
    pub search_history: Vec<String>,
    pub history_index: Option<usize>,
    pub last_content_rect: Option<Rect>,
    pub input_rect: Option<Rect>,
    pub player_card_rect: Option<Rect>,
    pub show_match_popup: bool,
    pub match_popup_sv: Scroll,
    pub show_map_popup: bool,
    pub map_popup_sv: Scroll,
    pub current_page: usize,
    pub has_more_pages: bool,
    pub ai_response: Option<String>,
    pub ai_loading: bool,
    pub ai_sv: Scroll,
    pub ai_partial: String,
    pub theme_names: Vec<String>,
    pub theme_index: usize,
    pub show_theme_selector: bool,
    pub theme_sv: Scroll,
    pub theme_selector_row: usize,
    /// The AI service key of this session, kept in memory only.
    pub ai_key: Option<String>,
    pub show_ai_key_popup: bool,
    pub ai_key_input: String,
}

// ---------------------------------------------------------------------------
// The model of the state
// ---------------------------------------------------------------------------

/// Where the loading stands, with the error's text.
pub enum LoadingView {
    Idle,
    Loading,
    Success,
    Error(Seq<char>),
}

/// A toast as the user sees it.
pub struct ToastView {
    pub message: Seq<char>,
    pub duration_secs: u64,
    pub is_error: bool,
}

/// The state of the viewer without the times its toasts were made.
pub struct AppView {
    pub input: Seq<char>,
    pub input_mode: InputMode,
    pub player_info: Option<PlayerProfile>,
    pub lifetime_stats: Option<PlayerLifetimeStats>,
    pub match_history: Option<Vec<MatchItem>>,
    pub loading: LoadingView,
    pub selected_tab: usize,
    pub selected_row: usize,
    pub lifetime_sv: Scroll,
    pub matches_sv: Scroll,
    pub maps_sv: Scroll,
    pub spinner_frame: usize,
    pub toasts: Seq<ToastView>,
    pub show_help: bool,
    pub search_history: Seq<Seq<char>>,
    pub history_index: Option<usize>,
    pub last_content_rect: Option<Rect>,
    pub input_rect: Option<Rect>,
    pub player_card_rect: Option<Rect>,
    pub show_match_popup: bool,
    pub match_popup_sv: Scroll,
    pub show_map_popup: bool,
    pub map_popup_sv: Scroll,
    pub current_page: usize,
    pub has_more_pages: bool,
    pub ai_response: Option<Seq<char>>,
    pub ai_loading: bool,
    pub ai_sv: Scroll,
    pub ai_partial: Seq<char>,
    pub theme_names: Seq<Seq<char>>,
    pub theme_index: usize,
    pub show_theme_selector: bool,
    pub theme_sv: Scroll,
    pub theme_selector_row: usize,
    pub ai_key: Option<Seq<char>>,
    pub show_ai_key_popup: bool,
    pub ai_key_input: Seq<char>,
}

impl View for LoadingState {
    type V = LoadingView;

    open spec fn view(&self) -> LoadingView {
        match self {
            LoadingState::Idle => LoadingView::Idle,
            LoadingState::Loading => LoadingView::Loading,
            LoadingState::Success => LoadingView::Success,
            LoadingState::Error(e) => LoadingView::Error(e@),
        }
    }
}

impl View for Toast {
    type V = ToastView;

    open spec fn view(&self) -> ToastView {
        ToastView {
            message: self.message@,
            duration_secs: self.duration_secs,
            is_error: self.is_error,
        }
    }
}

/// The texts of a vector of strings.
pub open spec fn texts(v: Seq<String>) -> Seq<Seq<char>> {
    v.map_values(|s: String| s@)
}

/// The text of an optional string.
pub open spec fn opt_text(o: Option<String>) -> Option<Seq<char>> {
    match o {
        Some(s) => Some(s@),
        None => None,
    }
}

impl View for App {
    type V = AppView;

    open spec fn view(&self) -> AppView {
        AppView {
            input: self.input@,
            input_mode: self.input_mode,
            player_info: self.player_info,
            lifetime_stats: self.lifetime_stats,
            match_history: self.match_history,
            loading: self.loading_state@,
            selected_tab: self.selected_tab,
            selected_row: self.selected_row,
            lifetime_sv: self.lifetime_sv,
            matches_sv: self.matches_sv,
            maps_sv: self.maps_sv,
            spinner_frame: self.spinner_frame,
            toasts: self.toasts@.map_values(|t: Toast| t@),
            show_help: self.show_help,
            search_history: texts(self.search_history@),
            history_index: self.history_index,
            last_content_rect: self.last_content_rect,
            input_rect: self.input_rect,
            player_card_rect: self.player_card_rect,
            show_match_popup: self.show_match_popup,
            match_popup_sv: self.match_popup_sv,
            show_map_popup: self.show_map_popup,
            map_popup_sv: self.map_popup_sv,
            current_page: self.current_page,
            has_more_pages: self.has_more_pages,
            ai_response: opt_text(self.ai_response),
            ai_loading: self.ai_loading,
            ai_sv: self.ai_sv,
            ai_partial: self.ai_partial@,
            theme_names: texts(self.theme_names@),
            theme_index: self.theme_index,
            show_theme_selector: self.show_theme_selector,
            theme_sv: self.theme_sv,
            theme_selector_row: self.theme_selector_row,
            ai_key: opt_text(self.ai_key),
            show_ai_key_popup: self.show_ai_key_popup,
            ai_key_input: self.ai_key_input@,
        }
    }
}

/// `n - 1`, or 0 for 0.
pub open spec fn sat_dec(n: nat) -> nat {
    if n == 0 {
        0
    } else {
        (n - 1) as nat
    }
}

/// The number of rows of the current tab: lifetime statistics, matches, or map
/// segments.
pub open spec fn tab_items(v: AppView) -> nat {
    if v.selected_tab == 0 {
        match v.lifetime_stats {
            Some(s) => match s.lifetime {
                Some(m) => m@.len(),
                None => 0,
            },
            None => 0,
        }
    } else if v.selected_tab == 1 {
        match v.match_history {
            Some(h) => h@.len(),
            None => 0,
        }
    } else if v.selected_tab == 2 {
        match v.lifetime_stats {
            Some(s) => match s.segments {
                Some(segs) => map_count(segs@),
                None => 0,
            },
            None => 0,
        }
    } else {
        0
    }
}

/// The last row of the current tab (0 when it has none).
pub open spec fn last_row(v: AppView) -> nat {
    sat_dec(tab_items(v))
}

/// The scroll position of the current tab's table (a fresh one for a tab
/// there is not).
pub open spec fn tab_scroll(v: AppView) -> Scroll {
    if v.selected_tab == 0 {
        v.lifetime_sv
    } else if v.selected_tab == 1 {
        v.matches_sv
    } else if v.selected_tab == 2 {
        v.maps_sv
    } else {
        fresh_scroll()
    }
}

/// The top row of the current tab's table (0 for a tab there is not).
pub open spec fn tab_offset(v: AppView) -> u16 {
    if v.selected_tab < 3 {
        tab_scroll(v).y
    } else {
        0
    }
}

/// The state with the current tab's table scrolled to `s` (unchanged for a tab
/// there is not).
pub open spec fn with_tab_scroll(v: AppView, s: Scroll) -> AppView {
    if v.selected_tab == 0 {
        AppView { lifetime_sv: s, ..v }
    } else if v.selected_tab == 1 {
        AppView { matches_sv: s, ..v }
    } else if v.selected_tab == 2 {
        AppView { maps_sv: s, ..v }
    } else {
        v
    }
}

/// The state switched to tab `tab` on its first row, its table back at the
/// top.
pub open spec fn to_tab(v: AppView, tab: usize) -> AppView {
    let v1 = AppView { selected_tab: tab, selected_row: 0, ..v };
    with_tab_scroll(v1, at_top(tab_scroll(v1)))
}

/// Whether all texts in `s` differ.
pub open spec fn all_distinct(s: Seq<Seq<char>>) -> bool {
    forall|i: int, j: int| 0 <= i < s.len() && 0 <= j < s.len() && i != j ==> s[i] != s[j]
}

/// Whether no match of a history has a field name twice.
#[verifier::opaque]
pub open spec fn history_wf(h: Seq<MatchItem>) -> bool {
    forall|k: int| 0 <= k < h.len() ==> distinct_names(#[trigger] h[k]@)
}

/// The invariant that every step keeps.
pub open spec fn wf(v: AppView) -> bool {
    &&& (v.lifetime_stats matches Some(s) ==> lifetime_wf(s))
    &&& (v.match_history matches Some(h) ==> history_wf(h@))
    &&& v.spinner_frame < SPINNER_FRAMES
    &&& v.selected_tab < 3
    &&& v.selected_row <= last_row(v)
    &&& v.search_history.len() <= HISTORY_LIMIT
    &&& all_distinct(v.search_history)
    &&& forall|i: int| 0 <= i < v.search_history.len() ==> trim(#[trigger] v.search_history[i]).len() > 0
    &&& (v.history_index matches Some(i) ==> i < v.search_history.len())
    &&& v.theme_index <= sat_dec(v.theme_names.len())
    &&& v.theme_selector_row <= sat_dec(v.theme_names.len())
}

impl Toast {
    /// An information toast that shows for three seconds.
    pub fn info(msg: String) -> (t: Toast)
        ensures
            t@ == (ToastView { message: msg@, duration_secs: 3, is_error: false }),
    {
        Toast { message: msg, created_at: instant_now(), duration_secs: 3, is_error: false }
    }

    /// An error toast that shows for four seconds.
    pub fn error(msg: String) -> (t: Toast)
        ensures
            t@ == (ToastView { message: msg@, duration_secs: 4, is_error: true }),
    {
        Toast { message: msg, created_at: instant_now(), duration_secs: 4, is_error: true }
    }

    /// Whether the toast has been shown `elapsed_secs` seconds for its full time.
    pub fn expired_after(&self, elapsed_secs: u64) -> (r: bool)
        ensures
            r == (elapsed_secs >= self.duration_secs),
    {
        elapsed_secs >= self.duration_secs
    }

    /// Whether the toast has been shown for its full time by now. The clock is
    /// read here, so nothing more is known of the answer than that a toast with
    /// no time at all has always expired.
    pub fn expired(&self) -> (r: bool)
        ensures
            self.duration_secs == 0 ==> r,
    {
        let secs = seconds_since(&self.created_at);
        self.expired_after(secs)
    }
}

impl App {
    /// A fresh state: nothing loaded, the search field empty, and the theme
    /// `theme_name` selected among `theme_names` (the first one if it is not
    /// among them).
    pub fn new(theme_names: Vec<String>, theme_name: &str, ai_key: Option<String>) -> (app: App)
        ensures
            app@.input == Seq::<char>::empty(),
            app@.input_mode == InputMode::Normal,
            app@.player_info is None,
            app@.lifetime_stats is None,
            app@.match_history is None,
            app@.loading == LoadingView::Idle,
            app@.selected_tab == 0,
            app@.selected_row == 0,
            app@.lifetime_sv == fresh_scroll(),
            app@.matches_sv == fresh_scroll(),
            app@.maps_sv == fresh_scroll(),
            app@.match_popup_sv == fresh_scroll(),
            app@.map_popup_sv == fresh_scroll(),
            app@.ai_sv == fresh_scroll(),
            app@.theme_sv == fresh_scroll(),
            app@.spinner_frame == 0,
            app@.toasts.len() == 0,
            !app@.show_help,
            app@.search_history.len() == 0,
            app@.history_index is None,
            app@.last_content_rect is None,
            app@.input_rect is None,
            app@.player_card_rect is None,
            !app@.show_match_popup,
            !app@.show_map_popup,
            app@.current_page == 0,
            !app@.has_more_pages,
            app@.ai_response is None,
            !app@.ai_loading,
            app@.ai_partial == Seq::<char>::empty(),
            app@.theme_names == texts(theme_names@),
            app@.theme_index == theme_position(texts(theme_names@), theme_name@),
            !app@.show_theme_selector,
            app@.theme_selector_row == 0,
            app@.ai_key == opt_text(ai_key),
            !app@.show_ai_key_popup,
            app@.ai_key_input == Seq::<char>::empty(),
            wf(app@),
    {
        let index = position_of(&theme_names, theme_name);
        let app = App {
            input: String::new(),
            input_mode: InputMode::Normal,
            player_info: None,
            lifetime_stats: None,
            match_history: None,
            loading_state: LoadingState::Idle,
            selected_tab: 0,
            selected_row: 0,
            lifetime_sv: Scroll::new(),
            matches_sv: Scroll::new(),
            maps_sv: Scroll::new(),
            spinner_frame: 0,
            toasts: Vec::new(),
            show_help: false,
            search_history: Vec::new(),
            history_index: None,
            last_content_rect: None,
            input_rect: None,
            player_card_rect: None,
            show_match_popup: false,
            match_popup_sv: Scroll::new(),
            show_map_popup: false,
            map_popup_sv: Scroll::new(),
            current_page: 0,
            has_more_pages: false,
            ai_response: None,
            ai_loading: false,
            ai_sv: Scroll::new(),
            ai_partial: String::new(),
            theme_names,
            theme_index: index,
            show_theme_selector: false,
            theme_sv: Scroll::new(),
            theme_selector_row: 0,
            ai_key,
            show_ai_key_popup: false,
            ai_key_input: String::new(),
        };
        proof {
            assert(app@.toasts =~= Seq::<ToastView>::empty());
            assert(app@.search_history =~= Seq::<Seq<char>>::empty());
        }
        app
    }
}

/// Index of the first `x` in `s`, or `s.len()`.
pub open spec fn index_in(s: Seq<Seq<char>>, x: Seq<char>) -> int
    decreases s.len(),
{
    if s.len() == 0 {
        0
    } else if s[0] == x {
        0
    } else {
        1 + index_in(s.drop_first(), x)
    }
}

/// The theme that a name selects among the names: its first position, or the
/// first theme when the name is not among them.
pub open spec fn theme_position(names: Seq<Seq<char>>, name: Seq<char>) -> int {
    if index_in(names, name) < names.len() {
        index_in(names, name)
    } else {
        0
    }
}

/// The position of the first name equal to `name`, or 0 when there is none.
fn position_of(names: &Vec<String>, name: &str) -> (r: usize)
    ensures
        r == theme_position(texts(names@), name@),
        r <= sat_dec(names@.len()),
{
    let ghost t = texts(names@);
    let mut i: usize = 0;
    assert(t.skip(0) == t);
    while i < names.len()
        invariant
            i <= names.len(),
            t == texts(names@),
            t.len() == names@.len(),
            index_in(t, name@) == i + index_in(t.skip(i as int), name@),
        decreases names.len() - i,
    {
        assert(t.skip(i as int)[0] == names@[i as int]@);
        assert(t.skip(i as int).drop_first() == t.skip(i + 1));
        if crate::text::same_text(names[i].as_str(), name) {
            return i;
        }
        i = i + 1;
    }
    assert(t.skip(i as int).len() == 0);
    0
}

// ---------------------------------------------------------------------------
// Commands and their model
// ---------------------------------------------------------------------------

/// The texts of an AI request.
pub struct AiRequestView {
    pub name: Seq<char>,
    pub lifetime: Seq<char>,
    pub maps: Seq<char>,
    pub matches: Seq<char>,
    pub key: Option<Seq<char>>,
}

impl View for AiRequest {
    type V = AiRequestView;

    open spec fn view(&self) -> AiRequestView {
        AiRequestView {
            name: self.name@,
            lifetime: self.lifetime@,
            maps: self.maps@,
            matches: self.matches@,
            key: opt_text(self.key),
        }
    }
}

/// A command with its texts.
pub enum CommandView {
    Nothing,
    Quit,
    FetchStats,
    FetchPage(usize),
    CopyText(Seq<char>),
    LoadTheme(Seq<char>),
    Analyze(AiRequestView),
    Export,
}

impl View for Command {
    type V = CommandView;

    open spec fn view(&self) -> CommandView {
        match self {
            Command::Nothing => CommandView::Nothing,
            Command::Quit => CommandView::Quit,
            Command::FetchStats => CommandView::FetchStats,
            Command::FetchPage(p) => CommandView::FetchPage(*p),
            Command::CopyText(t) => CommandView::CopyText(t@),
            Command::LoadTheme(n) => CommandView::LoadTheme(n@),
            Command::Analyze(r) => CommandView::Analyze(r@),
            Command::Export => CommandView::Export,
        }
    }
}

// ---------------------------------------------------------------------------
// The model of a key press
// ---------------------------------------------------------------------------

/// An information toast as the user sees it.
pub open spec fn info_toast(m: Seq<char>) -> ToastView {
    ToastView { message: m, duration_secs: 3, is_error: false }
}

/// An error toast as the user sees it.
pub open spec fn error_toast(m: Seq<char>) -> ToastView {
    ToastView { message: m, duration_secs: 4, is_error: true }
}

/// The state with one more toast.
pub open spec fn with_toast(v: AppView, t: ToastView) -> AppView {
    AppView { toasts: v.toasts.push(t), ..v }
}

/// `a - b`, or 0 when `b` is larger.
pub open spec fn sat_sub(a: nat, b: nat) -> nat {
    if a >= b {
        (a - b) as nat
    } else {
        0
    }
}

/// The smaller of two numbers.
pub open spec fn min(a: nat, b: nat) -> nat {
    if a <= b {
        a
    } else {
        b
    }
}

/// The state with the theme list's cursor on `row`, scrolled so that it is the
/// top row shown (the row taken as a `u16`, wrapping around).
pub open spec fn at_theme_row(v: AppView, row: nat) -> AppView {
    let r = row as usize;
    AppView { theme_selector_row: r, theme_sv: scrolled_to(v.theme_sv, r as u16), ..v }
}

/// A key pressed while the theme list is open: the arrows, Home, End and the
/// page keys (15 rows) move its cursor within the list and scroll it into view
/// (End scrolls to the end of the list), Enter picks the theme under it, Esc
/// closes the list.
pub open spec fn theme_key(v: AppView, key: Key) -> (AppView, CommandView) {
    let n = v.theme_names.len();
    let last = sat_dec(n);
    let r = v.theme_selector_row as nat;
    match key {
        Key::Esc => (AppView { show_theme_selector: false, ..v }, CommandView::Nothing),
        Key::Enter => if r < n {
            let name = v.theme_names[r as int];
            (
                with_toast(
                    AppView { theme_index: r as usize, show_theme_selector: false, ..v },
                    info_toast("Theme: "@ + name),
                ),
                CommandView::LoadTheme(name),
            )
        } else {
            (AppView { show_theme_selector: false, ..v }, CommandView::Nothing)
        },
        Key::Up => (at_theme_row(v, sat_dec(r)), CommandView::Nothing),
        Key::Down => (
            at_theme_row(
                v,
                if r < last {
                    r + 1
                } else {
                    r
                },
            ),
            CommandView::Nothing,
        ),
        Key::Home => (at_theme_row(v, 0), CommandView::Nothing),
        Key::End => (
            AppView { theme_selector_row: last as usize, theme_sv: at_bottom(v.theme_sv), ..v },
            CommandView::Nothing,
        ),
        Key::PageUp => (at_theme_row(v, sat_sub(r, min(15, last))), CommandView::Nothing),
        Key::PageDown => (at_theme_row(v, min(r + 15, last)), CommandView::Nothing),
        _ => (v, CommandView::Nothing),
    }
}

/// The state after Esc in normal mode: back to the start screen, with the
/// search text and its history kept and the tables and the answer scrolled
/// back.
pub open spec fn home(v: AppView) -> AppView {
    AppView {
        loading: LoadingView::Idle,
        player_info: None,
        lifetime_stats: None,
        match_history: None,
        selected_tab: 0,
        selected_row: 0,
        lifetime_sv: fresh_scroll(),
        matches_sv: fresh_scroll(),
        maps_sv: fresh_scroll(),
        ai_sv: fresh_scroll(),
        current_page: 0,
        has_more_pages: false,
        ai_response: None,
        ai_loading: false,
        ai_partial: Seq::empty(),
        show_match_popup: false,
        show_map_popup: false,
        show_help: false,
        ..v
    }
}

/// The state switched to editing the search text.
pub open spec fn start_editing(v: AppView) -> AppView {
    AppView { input_mode: InputMode::Editing, history_index: None, ..v }
}

/// The state with the current tab's cursor on `row`.
pub open spec fn at_row(v: AppView, row: nat) -> AppView {
    AppView { selected_row: row as usize, ..v }
}

/// The state with the current tab's cursor on `row`, its table scrolled so
/// that the row is the top row shown (the row taken as a `u16`, wrapping
/// around).
pub open spec fn at_shown_row(v: AppView, row: nat) -> AppView {
    let v1 = at_row(v, row);
    with_tab_scroll(v1, scrolled_to(tab_scroll(v1), v1.selected_row as u16))
}

/// The name an analysis is asked for: the player's nickname, or `unknown`.
pub open spec fn player_name(p: Option<PlayerProfile>) -> Seq<char> {
    match p {
        Some(p) => p.nickname@,
        None => "unknown"@,
    }
}

/// The request for an AI analysis of the loaded player.
pub open spec fn ai_request_of(v: AppView) -> AiRequestView {
    AiRequestView {
        name: player_name(v.player_info),
        lifetime: lifetime_text(v.lifetime_stats),
        maps: maps_text(v.lifetime_stats),
        matches: matches_text(v.match_history),
        key: v.ai_key,
    }
}

/// The state once an AI analysis has been asked for.
pub open spec fn ai_started(v: AppView) -> AppView {
    with_toast(
        AppView { ai_loading: true, ai_partial: Seq::empty(), ..v },
        info_toast("AI Thinking..."@),
    )
}

/// Whether `c` is the letter `lower` in either case.
pub open spec fn is_letter(c: char, lower: char, upper: char) -> bool {
    c == lower || c == upper
}

/// A character key in normal mode.
pub open spec fn normal_char(v: AppView, c: char) -> (AppView, CommandView) {
    if is_letter(c, 'q', 'Q') {
        (v, CommandView::Quit)
    } else if is_letter(c, 'i', 'I') {
        (start_editing(v), CommandView::Nothing)
    } else if is_letter(c, 'r', 'R') {
        (v, if v.input.len() > 0 {
            CommandView::FetchStats
        } else {
            CommandView::Nothing
        })
    } else if c == '?' {
        (AppView { show_help: true, ..v }, CommandView::Nothing)
    } else if is_letter(c, 'c', 'C') {
        (v, match v.player_info {
            Some(p) => CommandView::CopyText(p.player_id@),
            None => if v.input.len() > 0 && encode_utf8(v.input).len() == 36 {
                CommandView::CopyText(v.input)
            } else {
                CommandView::Nothing
            },
        })
    } else if is_letter(c, 't', 'T') {
        let top: usize = if v.theme_index >= 7 {
            (v.theme_index - 7) as usize
        } else {
            0
        };
        (
            AppView {
                show_theme_selector: true,
                theme_selector_row: v.theme_index,
                theme_sv: scrolled_to(fresh_scroll(), top as u16),
                ..v
            },
            CommandView::Nothing,
        )
    } else if is_letter(c, 'a', 'A') {
        if v.loading == LoadingView::Success && !v.ai_loading {
            match v.ai_key {
                Some(_) => (ai_started(v), CommandView::Analyze(ai_request_of(v))),
                None => (
                    AppView { show_ai_key_popup: true, ai_key_input: Seq::empty(), ..v },
                    CommandView::Nothing,
                ),
            }
        } else {
            (v, CommandView::Nothing)
        }
    } else if is_letter(c, 'e', 'E') {
        (v, CommandView::Export)
    } else if is_letter(c, 'n', 'N') {
        (v, if v.selected_tab == 1 && v.has_more_pages {
            CommandView::FetchPage((v.current_page + 1) as usize)
        } else {
            CommandView::Nothing
        })
    } else if is_letter(c, 'p', 'P') {
        (v, if v.selected_tab == 1 && v.current_page > 0 {
            CommandView::FetchPage((v.current_page - 1) as usize)
        } else {
            CommandView::Nothing
        })
    } else {
        (v, CommandView::Nothing)
    }
}

/// Enter in normal mode: on the matches or maps tab of loaded data it opens the
/// details of the selected row, elsewhere it starts editing the search.
pub open spec fn normal_enter(v: AppView) -> AppView {
    if v.selected_tab == 1 && v.loading == LoadingView::Success {
        match v.match_history {
            Some(h) => if h@.len() > 0 && v.selected_row < h@.len() {
                AppView { show_match_popup: true, match_popup_sv: fresh_scroll(), ..v }
            } else {
                v
            },
            None => v,
        }
    } else if v.selected_tab == 2 && v.loading == LoadingView::Success {
        if tab_items(v) > 0 && v.selected_row < tab_items(v) {
            AppView { show_map_popup: true, map_popup_sv: fresh_scroll(), ..v }
        } else {
            v
        }
    } else {
        start_editing(v)
    }
}

/// A key in normal mode: the arrows and the page keys (10 rows) move the
/// cursor of the current tab and scroll it into view, Tab goes to the next tab
/// at its top.
pub open spec fn normal_key(v: AppView, key: Key) -> (AppView, CommandView) {
    let row = v.selected_row as nat;
    match key {
        Key::Esc => (home(v), CommandView::Nothing),
        Key::Char(c) => normal_char(v, c),
        Key::Enter => (normal_enter(v), CommandView::Nothing),
        Key::Tab => (to_tab(v, ((v.selected_tab + 1) % 3) as usize), CommandView::Nothing),
        Key::Up => (
            if row > 0 {
                at_shown_row(v, (row - 1) as nat)
            } else {
                v
            },
            CommandView::Nothing,
        ),
        Key::Down => (
            if row < last_row(v) {
                at_shown_row(v, row + 1)
            } else {
                v
            },
            CommandView::Nothing,
        ),
        Key::PageUp => (at_shown_row(v, sat_sub(row, 10)), CommandView::Nothing),
        Key::PageDown => (at_shown_row(v, min(row + 10, last_row(v))), CommandView::Nothing),
        _ => (v, CommandView::Nothing),
    }
}

/// The search history after searching for `x`: `x` is added at the end unless it
/// is already there, and the oldest entry goes when there are more than 10.
pub open spec fn remember(h: Seq<Seq<char>>, x: Seq<char>) -> Seq<Seq<char>> {
    if h.contains(x) {
        h
    } else if h.len() + 1 > HISTORY_LIMIT {
        h.push(x).drop_first()
    } else {
        h.push(x)
    }
}

/// The state showing history entry `i` in the search field.
pub open spec fn at_history(v: AppView, i: nat) -> AppView {
    AppView { history_index: Some(i as usize), input: v.search_history[i as int], ..v }
}

/// A key while editing the search text.
pub open spec fn editing_key(v: AppView, key: Key) -> (AppView, CommandView) {
    let h = v.search_history;
    match key {
        Key::Enter => if trim(v.input).len() > 0 {
            (
                AppView {
                    search_history: remember(h, v.input),
                    input_mode: InputMode::Normal,
                    ..v
                },
                CommandView::FetchStats,
            )
        } else {
            (AppView { input_mode: InputMode::Normal, ..v }, CommandView::Nothing)
        },
        Key::Esc => (AppView { input_mode: InputMode::Normal, ..v }, CommandView::Nothing),
        Key::Char(c) => (
            AppView { input: v.input.push(c), history_index: None, ..v },
            CommandView::Nothing,
        ),
        Key::Backspace => (
            AppView {
                input: if v.input.len() > 0 {
                    v.input.drop_last()
                } else {
                    v.input
                },
                history_index: None,
                ..v
            },
            CommandView::Nothing,
        ),
        Key::Delete => (
            AppView { input: Seq::empty(), history_index: None, ..v },
            CommandView::Nothing,
        ),
        Key::Up => (
            if h.len() > 0 {
                let idx: nat = match v.history_index {
                    Some(i) => sat_dec(i as nat),
                    None => (h.len() - 1) as nat,
                };
                if idx < h.len() {
                    at_history(v, idx)
                } else {
                    v
                }
            } else {
                v
            },
            CommandView::Nothing,
        ),
        Key::Down => (
            match v.history_index {
                Some(i) => if i + 1 < h.len() {
                    at_history(v, (i + 1) as nat)
                } else {
                    AppView { history_index: None, input: Seq::empty(), ..v }
                },
                None => v,
            },
            CommandView::Nothing,
        ),
        _ => (v, CommandView::Nothing),
    }
}

/// A key while the AI service key is asked for: the key is typed in, Enter
/// takes it (when it is more than white space) and starts the analysis with
/// it, Esc gives up.
pub open spec fn ai_key_entry(v: AppView, key: Key) -> (AppView, CommandView) {
    match key {
        Key::Esc => (
            AppView { show_ai_key_popup: false, ai_key_input: Seq::empty(), ..v },
            CommandView::Nothing,
        ),
        Key::Enter => if trim(v.ai_key_input).len() > 0 {
            let v1 = AppView {
                ai_key: Some(trim(v.ai_key_input)),
                show_ai_key_popup: false,
                ai_key_input: Seq::empty(),
                ..v
            };
            (ai_started(v1), CommandView::Analyze(ai_request_of(v1)))
        } else {
            (v, CommandView::Nothing)
        },
        Key::Char(c) => (AppView { ai_key_input: v.ai_key_input.push(c), ..v }, CommandView::Nothing),
        Key::Backspace => (
            AppView {
                ai_key_input: if v.ai_key_input.len() > 0 {
                    v.ai_key_input.drop_last()
                } else {
                    v.ai_key_input
                },
                ..v
            },
            CommandView::Nothing,
        ),
        _ => (v, CommandView::Nothing),
    }
}

/// Whether a key closes an open details popup.
pub open spec fn closes_popup(key: Key) -> bool {
    key == Key::Esc || key == Key::Enter
}

/// A scrolled text under a key: the arrows scroll one row, the page keys a
/// page, other keys leave it.
pub open spec fn key_scroll(s: Scroll, key: Key) -> Scroll {
    match key {
        Key::Up => stepped(s, true),
        Key::Down => stepped(s, false),
        Key::PageUp => paged_up(s),
        Key::PageDown => paged_down(s),
        _ => s,
    }
}

/// A key press: the prompt for the AI key, the theme list, a details popup,
/// the AI answer and the help screen take keys first, in that order (the
/// popups and the answer scroll under the arrows and page keys); otherwise the
/// key acts in the current input mode.
pub open spec fn key_step(v: AppView, key: Key) -> (AppView, CommandView) {
    if v.show_ai_key_popup {
        ai_key_entry(v, key)
    } else if v.show_theme_selector {
        theme_key(v, key)
    } else if v.show_match_popup {
        (
            if closes_popup(key) {
                AppView { show_match_popup: false, ..v }
            } else {
                AppView { match_popup_sv: key_scroll(v.match_popup_sv, key), ..v }
            },
            CommandView::Nothing,
        )
    } else if v.show_map_popup {
        (
            if closes_popup(key) {
                AppView { show_map_popup: false, ..v }
            } else {
                AppView { map_popup_sv: key_scroll(v.map_popup_sv, key), ..v }
            },
            CommandView::Nothing,
        )
    } else if v.ai_response is Some {
        (
            if closes_popup(key) || key == Key::Char('a') || key == Key::Char('A') {
                AppView { ai_response: None, ai_sv: fresh_scroll(), ..v }
            } else {
                AppView { ai_sv: key_scroll(v.ai_sv, key), ..v }
            },
            CommandView::Nothing,
        )
    } else if v.show_help {
        (AppView { show_help: false, ..v }, CommandView::Nothing)
    } else if v.input_mode == InputMode::Normal {
        normal_key(v, key)
    } else {
        editing_key(v, key)
    }
}

/// Whether handling a key would overflow a counter (where the program stops).
pub open spec fn key_overflows(v: AppView, key: Key) -> bool {
    if v.show_ai_key_popup {
        false
    } else if v.show_theme_selector {
        key == Key::PageDown && v.theme_selector_row + 15 > usize::MAX
    } else if v.show_match_popup || v.show_map_popup || v.ai_response is Some || v.show_help {
        false
    } else if v.input_mode == InputMode::Normal {
        ||| key == Key::Tab && v.selected_tab + 1 > usize::MAX
        ||| key == Key::PageDown && v.selected_row + 10 > usize::MAX
        ||| (key == Key::Char('n') || key == Key::Char('N')) && v.selected_tab == 1
            && v.has_more_pages && v.current_page + 1 > usize::MAX
    } else {
        key == Key::Down && (v.history_index matches Some(i) && i + 1 > usize::MAX)
    }
}

// ---------------------------------------------------------------------------
// Handling a key press
// ---------------------------------------------------------------------------

impl App {
    /// Adds a toast.
    pub fn add_toast(&mut self, toast: Toast)
        ensures
            final(self)@ == with_toast(old(self)@, toast@),
    {
        self.toasts.push(toast);
        assert(self@.toasts =~= old(self)@.toasts.push(toast@));
    }

    /// The number of rows of the current tab.
    pub fn tab_item_count(&self) -> (n: usize)
        ensures
            n == tab_items(self@),
    {
        if self.selected_tab == 0 {
            match &self.lifetime_stats {
                Some(s) => match &s.lifetime {
                    Some(m) => m.len(),
                    None => 0,
                },
                None => 0,
            }
        } else if self.selected_tab == 1 {
            match &self.match_history {
                Some(h) => h.len(),
                None => 0,
            }
        } else if self.selected_tab == 2 {
            match &self.lifetime_stats {
                Some(s) => match &s.segments {
                    Some(segs) => count_map_segments(segs),
                    None => 0,
                },
                None => 0,
            }
        } else {
            0
        }
    }

    /// Scrolls the current tab so that the selected row is its top row (the
    /// row taken as a `u16`, wrapping around).
    fn ensure_visible(&mut self)
        ensures
            final(self)@ == with_tab_scroll(
                old(self)@,
                scrolled_to(tab_scroll(old(self)@), old(self).selected_row as u16),
            ),
    {
        let row = self.selected_row as u16;
        if self.selected_tab == 0 {
            self.lifetime_sv.set_row(row);
        } else if self.selected_tab == 1 {
            self.matches_sv.set_row(row);
        } else if self.selected_tab == 2 {
            self.maps_sv.set_row(row);
        }
    }

    /// Whether the loading has succeeded.
    pub fn loaded(&self) -> (r: bool)
        ensures
            r == (self@.loading == LoadingView::Success),
    {
        match self.loading_state {
            LoadingState::Success => true,
            _ => false,
        }
    }

    /// A key while the theme list is open.
    fn theme_selector_key(&mut self, key: Key) -> (cmd: Command)
        requires
            !old(self)@.show_ai_key_popup,
            old(self)@.show_theme_selector,
            !key_overflows(old(self)@, key),
        ensures
            (final(self)@, cmd@) == theme_key(old(self)@, key),
    {
        let n = self.theme_names.len();
        let last = if n > 0 {
            n - 1
        } else {
            0
        };
        match key {
            Key::Esc => {
                self.show_theme_selector = false;
                Command::Nothing
            },
            Key::Enter => {
                if self.theme_selector_row < n {
                    let row = self.theme_selector_row;
                    self.theme_index = row;
                    let name = self.theme_names[row].clone();
                    let msg = join2("Theme: ", name.as_str());
                    self.add_toast(Toast::info(msg));
                    self.show_theme_selector = false;
                    Command::LoadTheme(name)
                } else {
                    self.show_theme_selector = false;
                    Command::Nothing
                }
            },
            Key::Up => {
                if self.theme_selector_row > 0 {
                    self.theme_selector_row = self.theme_selector_row - 1;
                }
                self.theme_sv.set_row(self.theme_selector_row as u16);
                Command::Nothing
            },
            Key::Down => {
                if self.theme_selector_row < last {
                    self.theme_selector_row = self.theme_selector_row + 1;
                }
                self.theme_sv.set_row(self.theme_selector_row as u16);
                Command::Nothing
            },
            Key::Home => {
                self.theme_selector_row = 0;
                self.theme_sv.to_top();
                Command::Nothing
            },
            Key::End => {
                self.theme_selector_row = last;
                self.theme_sv.to_bottom();
                Command::Nothing
            },
            Key::PageUp => {
                let rows = if 15 < last {
                    15
                } else {
                    last
                };
                self.theme_selector_row = if self.theme_selector_row >= rows {
                    self.theme_selector_row - rows
                } else {
                    0
                };
                self.theme_sv.set_row(self.theme_selector_row as u16);
                Command::Nothing
            },
            Key::PageDown => {
                let next = self.theme_selector_row + 15;
                self.theme_selector_row = if next < last {
                    next
                } else {
                    last
                };
                self.theme_sv.set_row(self.theme_selector_row as u16);
                Command::Nothing
            },
            _ => Command::Nothing,
        }
    }

    /// A key while the AI service key is asked for (see `ai_key_entry`).
    fn ai_key_prompt_key(&mut self, key: Key) -> (cmd: Command)
        requires
            old(self).show_ai_key_popup,
        ensures
            (final(self)@, cmd@) == ai_key_entry(old(self)@, key),
    {
        match key {
            Key::Esc => {
                self.show_ai_key_popup = false;
                self.ai_key_input = String::new();
                Command::Nothing
            },
            Key::Enter => {
                let entered = trim_text(self.ai_key_input.as_str());
                if entered.as_str().is_empty() {
                    Command::Nothing
                } else {
                    self.ai_key = Some(entered);
                    self.show_ai_key_popup = false;
                    self.ai_key_input = String::new();
                    let req = self.ai_load();
                    Command::Analyze(req)
                }
            },
            Key::Char(c) => {
                push_char(&mut self.ai_key_input, c);
                Command::Nothing
            },
            Key::Backspace => {
                let v = chars_of(self.ai_key_input.as_str());
                if v.len() > 0 {
                    self.ai_key_input = string_of(&v, 0, v.len() - 1);
                    assert(v@.subrange(0, v@.len() - 1) == v@.drop_last());
                }
                Command::Nothing
            },
            _ => Command::Nothing,
        }
    }

    /// Asks for an AI analysis of the loaded player.
    fn ai_load(&mut self) -> (req: AiRequest)
        ensures
            final(self)@ == ai_started(old(self)@),
            req@ == ai_request_of(old(self)@),
    {
        let name = match &self.player_info {
            Some(p) => p.nickname.clone(),
            None => owned("unknown"),
        };
        let lifetime = lifetime_summary(&self.lifetime_stats);
        let maps = maps_summary(&self.lifetime_stats);
        let matches = matches_summary(&self.match_history);
        self.ai_loading = true;
        self.ai_partial = String::new();
        self.add_toast(Toast::info(owned("AI Thinking...")));
        let key = self.ai_key.clone();
        AiRequest { name, lifetime, maps, matches, key }
    }

    /// Back to the start screen.
    fn go_home(&mut self)
        ensures
            final(self)@ == home(old(self)@),
    {
        self.loading_state = LoadingState::Idle;
        self.player_info = None;
        self.lifetime_stats = None;
        self.match_history = None;
        self.selected_tab = 0;
        self.selected_row = 0;
        self.current_page = 0;
        self.has_more_pages = false;
        self.ai_response = None;
        self.ai_loading = false;
        self.ai_partial = String::new();
        self.lifetime_sv = Scroll::new();
        self.matches_sv = Scroll::new();
        self.maps_sv = Scroll::new();
        self.ai_sv = Scroll::new();
        self.show_match_popup = false;
        self.show_map_popup = false;
        self.show_help = false;
    }

    /// A character key in normal mode.
    fn normal_char_key(&mut self, c: char) -> (cmd: Command)
        requires
            !((c == 'n' || c == 'N') && old(self)@.selected_tab == 1 && old(self)@.has_more_pages
                && old(self)@.current_page + 1 > usize::MAX),
        ensures
            (final(self)@, cmd@) == normal_char(old(self)@, c),
    {
        if c == 'q' || c == 'Q' {
            Command::Quit
        } else if c == 'i' || c == 'I' {
            self.input_mode = InputMode::Editing;
            self.history_index = None;
            Command::Nothing
        } else if c == 'r' || c == 'R' {
            if !self.input.as_str().is_empty() {
                Command::FetchStats
            } else {
                Command::Nothing
            }
        } else if c == '?' {
            self.show_help = true;
            Command::Nothing
        } else if c == 'c' || c == 'C' {
            match &self.player_info {
                Some(p) => Command::CopyText(p.player_id.clone()),
                None => {
                    let v = chars_of(self.input.as_str());
                    assert(v@.subrange(0, v@.len() as int) == v@);
                    if v.len() > 0 && utf8_len_exceeds(&v, 0, v.len(), 35) && !utf8_len_exceeds(
                        &v,
                        0,
                        v.len(),
                        36,
                    ) {
                        Command::CopyText(self.input.clone())
                    } else {
                        Command::Nothing
                    }
                },
            }
        } else if c == 't' || c == 'T' {
            self.show_theme_selector = true;
            self.theme_selector_row = self.theme_index;
            self.theme_sv = Scroll::new();
            let top = if self.theme_index >= 7 {
                self.theme_index - 7
            } else {
                0
            };
            self.theme_sv.set_row(top as u16);
            Command::Nothing
        } else if c == 'a' || c == 'A' {
            if self.loaded() && !self.ai_loading {
                if self.ai_key.is_some() {
                    let req = self.ai_load();
                    Command::Analyze(req)
                } else {
                    self.show_ai_key_popup = true;
                    self.ai_key_input = String::new();
                    Command::Nothing
                }
            } else {
                Command::Nothing
            }
        } else if c == 'e' || c == 'E' {
            Command::Export
        } else if c == 'n' || c == 'N' {
            if self.selected_tab == 1 && self.has_more_pages {
                Command::FetchPage(self.current_page + 1)
            } else {
                Command::Nothing
            }
        } else if c == 'p' || c == 'P' {
            if self.selected_tab == 1 && self.current_page > 0 {
                Command::FetchPage(self.current_page - 1)
            } else {
                Command::Nothing
            }
        } else {
            Command::Nothing
        }
    }

    /// Enter in normal mode.
    fn normal_enter_key(&mut self)
        ensures
            final(self)@ == normal_enter(old(self)@),
    {
        let loaded = self.loaded();
        if self.selected_tab == 1 && loaded {
            match &self.match_history {
                Some(h) => {
                    if h.len() > 0 && self.selected_row < h.len() {
                        self.show_match_popup = true;
                        self.match_popup_sv = Scroll::new();
                    }
                },
                None => {},
            }
        } else if self.selected_tab == 2 && loaded {
            let count = self.tab_item_count();
            if count > 0 && self.selected_row < count {
                self.show_map_popup = true;
                self.map_popup_sv = Scroll::new();
            }
        } else {
            self.input_mode = InputMode::Editing;
            self.history_index = None;
        }
    }

    /// A key in normal mode.
    fn normal_key_press(&mut self, key: Key) -> (cmd: Command)
        requires
            old(self)@.input_mode == InputMode::Normal,
            !old(self)@.show_ai_key_popup,
            !old(self)@.show_theme_selector,
            !old(self)@.show_match_popup,
            !old(self)@.show_map_popup,
            old(self)@.ai_response is None,
            !old(self)@.show_help,
            !key_overflows(old(self)@, key),
        ensures
            (final(self)@, cmd@) == normal_key(old(self)@, key),
    {
        match key {
            Key::Esc => {
                self.go_home();
                Command::Nothing
            },
            Key::Char(c) => self.normal_char_key(c),
            Key::Enter => {
                self.normal_enter_key();
                Command::Nothing
            },
            Key::Tab => {
                self.selected_tab = (self.selected_tab + 1) % 3;
                self.selected_row = 0;
                if self.selected_tab == 0 {
                    self.lifetime_sv.to_top();
                } else if self.selected_tab == 1 {
                    self.matches_sv.to_top();
                } else if self.selected_tab == 2 {
                    self.maps_sv.to_top();
                }
                Command::Nothing
            },
            Key::Up => {
                if self.selected_row > 0 {
                    self.selected_row = self.selected_row - 1;
                    self.ensure_visible();
                }
                Command::Nothing
            },
            Key::Down => {
                let count = self.tab_item_count();
                let last = if count > 0 {
                    count - 1
                } else {
                    0
                };
                if self.selected_row < last {
                    self.selected_row = self.selected_row + 1;
                    self.ensure_visible();
                }
                Command::Nothing
            },
            Key::PageUp => {
                if self.selected_row >= 10 {
                    self.selected_row = self.selected_row - 10;
                } else {
                    self.selected_row = 0;
                }
                self.ensure_visible();
                Command::Nothing
            },
            Key::PageDown => {
                let count = self.tab_item_count();
                let last = if count > 0 {
                    count - 1
                } else {
                    0
                };
                let next = self.selected_row + 10;
                self.selected_row = if next < last {
                    next
                } else {
                    last
                };
                self.ensure_visible();
                Command::Nothing
            },
            _ => Command::Nothing,
        }
    }

    /// Whether the search history holds `x`.
    fn history_contains(&self, x: &String) -> (r: bool)
        ensures
            r == self@.search_history.contains(x@),
    {
        let mut i: usize = 0;
        while i < self.search_history.len()
            invariant
                i <= self.search_history.len(),
                forall|k: int| 0 <= k < i ==> self.search_history@[k]@ != x@,
            decreases self.search_history.len() - i,
        {
            if self.search_history[i] == *x {
                assert(self@.search_history[i as int] == x@);
                return true;
            }
            i = i + 1;
        }
        assert forall|k: int| 0 <= k < self@.search_history.len() implies self@.search_history[k]
            != x@ by {
            assert(self@.search_history[k] == self.search_history@[k]@);
        }
        false
    }

    /// A key while editing the search text.
    fn editing_key_press(&mut self, key: Key) -> (cmd: Command)
        requires
            old(self)@.input_mode == InputMode::Editing,
            !old(self)@.show_ai_key_popup,
            !old(self)@.show_theme_selector,
            !old(self)@.show_match_popup,
            !old(self)@.show_map_popup,
            old(self)@.ai_response is None,
            !old(self)@.show_help,
            !key_overflows(old(self)@, key),
        ensures
            (final(self)@, cmd@) == editing_key(old(self)@, key),
    {
        match key {
            Key::Enter => {
                let trimmed = trim_text(self.input.as_str());
                if !trimmed.as_str().is_empty() {
                    let ghost h = old(self)@.search_history;
                    if !self.history_contains(&self.input) {
                        let entry = self.input.clone();
                        self.search_history.push(entry);
                        assert(self@.search_history =~= h.push(old(self)@.input));
                        if self.search_history.len() > HISTORY_LIMIT {
                            self.search_history.remove(0);
                            assert(self@.search_history =~= h.push(old(self)@.input).drop_first());
                        }
                    }
                    self.input_mode = InputMode::Normal;
                    Command::FetchStats
                } else {
                    self.input_mode = InputMode::Normal;
                    Command::Nothing
                }
            },
            Key::Esc => {
                self.input_mode = InputMode::Normal;
                Command::Nothing
            },
            Key::Char(c) => {
                push_char(&mut self.input, c);
                self.history_index = None;
                Command::Nothing
            },
            Key::Backspace => {
                let v = chars_of(self.input.as_str());
                if v.len() > 0 {
                    self.input = string_of(&v, 0, v.len() - 1);
                    assert(v@.subrange(0, v@.len() - 1) == v@.drop_last());
                }
                self.history_index = None;
                Command::Nothing
            },
            Key::Delete => {
                self.input = String::new();
                self.history_index = None;
                Command::Nothing
            },
            Key::Up => {
                let len = self.search_history.len();
                if len > 0 {
                    let idx = match self.history_index {
                        Some(i) => if i > 0 {
                            i - 1
                        } else {
                            0
                        },
                        None => len - 1,
                    };
                    if idx < len {
                        self.history_index = Some(idx);
                        self.input = self.search_history[idx].clone();
                    }
                }
                Command::Nothing
            },
            Key::Down => {
                match self.history_index {
                    Some(idx) => {
                        if idx + 1 < self.search_history.len() {
                            self.history_index = Some(idx + 1);
                            self.input = self.search_history[idx + 1].clone();
                        } else {
                            self.history_index = None;
                            self.input = String::new();
                        }
                    },
                    None => {},
                }
                Command::Nothing
            },
            _ => Command::Nothing,
        }
    }

    /// Whether `handle_key_event` can take `key` with its counters in range (see
    /// `key_overflows`).
    pub fn key_fits(&self, key: Key) -> (r: bool)
        ensures
            r == !key_overflows(self@, key),
    {
        if self.show_ai_key_popup {
            true
        } else if self.show_theme_selector {
            !(key == Key::PageDown && self.theme_selector_row > usize::MAX - 15)
        } else if self.show_match_popup || self.show_map_popup || self.ai_response.is_some()
            || self.show_help {
            true
        } else if self.input_mode == InputMode::Normal {
            !((key == Key::Tab && self.selected_tab == usize::MAX) || (key == Key::PageDown
                && self.selected_row > usize::MAX - 10) || ((key == Key::Char('n') || key
                == Key::Char('N')) && self.selected_tab == 1 && self.has_more_pages
                && self.current_page == usize::MAX))
        } else {
            !(key == Key::Down && match self.history_index {
                Some(i) => i == usize::MAX,
                None => false,
            })
        }
    }

    /// Handles a key press and says what work outside it asks for.
    pub fn handle_key_event(&mut self, key: Key) -> (cmd: Command)
        requires
            !key_overflows(old(self)@, key),
        ensures
            (final(self)@, cmd@) == key_step(old(self)@, key),
            wf(old(self)@) ==> wf(final(self)@),
    {
        proof {
            lemma_key_step_wf(old(self)@, key);
        }
        if self.show_ai_key_popup {
            return self.ai_key_prompt_key(key);
        }
        if self.show_theme_selector {
            return self.theme_selector_key(key);
        }
        if self.show_match_popup {
            match key {
                Key::Esc | Key::Enter => {
                    self.show_match_popup = false;
                },
                Key::Up => self.match_popup_sv.up(),
                Key::Down => self.match_popup_sv.down(),
                Key::PageUp => self.match_popup_sv.page_up(),
                Key::PageDown => self.match_popup_sv.page_down(),
                _ => {},
            }
            return Command::Nothing;
        }
        if self.show_map_popup {
            match key {
                Key::Esc | Key::Enter => {
                    self.show_map_popup = false;
                },
                Key::Up => self.map_popup_sv.up(),
                Key::Down => self.map_popup_sv.down(),
                Key::PageUp => self.map_popup_sv.page_up(),
                Key::PageDown => self.map_popup_sv.page_down(),
                _ => {},
            }
            return Command::Nothing;
        }
        if self.ai_response.is_some() {
            match key {
                Key::Esc | Key::Enter | Key::Char('a') | Key::Char('A') => {
                    self.ai_response = None;
                    self.ai_sv = Scroll::new();
                },
                Key::Up => self.ai_sv.up(),
                Key::Down => self.ai_sv.down(),
                Key::PageUp => self.ai_sv.page_up(),
                Key::PageDown => self.ai_sv.page_down(),
                _ => {},
            }
            return Command::Nothing;
        }
        if self.show_help {
            self.show_help = false;
            return Command::Nothing;
        }
        match self.input_mode {
            InputMode::Normal => self.normal_key_press(key),
            InputMode::Editing => self.editing_key_press(key),
        }
    }
}

// ---------------------------------------------------------------------------
// The invariant under key presses
// ---------------------------------------------------------------------------

/// Every key press keeps the invariant: at most 10 distinct, non-blank searches
/// in the history, the history cursor inside it, the selected tab one of three,
/// the selected row within the tab, the spinner frame and the theme cursors in
/// range.
#[verifier::rlimit(60)]
pub proof fn lemma_key_step_wf(v: AppView, key: Key)
    ensures
        wf(v) ==> wf(key_step(v, key).0),
{

}

// ---------------------------------------------------------------------------
// Mouse
// ---------------------------------------------------------------------------

/// Whether the cell `(x, y)` lies in `r`.
pub open spec fn inside(r: Rect, x: u16, y: u16) -> bool {
    y >= r.y && y < r.y + r.height && x >= r.x && x < r.x + r.width
}

/// Whether a rectangle lies within the 16-bit coordinate range.
pub open spec fn rect_fits(r: Rect) -> bool {
    r.x + r.width <= u16::MAX && r.y + r.height <= u16::MAX
}

/// Whether the click geometry stays within 16-bit coordinates: every known
/// rectangle fits, and the content rectangle leaves room below its top for the
/// toast and table rows and has a width that can be doubled.
pub open spec fn mouse_fits(v: AppView) -> bool {
    &&& (v.input_rect matches Some(r) ==> rect_fits(r))
    &&& (v.player_card_rect matches Some(r) ==> rect_fits(r))
    &&& (v.last_content_rect matches Some(r) ==> rect_fits(r) && r.y + 5 <= u16::MAX && 2
        * r.width <= u16::MAX)
}

/// Whether a mouse event is a left click that reaches the main screen: no list,
/// popup, answer or help screen takes it first. Only such a click is placed
/// against the remembered areas.
pub open spec fn click_on_main(v: AppView, m: MouseInput) -> bool {
    &&& m.kind == MouseKind::Down(MouseButton::Left)
    &&& !v.show_theme_selector
    &&& !v.show_match_popup
    &&& !v.show_map_popup
    &&& v.ai_response is None
    &&& !(v.ai_loading && v.ai_partial.len() > 0)
    &&& !v.show_help
}

/// Whether the cell `(x, y)` lies on the toasts in the top right corner of the
/// content area.
pub open spec fn on_toasts(v: AppView, r: Rect, x: u16, y: u16) -> bool {
    let tx = r.x + sat_sub(r.width as nat, 38);
    let ty = r.y + 1;
    let th = min(v.toasts.len(), 2) + 2;
    y >= ty && y < ty + th && x >= tx && x < r.x + r.width
}

/// The tab under column `x` of the tab bar in `r`: the three tabs share its
/// width in thirds.
pub open spec fn tab_at(r: Rect, x: u16) -> usize {
    if x < r.x + r.width / 3 {
        0
    } else if x < r.x + 2 * r.width / 3 {
        1
    } else {
        2
    }
}

/// A left click at `(x, y)`, `offset` being the top row of the current tab's
/// table: the search field starts editing, the player card stops it, the
/// toasts are dismissed, and on loaded data the tab bar switches tabs (the new
/// tab's table back at its top) and a table row gets selected.
pub open spec fn left_click(v: AppView, x: u16, y: u16, offset: u16) -> AppView {
    if v.input_rect matches Some(r) && inside(r, x, y) {
        if v.input_mode == InputMode::Normal {
            start_editing(v)
        } else {
            v
        }
    } else if v.player_card_rect matches Some(r) && inside(r, x, y) {
        if v.input_mode == InputMode::Editing {
            AppView { input_mode: InputMode::Normal, ..v }
        } else {
            v
        }
    } else if v.toasts.len() > 0 && v.last_content_rect is None {
        v
    } else if v.toasts.len() > 0 && on_toasts(v, v.last_content_rect->0, x, y) {
        AppView { toasts: Seq::empty(), ..v }
    } else if v.loading != LoadingView::Success {
        v
    } else {
        match v.last_content_rect {
            None => v,
            Some(r) => if y == r.y && r.width >= 30 {
                if tab_at(r, x) != v.selected_tab {
                    to_tab(v, tab_at(r, x))
                } else {
                    v
                }
            } else if y >= r.y + 3 {
                let row = (y - (r.y + 3)) + offset;
                if row <= last_row(v) {
                    at_row(v, row as nat)
                } else {
                    v
                }
            } else {
                v
            },
        }
    }
}

/// A scrolled text under a mouse event: the wheel scrolls it one row, other
/// events leave it.
pub open spec fn wheel_scroll(s: Scroll, kind: MouseKind) -> Scroll {
    match kind {
        MouseKind::ScrollUp => stepped(s, true),
        MouseKind::ScrollDown => stepped(s, false),
        _ => s,
    }
}

/// A mouse event, `offset` being the top row of the current tab's table. Open
/// popups take the event first: the wheel scrolls the theme list, a details
/// popup or the AI answer (also while it streams in), and a click closes the
/// details popups and the help screen. On the main screen the wheel scrolls
/// the current tab's table once data is loaded.
pub open spec fn mouse_step(v: AppView, m: MouseInput, offset: u16) -> AppView {
    let down = m.kind is Down;
    if v.show_theme_selector {
        AppView { theme_sv: wheel_scroll(v.theme_sv, m.kind), ..v }
    } else if v.show_match_popup {
        if down {
            AppView { show_match_popup: false, ..v }
        } else {
            AppView { match_popup_sv: wheel_scroll(v.match_popup_sv, m.kind), ..v }
        }
    } else if v.show_map_popup {
        if down {
            AppView { show_map_popup: false, ..v }
        } else {
            AppView { map_popup_sv: wheel_scroll(v.map_popup_sv, m.kind), ..v }
        }
    } else if v.ai_response is Some || (v.ai_loading && v.ai_partial.len() > 0) {
        AppView { ai_sv: wheel_scroll(v.ai_sv, m.kind), ..v }
    } else if v.show_help {
        if down {
            AppView { show_help: false, ..v }
        } else {
            v
        }
    } else if m.kind == MouseKind::ScrollUp || m.kind == MouseKind::ScrollDown {
        if v.loading == LoadingView::Success {
            with_tab_scroll(v, wheel_scroll(tab_scroll(v), m.kind))
        } else {
            v
        }
    } else if m.kind == MouseKind::Down(MouseButton::Left) {
        left_click(v, m.column, m.row, offset)
    } else {
        v
    }
}

impl App {
    /// The top row of the current tab's table (0 for a tab there is not).
    fn table_offset(&self) -> (r: u16)
        ensures
            r == tab_offset(self@),
    {
        if self.selected_tab == 0 {
            self.lifetime_sv.row()
        } else if self.selected_tab == 1 {
            self.matches_sv.row()
        } else if self.selected_tab == 2 {
            self.maps_sv.row()
        } else {
            0
        }
    }

    /// Scrolls the current tab's table one row up (`up`) or down.
    fn scroll_table(&mut self, up: bool)
        ensures
            final(self)@ == with_tab_scroll(old(self)@, stepped(tab_scroll(old(self)@), up)),
    {
        if self.selected_tab == 0 {
            if up {
                self.lifetime_sv.up()
            } else {
                self.lifetime_sv.down()
            }
        } else if self.selected_tab == 1 {
            if up {
                self.matches_sv.up()
            } else {
                self.matches_sv.down()
            }
        } else if self.selected_tab == 2 {
            if up {
                self.maps_sv.up()
            } else {
                self.maps_sv.down()
            }
        }
    }

    /// A left click in the main screen.
    #[verifier::rlimit(50)]
    fn left_click_at(&mut self, x: u16, y: u16, offset: u16)
        requires
            mouse_fits(old(self)@),
        ensures
            final(self)@ == left_click(old(self)@, x, y, offset),
    {
        match self.input_rect {
            Some(r) => {
                if y >= r.y && y < r.y + r.height && x >= r.x && x < r.x + r.width {
                    if self.input_mode == InputMode::Normal {
                        self.input_mode = InputMode::Editing;
                        self.history_index = None;
                    }
                    return;
                }
            },
            None => {},
        }
        match self.player_card_rect {
            Some(r) => {
                if y >= r.y && y < r.y + r.height && x >= r.x && x < r.x + r.width {
                    if self.input_mode == InputMode::Editing {
                        self.input_mode = InputMode::Normal;
                    }
                    return;
                }
            },
            None => {},
        }
        if self.toasts.len() > 0 {
            let r = match self.last_content_rect {
                Some(r) => r,
                None => {
                    return;
                },
            };
            let tx = r.x + if r.width >= 38 {
                r.width - 38
            } else {
                0
            };
            let ty = r.y + 1;
            let th: u16 = (if self.toasts.len() < 2 {
                self.toasts.len()
            } else {
                2
            }) as u16 + 2;
            if y >= ty && y < ty + th && x >= tx && x < r.x + r.width {
                self.toasts = Vec::new();
                assert(self@.toasts =~= Seq::<ToastView>::empty());
                return;
            }
        }
        if !self.loaded() {
            return;
        }
        let r = match self.last_content_rect {
            Some(r) => r,
            None => {
                return;
            },
        };
        if y == r.y && r.width >= 30 {
            let third = r.x + r.width / 3;
            let two_thirds = r.x + 2 * r.width / 3;
            let tab: usize = if x < third {
                0
            } else if x < two_thirds {
                1
            } else {
                2
            };
            if tab != self.selected_tab {
                self.selected_tab = tab;
                self.selected_row = 0;
                if tab == 0 {
                    self.lifetime_sv.to_top();
                } else if tab == 1 {
                    self.matches_sv.to_top();
                } else {
                    self.maps_sv.to_top();
                }
            }
            return;
        }
        let body_start = r.y + 3;
        if y >= body_start {
            let row = (y - body_start) as usize + offset as usize;
            let count = self.tab_item_count();
            let last = if count > 0 {
                count - 1
            } else {
                0
            };
            if row <= last {
                self.selected_row = row;
            }
        }
    }

    /// Handles a mouse event, `offset` being the top row of the current tab's
    /// table.
    pub fn mouse_event_at(&mut self, m: MouseInput, offset: u16)
        requires
            click_on_main(old(self)@, m) ==> mouse_fits(old(self)@),
        ensures
            final(self)@ == mouse_step(old(self)@, m, offset),
            wf(old(self)@) ==> wf(final(self)@),
    {
        proof {
            lemma_mouse_step_wf(old(self)@, m, offset);
        }
        let down = match m.kind {
            MouseKind::Down(_) => true,
            _ => false,
        };
        if self.show_theme_selector {
            match m.kind {
                MouseKind::ScrollUp => self.theme_sv.up(),
                MouseKind::ScrollDown => self.theme_sv.down(),
                _ => {},
            }
            return;
        }
        if self.show_match_popup {
            match m.kind {
                MouseKind::ScrollUp => self.match_popup_sv.up(),
                MouseKind::ScrollDown => self.match_popup_sv.down(),
                _ => {},
            }
            if down {
                self.show_match_popup = false;
            }
            return;
        }
        if self.show_map_popup {
            match m.kind {
                MouseKind::ScrollUp => self.map_popup_sv.up(),
                MouseKind::ScrollDown => self.map_popup_sv.down(),
                _ => {},
            }
            if down {
                self.show_map_popup = false;
            }
            return;
        }
        let streaming = self.ai_loading && !self.ai_partial.as_str().is_empty();
        if self.ai_response.is_some() || streaming {
            match m.kind {
                MouseKind::ScrollUp => self.ai_sv.up(),
                MouseKind::ScrollDown => self.ai_sv.down(),
                _ => {},
            }
            return;
        }
        if self.show_help {
            if down {
                self.show_help = false;
            }
            return;
        }
        match m.kind {
            MouseKind::ScrollUp => {
                if self.loaded() {
                    self.scroll_table(true);
                }
            },
            MouseKind::ScrollDown => {
                if self.loaded() {
                    self.scroll_table(false);
                }
            },
            MouseKind::Down(MouseButton::Left) => {
                self.left_click_at(m.column, m.row, offset);
            },
            _ => {},
        }
    }

    /// Whether `m` is a left click that reaches the main screen, the one event
    /// whose place is worked out against the remembered areas (see
    /// `click_on_main`).
    pub fn click_reaches_main(&self, m: MouseInput) -> (r: bool)
        ensures
            r == click_on_main(self@, m),
    {
        m.kind == MouseKind::Down(MouseButton::Left) && !self.show_theme_selector
            && !self.show_match_popup && !self.show_map_popup && self.ai_response.is_none()
            && !(self.ai_loading && !self.ai_partial.as_str().is_empty()) && !self.show_help
    }

    /// Whether the remembered areas lie within the terminal's coordinates, as
    /// a click on the main screen needs (see `mouse_fits`).
    pub fn mouse_in_range(&self) -> (r: bool)
        ensures
            r == mouse_fits(self@),
    {
        let input_ok = match self.input_rect {
            Some(r) => r.x as u32 + r.width as u32 <= 0xFFFF && r.y as u32 + r.height as u32
                <= 0xFFFF,
            None => true,
        };
        let card_ok = match self.player_card_rect {
            Some(r) => r.x as u32 + r.width as u32 <= 0xFFFF && r.y as u32 + r.height as u32
                <= 0xFFFF,
            None => true,
        };
        let content_ok = match self.last_content_rect {
            Some(r) => r.x as u32 + r.width as u32 <= 0xFFFF && r.y as u32 + r.height as u32
                <= 0xFFFF && r.y as u32 + 5 <= 0xFFFF && 2 * (r.width as u32) <= 0xFFFF,
            None => true,
        };
        input_ok && card_ok && content_ok
    }

    /// Handles a mouse event; the top row of the current tab's table is read
    /// from its scroll state.
    pub fn handle_mouse_event(&mut self, m: MouseInput)
        requires
            click_on_main(old(self)@, m) ==> mouse_fits(old(self)@),
        ensures
            final(self)@ == mouse_step(old(self)@, m, tab_offset(old(self)@)),
            wf(old(self)@) ==> wf(final(self)@),
    {
        let offset = self.table_offset();
        self.mouse_event_at(m, offset);
    }
}

/// Every mouse event keeps the invariant.
pub proof fn lemma_mouse_step_wf(v: AppView, m: MouseInput, offset: u16)
    ensures
        wf(v) ==> wf(mouse_step(v, m, offset)),
{
}

// ---------------------------------------------------------------------------
// Clock ticks and the AI stream
// ---------------------------------------------------------------------------

/// The toasts still showing, `elapsed[i]` being the seconds toast `i` has shown.
pub open spec fn fresh_toasts(ts: Seq<ToastView>, elapsed: Seq<u64>) -> Seq<ToastView>
    decreases ts.len(),
{
    if ts.len() == 0 {
        Seq::empty()
    } else {
        let rest = fresh_toasts(ts.drop_last(), elapsed);
        let i = ts.len() - 1;
        if elapsed[i] >= ts.last().duration_secs {
            rest
        } else {
            rest.push(ts.last())
        }
    }
}

/// A clock tick: the spinner moves on one frame and the toasts that have shown
/// for their full time go.
pub open spec fn tick_step(v: AppView, elapsed: Seq<u64>) -> AppView {
    AppView {
        spinner_frame: ((v.spinner_frame + 1) % (SPINNER_FRAMES as int)) as usize,
        toasts: fresh_toasts(v.toasts, elapsed),
        ..v
    }
}

/// The texts one after the other.
pub open spec fn concat(parts: Seq<Seq<char>>) -> Seq<char>
    decreases parts.len(),
{
    if parts.len() == 0 {
        Seq::empty()
    } else {
        concat(parts.drop_last()) + parts.last()
    }
}

/// Text arriving from the AI stream: it is added to the partial answer; when
/// the stream has closed, the answer is complete and shown from its top (or,
/// if empty, an error toast says so).
pub open spec fn ai_step(v: AppView, chunks: Seq<Seq<char>>, closed: bool) -> AppView {
    let partial = v.ai_partial + concat(chunks);
    if !closed {
        AppView { ai_partial: partial, ..v }
    } else if partial.len() == 0 {
        with_toast(
            AppView { ai_partial: partial, ai_loading: false, ..v },
            error_toast("AI returned empty response"@),
        )
    } else {
        AppView {
            ai_response: Some(partial),
            ai_partial: Seq::empty(),
            ai_loading: false,
            ai_sv: fresh_scroll(),
            ..v
        }
    }
}

/// The spinner's frame `i`.
pub open spec fn spinner_glyph(i: int) -> Seq<char> {
    if i == 0 {
        "\u{280b}"@
    } else if i == 1 {
        "\u{2819}"@
    } else if i == 2 {
        "\u{2839}"@
    } else if i == 3 {
        "\u{2838}"@
    } else if i == 4 {
        "\u{283c}"@
    } else if i == 5 {
        "\u{2834}"@
    } else if i == 6 {
        "\u{2826}"@
    } else if i == 7 {
        "\u{2827}"@
    } else if i == 8 {
        "\u{2807}"@
    } else {
        "\u{280f}"@
    }
}

impl App {
    /// The current spinner frame.
    pub fn spinner(&self) -> (s: &'static str)
        requires
            self.spinner_frame < SPINNER_FRAMES,
        ensures
            s@ == spinner_glyph(self.spinner_frame as int),
    {
        let i = self.spinner_frame;
        if i == 0 {
            "\u{280b}"
        } else if i == 1 {
            "\u{2819}"
        } else if i == 2 {
            "\u{2839}"
        } else if i == 3 {
            "\u{2838}"
        } else if i == 4 {
            "\u{283c}"
        } else if i == 5 {
            "\u{2834}"
        } else if i == 6 {
            "\u{2826}"
        } else if i == 7 {
            "\u{2827}"
        } else if i == 8 {
            "\u{2807}"
        } else {
            "\u{280f}"
        }
    }

    /// A clock tick, `elapsed[i]` being the seconds toast `i` has shown.
    pub fn tick_with(&mut self, elapsed: &Vec<u64>)
        requires
            elapsed@.len() == old(self).toasts@.len(),
            old(self).spinner_frame < usize::MAX,
        ensures
            final(self)@ == tick_step(old(self)@, elapsed@),
            wf(old(self)@) ==> wf(final(self)@),
    {
        self.spinner_frame = (self.spinner_frame + 1) % SPINNER_FRAMES;
        let ghost ts = old(self)@.toasts;
        let mut k: usize = 0;
        let mut i: usize = 0;
        assert(ts.take(0) =~= Seq::<ToastView>::empty());
        assert(ts.skip(0) == ts);
        while k < elapsed.len()
            invariant
                k <= elapsed.len(),
                elapsed@.len() == ts.len(),
                ts == old(self)@.toasts,
                i == fresh_toasts(ts.take(k as int), elapsed@).len(),
                i <= k,
                self@.toasts == fresh_toasts(ts.take(k as int), elapsed@) + ts.skip(k as int),
                self.spinner_frame == (old(self).spinner_frame + 1) % (SPINNER_FRAMES as int),
                self@ == (AppView { toasts: self@.toasts, ..tick_step(old(self)@, elapsed@) }),
            decreases elapsed.len() - k,
        {
            let ghost before = self@.toasts;
            assert(ts.skip(k as int).len() == ts.len() - k);
            assert(self.toasts@.len() == before.len());
            assert(ts.take(k + 1).drop_last() == ts.take(k as int));
            assert(ts.take(k + 1).last() == ts[k as int]);
            assert(before[i as int] == ts[k as int]);
            let ghost done = fresh_toasts(ts.take(k as int), elapsed@);
            if elapsed[k] >= self.toasts[i].duration_secs {
                self.toasts.remove(i);
                proof {
                    assert(fresh_toasts(ts.take(k + 1), elapsed@) == done);
                    assert(self@.toasts =~= before.remove(i as int));
                    assert(before.remove(i as int) =~= done + ts.skip(k + 1));
                }
            } else {
                proof {
                    assert(fresh_toasts(ts.take(k + 1), elapsed@) == done.push(ts[k as int]));
                    assert(self@.toasts =~= fresh_toasts(ts.take(k + 1), elapsed@) + ts.skip(k + 1));
                }
                i = i + 1;
            }
            k = k + 1;
        }
        assert(ts.take(k as int) == ts);
        assert(self@.toasts =~= fresh_toasts(ts, elapsed@));
        proof {
            lemma_tick_wf(old(self)@, elapsed@);
        }
    }

    /// A clock tick: the spinner moves on and expired toasts go. How long each
    /// toast has shown is read from the clock.
    pub fn tick(&mut self)
        requires
            old(self).spinner_frame < usize::MAX,
        ensures
            exists|elapsed: Seq<u64>|
                elapsed.len() == old(self)@.toasts.len() && final(self)@ == tick_step(
                    old(self)@,
                    elapsed,
                ),
            wf(old(self)@) ==> wf(final(self)@),
    {
        let mut elapsed: Vec<u64> = Vec::new();
        let mut i: usize = 0;
        while i < self.toasts.len()
            invariant
                i <= self.toasts.len(),
                elapsed@.len() == i,
            decreases self.toasts.len() - i,
        {
            elapsed.push(seconds_since(&self.toasts[i].created_at));
            i = i + 1;
        }
        self.tick_with(&elapsed);
    }

    /// Text that arrived from the AI stream, and whether the stream has closed.
    pub fn receive_ai(&mut self, chunks: &Vec<String>, closed: bool)
        ensures
            final(self)@ == ai_step(old(self)@, texts(chunks@), closed),
            wf(old(self)@) ==> wf(final(self)@),
    {
        let mut i: usize = 0;
        while i < chunks.len()
            invariant
                i <= chunks.len(),
                self@ == (AppView {
                    ai_partial: old(self)@.ai_partial + concat(texts(chunks@.take(i as int))),
                    ..old(self)@
                }),
            decreases chunks.len() - i,
        {
            self.ai_partial.append(chunks[i].as_str());
            assert(texts(chunks@.take(i + 1)).drop_last() =~= texts(chunks@.take(i as int)));
            assert(old(self)@.ai_partial + concat(texts(chunks@.take(i + 1))) =~= old(
                self,
            )@.ai_partial + concat(texts(chunks@.take(i as int))) + chunks@[i as int]@);
            i = i + 1;
        }
        assert(chunks@.take(i as int) == chunks@);
        if closed {
            if self.ai_partial.as_str().is_empty() {
                self.ai_loading = false;
                self.add_toast(Toast::error(owned("AI returned empty response")));
            } else {
                let mut answer = String::new();
                std::mem::swap(&mut answer, &mut self.ai_partial);
                self.ai_response = Some(answer);
                self.ai_loading = false;
                self.ai_sv = Scroll::new();
            }
        }
        proof {
            lemma_ai_wf(old(self)@, texts(chunks@), closed);
        }
    }
}

/// A clock tick keeps the invariant.
pub proof fn lemma_tick_wf(v: AppView, elapsed: Seq<u64>)
    ensures
        wf(v) ==> wf(tick_step(v, elapsed)),
{
}

/// Text from the AI stream keeps the invariant.
pub proof fn lemma_ai_wf(v: AppView, chunks: Seq<Seq<char>>, closed: bool)
    ensures
        wf(v) ==> wf(ai_step(v, chunks, closed)),
{
}

// ---------------------------------------------------------------------------
// Loading a player
// ---------------------------------------------------------------------------

/// How a search is looked up.
pub enum Lookup {
    /// The text is a player id: the statistics are fetched for it directly.
    ById(String),
    /// The text is a nickname: the player is searched for first.
    ByName(String),
}

/// A lookup with its text.
pub enum LookupView {
    ById(Seq<char>),
    ByName(Seq<char>),
}

impl View for Lookup {
    type V = LookupView;

    open spec fn view(&self) -> LookupView {
        match self {
            Lookup::ById(s) => LookupView::ById(s@),
            Lookup::ByName(s) => LookupView::ByName(s@),
        }
    }
}

/// Whether a search text is a player id: 36 bytes long and holding a `-`.
pub open spec fn is_player_id(q: Seq<char>) -> bool {
    encode_utf8(q).len() == 36 && contains(q, "-"@)
}

/// How the trimmed search text is looked up.
pub open spec fn lookup_of(input: Seq<char>) -> LookupView {
    let q = trim(input);
    if is_player_id(q) {
        LookupView::ById(q)
    } else {
        LookupView::ByName(q)
    }
}

/// The state when a player starts loading: earlier data and the table cursors
/// are cleared, the tables scrolled back.
pub open spec fn fetch_started(v: AppView) -> AppView {
    AppView {
        loading: LoadingView::Loading,
        selected_row: 0,
        lifetime_sv: fresh_scroll(),
        matches_sv: fresh_scroll(),
        maps_sv: fresh_scroll(),
        current_page: 0,
        has_more_pages: false,
        show_match_popup: false,
        player_info: None,
        lifetime_stats: None,
        match_history: None,
        ..v
    }
}

/// The state once the statistics and the first page of matches have arrived
/// (each only if its request succeeded): loaded if either did, else an error.
pub open spec fn fetch_finished(
    v: AppView,
    lifetime: Option<PlayerLifetimeStats>,
    history: Option<Vec<MatchItem>>,
) -> AppView {
    let v1 = match lifetime {
        Some(l) => AppView { lifetime_stats: Some(l), ..v },
        None => v,
    };
    let v2 = match history {
        Some(h) => AppView {
            has_more_pages: h@.len() >= PAGE_SIZE,
            match_history: Some(h),
            ..v1
        },
        None => v1,
    };
    if v2.lifetime_stats is Some || v2.match_history is Some {
        with_toast(
            AppView { loading: LoadingView::Success, ..v2 },
            info_toast("Stats loaded successfully"@),
        )
    } else {
        AppView { loading: LoadingView::Error("No data found. Check the player name."@), ..v2 }
    }
}

/// The player whose matches a page is loaded for: the loaded player, or else
/// the trimmed search text.
pub open spec fn page_player(v: AppView) -> Seq<char> {
    match v.player_info {
        Some(p) => p.player_id@,
        None => trim(v.input),
    }
}

/// The state once a page of the match history has been loaded, or failed to.
pub open spec fn page_finished(v: AppView, page: usize, result: Result<Vec<MatchItem>, String>) -> AppView {
    match result {
        Ok(h) => AppView {
            has_more_pages: h@.len() >= PAGE_SIZE,
            match_history: Some(h),
            current_page: page,
            selected_row: 0,
            matches_sv: fresh_scroll(),
            loading: LoadingView::Success,
            ..v
        },
        Err(e) => AppView { loading: LoadingView::Error("Page load failed: "@ + e@), ..v },
    }
}

/// What the request for a page of matches asks for.
pub struct PageRequest {
    pub player_id: String,
    pub offset: usize,
    pub limit: usize,
}

impl App {
    /// Back to the first row and page of freshly scrolled tables, with the
    /// match details closed.
    fn scroll_reset(&mut self)
        ensures
            final(self)@ == (AppView {
                selected_row: 0,
                lifetime_sv: fresh_scroll(),
                matches_sv: fresh_scroll(),
                maps_sv: fresh_scroll(),
                current_page: 0,
                has_more_pages: false,
                show_match_popup: false,
                ..old(self)@
            }),
    {
        self.selected_row = 0;
        self.lifetime_sv = Scroll::new();
        self.matches_sv = Scroll::new();
        self.maps_sv = Scroll::new();
        self.current_page = 0;
        self.has_more_pages = false;
        self.show_match_popup = false;
    }

    /// Starts loading the player in the search field and says how to look them
    /// up.
    pub fn fetch_stats(&mut self) -> (lookup: Lookup)
        ensures
            final(self)@ == fetch_started(old(self)@),
            lookup@ == lookup_of(old(self)@.input),
            wf(old(self)@) ==> wf(final(self)@),
    {
        let query = trim_text(self.input.as_str());
        self.loading_state = LoadingState::Loading;
        self.scroll_reset();
        self.player_info = None;
        self.lifetime_stats = None;
        self.match_history = None;
        let v = chars_of(query.as_str());
        assert(v@.subrange(0, v@.len() as int) == v@);
        let long = utf8_len_exceeds(&v, 0, v.len(), 35) && !utf8_len_exceeds(&v, 0, v.len(), 36);
        if long && text_contains(query.as_str(), "-") {
            Lookup::ById(query)
        } else {
            Lookup::ByName(query)
        }
    }

    /// The player search failed with `message`.
    pub fn search_failed(&mut self, message: String)
        ensures
            final(self)@ == (AppView { loading: LoadingView::Error(message@), ..old(self)@ }),
            wf(old(self)@) ==> wf(final(self)@),
    {
        self.loading_state = LoadingState::Error(message);
    }

    /// The player search found `profile`; its player id is what the statistics
    /// are fetched for.
    pub fn search_found(&mut self, profile: PlayerProfile) -> (player_id: String)
        ensures
            final(self)@ == (AppView { player_info: Some(profile), ..old(self)@ }),
            player_id@ == profile.player_id@,
            wf(old(self)@) ==> wf(final(self)@),
    {
        let id = profile.player_id.clone();
        self.player_info = Some(profile);
        id
    }

    /// The lifetime statistics and the first page of matches have arrived, each
    /// only if its request succeeded.
    pub fn finish_fetch(
        &mut self,
        lifetime: Option<PlayerLifetimeStats>,
        history: Option<Vec<MatchItem>>,
    )
        ensures
            final(self)@ == fetch_finished(old(self)@, lifetime, history),
            wf(old(self)@) && old(self)@.selected_row == 0 && (lifetime matches Some(l)
                ==> lifetime_wf(l)) && (history matches Some(h) ==> history_wf(h@)) ==> wf(
                final(self)@,
            ),
    {
        match lifetime {
            Some(l) => {
                self.lifetime_stats = Some(l);
            },
            None => {},
        }
        match history {
            Some(h) => {
                self.has_more_pages = h.len() >= PAGE_SIZE;
                self.match_history = Some(h);
            },
            None => {},
        }
        if self.lifetime_stats.is_some() || self.match_history.is_some() {
            self.loading_state = LoadingState::Success;
            self.add_toast(Toast::info(owned("Stats loaded successfully")));
        } else {
            self.loading_state = LoadingState::Error(
                owned("No data found. Check the player name."),
            );
        }
    }

    /// Starts loading page `page` of the match history and says what to ask for.
    pub fn begin_page(&mut self, page: usize) -> (req: PageRequest)
        requires
            page * PAGE_SIZE <= usize::MAX,
        ensures
            final(self)@ == (AppView { loading: LoadingView::Loading, ..old(self)@ }),
            req.player_id@ == page_player(old(self)@),
            req.offset == page * PAGE_SIZE,
            req.limit == PAGE_SIZE,
            wf(old(self)@) ==> wf(final(self)@),
    {
        let player_id = match &self.player_info {
            Some(p) => p.player_id.clone(),
            None => trim_text(self.input.as_str()),
        };
        self.loading_state = LoadingState::Loading;
        PageRequest { player_id, offset: page * PAGE_SIZE, limit: PAGE_SIZE }
    }

    /// Page `page` of the match history has arrived, or failed with a message.
    pub fn finish_page(&mut self, page: usize, result: Result<Vec<MatchItem>, String>)
        ensures
            final(self)@ == page_finished(old(self)@, page, result),
            wf(old(self)@) && (result matches Ok(h) ==> history_wf(h@)) ==> wf(final(self)@),
    {
        match result {
            Ok(h) => {
                self.has_more_pages = h.len() >= PAGE_SIZE;
                self.match_history = Some(h);
                self.current_page = page;
                self.selected_row = 0;
                self.matches_sv = Scroll::new();
                self.loading_state = LoadingState::Success;
            },
            Err(e) => {
                self.loading_state = LoadingState::Error(join2("Page load failed: ", e.as_str()));
            },
        }
    }

    /// Copying `text` to the clipboard succeeded or failed with a message; a
    /// toast says which.
    pub fn copy_finished(&mut self, text: &str, outcome: Result<(), String>)
        ensures
            final(self)@ == with_toast(
                old(self)@,
                match outcome {
                    Ok(_) => info_toast("Copied: "@ + text@),
                    Err(e) => error_toast("Copy failed: "@ + e@),
                },
            ),
            wf(old(self)@) ==> wf(final(self)@),
    {
        match outcome {
            Ok(_) => self.add_toast(Toast::info(join2("Copied: ", text))),
            Err(e) => self.add_toast(Toast::error(join2("Copy failed: ", e.as_str()))),
        }
    }
}

// ---------------------------------------------------------------------------
// Exporting
// ---------------------------------------------------------------------------

/// Which data of the current tab goes into an export file.
#[derive(Debug, Clone, Copy, PartialEq, Eq, Structural)]
pub enum ExportKind {
    Lifetime,
    Matches,
    Maps,
}

/// The file an export writes and what goes into it.
pub struct ExportPlan {
    pub filename: String,
    pub kind: ExportKind,
}

/// The file name of an export: `faceit_<name>_<what>_<ts>.json`, the matches
/// carrying their page as `matches_p<page>`.
pub open spec fn export_name(name: Seq<char>, middle: Seq<char>, ts: u64) -> Seq<char> {
    "faceit_"@ + name + middle + decimal(ts as int) + ".json"@
}

/// The export of the current tab at time `ts` (seconds since 1970): the file
/// and the kind of data, or why there is nothing to export.
pub open spec fn export_of(v: AppView, ts: u64) -> Result<(Seq<char>, ExportKind), Seq<char>> {
    let name = player_name(v.player_info);
    if v.selected_tab == 0 {
        match v.lifetime_stats {
            Some(_) => Ok((export_name(name, "_lifetime_"@, ts), ExportKind::Lifetime)),
            None => Err("No lifetime data"@),
        }
    } else if v.selected_tab == 1 {
        match v.match_history {
            Some(_) => Ok(
                (
                    export_name(name, "_matches_p"@ + decimal(v.current_page as int) + "_"@, ts),
                    ExportKind::Matches,
                ),
            ),
            None => Err("No match data"@),
        }
    } else if v.selected_tab == 2 {
        match v.lifetime_stats {
            Some(s) => match s.segments {
                Some(_) => Ok((export_name(name, "_maps_"@, ts), ExportKind::Maps)),
                None => Err("No map data"@),
            },
            None => Err("No map data"@),
        }
    } else {
        Err("Invalid tab"@)
    }
}

impl App {
    /// What exporting the current tab at time `ts` (seconds since 1970) writes,
    /// or why there is nothing to export.
    pub fn begin_export(&self, ts: u64) -> (r: Result<ExportPlan, String>)
        ensures
            match (r, export_of(self@, ts)) {
                (Ok(p), Ok((f, k))) => p.filename@ == f && p.kind == k,
                (Err(e), Err(m)) => e@ == m,
                _ => false,
            },
    {
        let name = match &self.player_info {
            Some(p) => p.nickname.clone(),
            None => owned("unknown"),
        };
        let stamp = u64_text(ts);
        if self.selected_tab == 0 {
            match &self.lifetime_stats {
                Some(_) => {
                    let mut f = join3("faceit_", name.as_str(), "_lifetime_");
                    f.append(stamp.as_str());
                    f.append(".json");
                    Ok(ExportPlan { filename: f, kind: ExportKind::Lifetime })
                },
                None => Err(owned("No lifetime data")),
            }
        } else if self.selected_tab == 1 {
            match &self.match_history {
                Some(_) => {
                    let mut f = join3("faceit_", name.as_str(), "_matches_p");
                    let page = usize_text(self.current_page);
                    f.append(page.as_str());
                    f.append("_");
                    f.append(stamp.as_str());
                    f.append(".json");
                    Ok(ExportPlan { filename: f, kind: ExportKind::Matches })
                },
                None => Err(owned("No match data")),
            }
        } else if self.selected_tab == 2 {
            match &self.lifetime_stats {
                Some(s) => match &s.segments {
                    Some(_) => {
                        let mut f = join3("faceit_", name.as_str(), "_maps_");
                        f.append(stamp.as_str());
                        f.append(".json");
                        Ok(ExportPlan { filename: f, kind: ExportKind::Maps })
                    },
                    None => Err(owned("No map data")),
                },
                None => Err(owned("No map data")),
            }
        } else {
            Err(owned("Invalid tab"))
        }
    }

    /// The export was written to `path`, or failed with a message; a toast says
    /// which.
    pub fn finish_export(&mut self, outcome: Result<String, String>)
        ensures
            final(self)@ == with_toast(
                old(self)@,
                match outcome {
                    Ok(path) => info_toast("Exported "@ + path@),
                    Err(e) => error_toast("Export failed: "@ + e@),
                },
            ),
            wf(old(self)@) ==> wf(final(self)@),
    {
        match outcome {
            Ok(path) => self.add_toast(Toast::info(join2("Exported ", path.as_str()))),
            Err(e) => self.add_toast(Toast::error(join2("Export failed: ", e.as_str()))),
        }
    }
}

// ---------------------------------------------------------------------------
// Laws over several steps
// ---------------------------------------------------------------------------

/// Whether keys reach the main screen in normal mode (no prompt, list, popup,
/// answer or help screen is open).
pub open spec fn main_screen(v: AppView) -> bool {
    &&& !v.show_ai_key_popup
    &&& !v.show_theme_selector
    &&& !v.show_match_popup
    &&& !v.show_map_popup
    &&& v.ai_response is None
    &&& !v.show_help
    &&& v.input_mode == InputMode::Normal
}

/// Pressing Tab three times on the main screen comes back to the same tab, with
/// the first row selected.
pub proof fn lemma_tab_cycles(v: AppView)
    requires
        wf(v),
        main_screen(v),
    ensures
        ({
            let v1 = key_step(v, Key::Tab).0;
            let v2 = key_step(v1, Key::Tab).0;
            let v3 = key_step(v2, Key::Tab).0;
            v3.selected_tab == v.selected_tab && v3.selected_row == 0
        }),
{
}

/// Proof that a tab never has more rows than a `usize` counts.
proof fn lemma_tab_items_fit(v: AppView)
    ensures
        tab_items(v) <= usize::MAX,
{
    match v.lifetime_stats {
        Some(s) => {
            match s.lifetime {
                Some(m) => assert(m.len() == m@.len()),
                None => {},
            }
            match s.segments {
                Some(segs) => {
                    lemma_map_count_le(segs@);
                    assert(segs.len() == segs@.len());
                },
                None => {},
            }
        },
        None => {},
    }
    match v.match_history {
        Some(h) => assert(h.len() == h@.len()),
        None => {},
    }
}

/// On the main screen, with the cursor within the current tab: Up and Down move
/// it one row and the page keys ten rows, never past the first or the last row;
/// Tab goes to the next of the three tabs on its first row; the cursor stays
/// within the tab and no outside work is asked for.
pub proof fn lemma_navigation_in_range(v: AppView, key: Key)
    requires
        main_screen(v),
        v.selected_tab < 3,
        v.selected_row <= last_row(v),
        key == Key::Up || key == Key::Down || key == Key::PageUp || key == Key::PageDown || key
            == Key::Tab,
    ensures
        ({
            let (w, cmd) = key_step(v, key);
            let r = v.selected_row as nat;
            &&& cmd == CommandView::Nothing
            &&& w.selected_row <= last_row(w)
            &&& key == Key::Up ==> w.selected_row == sat_dec(r)
            &&& key == Key::Down ==> w.selected_row == min(r + 1, last_row(v))
            &&& key == Key::PageUp ==> w.selected_row == sat_sub(r, 10)
            &&& key == Key::PageDown ==> w.selected_row == min(r + 10, last_row(v))
            &&& key != Key::Tab ==> w.selected_tab == v.selected_tab
            &&& key == Key::Tab ==> w.selected_tab == (v.selected_tab + 1) % 3 && w.selected_row
                == 0
        }),
{
    let r = v.selected_row as nat;
    let w = key_step(v, key).0;
    lemma_tab_items_fit(v);
    if key == Key::Tab {
        let t = ((v.selected_tab + 1) % 3) as usize;
        let v1 = AppView { selected_tab: t, selected_row: 0, ..v };
        assert(w == with_tab_scroll(v1, at_top(tab_scroll(v1))));
        assert(tab_items(w) == tab_items(v1));
    } else {
        let row: nat = if key == Key::Up {
            sat_dec(r)
        } else if key == Key::Down {
            min(r + 1, last_row(v))
        } else if key == Key::PageUp {
            sat_sub(r, 10)
        } else {
            min(r + 10, last_row(v))
        };
        let v1 = at_row(v, row);
        let w1 = with_tab_scroll(v1, scrolled_to(tab_scroll(v1), v1.selected_row as u16));
        assert(tab_items(v1) == tab_items(v));
        assert(tab_items(w1) == tab_items(v1));
        if key == Key::Up {
            if r > 0 {
                assert(w == w1);
            } else {
                assert(w == v);
            }
        } else if key == Key::Down {
            if r < last_row(v) {
                assert(w == w1);
            } else {
                assert(w == v);
            }
        } else {
            assert(w == w1);
        }
    }
}

/// While editing, Down after Up returns to the history entry shown before (any
/// entry but the oldest).
pub proof fn lemma_history_up_down(v: AppView, i: usize)
    requires
        wf(v),
        !v.show_ai_key_popup,
        !v.show_theme_selector,
        !v.show_match_popup,
        !v.show_map_popup,
        v.ai_response is None,
        !v.show_help,
        v.input_mode == InputMode::Editing,
        v.history_index == Some(i),
        i > 0,
    ensures
        ({
            let back = key_step(key_step(v, Key::Up).0, Key::Down).0;
            back.history_index == Some(i) && back.input == v.search_history[i as int]
        }),
{
}

/// After page `p + 1` of the matches has loaded, `p` on the matches tab asks for
/// page `p` again.
pub proof fn lemma_next_then_previous_page(v: AppView, p: usize, h: Vec<MatchItem>)
    requires
        main_screen(v),
        v.selected_tab == 1,
        p < usize::MAX,
    ensures
        key_step(page_finished(v, (p + 1) as usize, Ok(h)), Key::Char('p')).1
            == CommandView::FetchPage(p),
{
}


// ---------------------------------------------------------------------------
// Laws of single operations
// ---------------------------------------------------------------------------

/// Refresh: on the main screen, `r` or `R` asks for the player in the search
/// field to be fetched again exactly when the field is not empty, and changes
/// nothing else.
pub proof fn lemma_refresh(v: AppView, c: char)
    requires
        main_screen(v),
        c == 'r' || c == 'R',
    ensures
        key_step(v, Key::Char(c)).0 == v,
        v.input.len() > 0 ==> key_step(v, Key::Char(c)).1 == CommandView::FetchStats,
        v.input.len() == 0 ==> key_step(v, Key::Char(c)).1 == CommandView::Nothing,
{
}

/// More pages of matches: once the first page of the history has arrived, more
/// pages are offered exactly when it is a full page of 30 matches, so that `n`
/// on the matches tab asks for the next page only after a full one. A page
/// loaded later is judged the same way, and a history that did not arrive
/// leaves the flag as it was.
pub proof fn lemma_more_pages_after_full_page(
    v: AppView,
    lifetime: Option<PlayerLifetimeStats>,
    history: Option<Vec<MatchItem>>,
    page: usize,
)
    ensures
        history matches Some(h) ==> (fetch_finished(v, lifetime, history).has_more_pages <==> h@.len()
            >= 30),
        history is None ==> fetch_finished(v, lifetime, history).has_more_pages == v.has_more_pages,
        history matches Some(h) ==> (page_finished(v, page, Ok(h)).has_more_pages <==> h@.len()
            >= 30),
        main_screen(v) && v.selected_tab == 1 && (history matches Some(h) && h@.len() < 30)
            ==> key_step(fetch_finished(v, lifetime, history), Key::Char('n')).1
            == CommandView::Nothing,
        main_screen(v) && v.selected_tab == 1 && (history matches Some(h) && h@.len() >= 30)
            && v.current_page < usize::MAX ==> key_step(
            fetch_finished(v, lifetime, history),
            Key::Char('n'),
        ).1 == CommandView::FetchPage((v.current_page + 1) as usize),
{
}

/// Simple commands on the main screen: `q` quits, `p` on the matches tab asks
/// for the previous page when there is one, `c` copies the loaded player's id,
/// `e` asks for an export, `?` opens the help screen; none of them changes
/// anything else.
pub proof fn lemma_main_screen_commands(v: AppView)
    requires
        main_screen(v),
    ensures
        key_step(v, Key::Char('q')) == (v, CommandView::Quit),
        key_step(v, Key::Char('Q')) == (v, CommandView::Quit),
        key_step(v, Key::Char('e')) == (v, CommandView::Export),
        v.selected_tab == 1 && v.current_page > 0 ==> key_step(v, Key::Char('p')) == (
            v,
            CommandView::FetchPage((v.current_page - 1) as usize),
        ),
        v.selected_tab != 1 || v.current_page == 0 ==> key_step(v, Key::Char('p')) == (
            v,
            CommandView::Nothing,
        ),
        v.selected_tab != 1 ==> key_step(v, Key::Char('n')) == (v, CommandView::Nothing),
        v.player_info matches Some(p) ==> key_step(v, Key::Char('c')) == (
            v,
            CommandView::CopyText(p.player_id@),
        ),
        key_step(v, Key::Char('?')).0 == (AppView { show_help: true, ..v }),
{
}

/// The wheel scrolls what is in front: an open details popup one row, and on
/// the main screen with data loaded the current tab's table one row; nothing
/// else changes.
pub proof fn lemma_wheel_scrolls_popups_and_tables(v: AppView, m: MouseInput, offset: u16)
    requires
        !v.show_theme_selector,
        m.kind == MouseKind::ScrollUp || m.kind == MouseKind::ScrollDown,
    ensures
        v.show_match_popup ==> mouse_step(v, m, offset) == (AppView {
            match_popup_sv: Scroll {
                y: if m.kind == MouseKind::ScrollDown {
                    if v.match_popup_sv.y < u16::MAX {
                        (v.match_popup_sv.y + 1) as u16
                    } else {
                        u16::MAX
                    }
                } else if v.match_popup_sv.y > 0 {
                    (v.match_popup_sv.y - 1) as u16
                } else {
                    0
                },
                ..v.match_popup_sv
            },
            ..v
        }),
        !v.show_match_popup && !v.show_map_popup && v.ai_response is None && !v.ai_loading
            && !v.show_help && v.loading == LoadingView::Success && v.selected_tab == 1
            ==> mouse_step(v, m, offset) == (AppView {
            matches_sv: Scroll {
                y: if m.kind == MouseKind::ScrollDown {
                    if v.matches_sv.y < u16::MAX {
                        (v.matches_sv.y + 1) as u16
                    } else {
                        u16::MAX
                    }
                } else if v.matches_sv.y > 0 {
                    (v.matches_sv.y - 1) as u16
                } else {
                    0
                },
                ..v.matches_sv
            },
            ..v
        }),
        !v.show_match_popup && !v.show_map_popup && v.ai_response is None && !v.ai_loading
            && !v.show_help && v.loading != LoadingView::Success ==> mouse_step(v, m, offset) == v,
{
}

/// The wheel scrolls the AI answer: while an answer is shown or streams in, and
/// no theme list or details popup is in front of it, a wheel event moves the
/// answer one row (down as far as a `u16` goes, up not above the first row)
/// and changes nothing else.
pub proof fn lemma_wheel_scrolls_answer(v: AppView, m: MouseInput, offset: u16)
    requires
        v.ai_response is Some || (v.ai_loading && v.ai_partial.len() > 0),
        !v.show_theme_selector,
        !v.show_match_popup,
        !v.show_map_popup,
        m.kind == MouseKind::ScrollUp || m.kind == MouseKind::ScrollDown,
    ensures
        mouse_step(v, m, offset) == (AppView {
            ai_sv: Scroll {
                y: if m.kind == MouseKind::ScrollDown {
                    if v.ai_sv.y < u16::MAX {
                        (v.ai_sv.y + 1) as u16
                    } else {
                        u16::MAX
                    }
                } else if v.ai_sv.y > 0 {
                    (v.ai_sv.y - 1) as u16
                } else {
                    0
                },
                ..v.ai_sv
            },
            ..v
        }),
{
}

/// Player ids: a search is looked up by id only when its trimmed text is 36
/// UTF-8 bytes long and holds a `-`, and always then; any other search, a
/// hyphenated nickname of another length included, is looked up by name.
/// Either way the lookup carries the trimmed text.
pub proof fn lemma_lookup_by_id(input: Seq<char>)
    ensures
        lookup_of(input) matches LookupView::ById(q) ==> q == trim(input) && encode_utf8(q).len()
            == 36 && contains(q, "-"@),
        lookup_of(input) matches LookupView::ByName(q) ==> q == trim(input),
        encode_utf8(trim(input)).len() != 36 ==> lookup_of(input) == LookupView::ByName(
            trim(input),
        ),
        !contains(trim(input), "-"@) ==> lookup_of(input) == LookupView::ByName(trim(input)),
        encode_utf8(trim(input)).len() == 36 && contains(trim(input), "-"@) ==> lookup_of(input)
            == LookupView::ById(trim(input)),
{
}

} // verus!
