//! What the viewer's state is and how every event changes it.

use crate::buffer::RingView;
use crate::filter::{FilterView, MatchMode};
use crate::keys::{KeyCode, KeyEvent};
use crate::reader::Msg;
use crate::spill::{SpillRead, SpillView};
use vstd::prelude::*;

verus! {

#[derive(Debug, Clone, Copy, PartialEq, Eq, Structural)]
pub enum InputState {
    /// Producer still running (no EOF yet).
    Live,
    /// Input closed: finite input fully read.
    Eof,
    /// Reading the input failed: the stream ended abnormally.
    Error,
}

#[derive(Debug, Clone, Copy, PartialEq, Eq, Structural)]
pub enum Focus {
    Normal,
    Search,
}

/// Whether a character is white space.
pub uninterp spec fn white_space(c: char) -> bool;

/// `char::is_whitespace`: whether the character has the Unicode `White_Space`
/// property, which depends on the character alone. In ASCII these are the
/// blank and the controls from tab to carriage return; which characters beyond
/// ASCII have the property is not stated.
pub assume_specification[ char::is_whitespace ](c: char) -> (yes: bool)
    ensures
        yes == white_space(c),
        c as u32 <= 127 ==> yes == (c == ' ' || 9 <= c as u32 <= 13),
;

/// For each character, whether it is white space.
pub open spec fn spaces_of(chars: Seq<char>) -> Seq<bool> {
    chars.map_values(|c: char| white_space(c))
}

/// Going left from `end` as long as the flag before equals `flag`.
pub open spec fn back_while(flags: Seq<bool>, end: int, flag: bool) -> int
    decreases end,
{
    if 0 < end <= flags.len() && flags[end - 1] == flag {
        back_while(flags, end - 1, flag)
    } else {
        end
    }
}

/// Where the word before `end` starts: left over white space, then left over
/// the word.
pub open spec fn word_start(spaces: Seq<bool>, end: int) -> int {
    back_while(spaces, back_while(spaces, end, true), false)
}

/// `x`, or the nearest bound.
pub open spec fn clamp(x: int, lo: int, hi: int) -> int {
    if x < lo {
        lo
    } else if x > hi {
        hi
    } else {
        x
    }
}

pub open spec fn min(a: int, b: int) -> int {
    if a <= b {
        a
    } else {
        b
    }
}

pub open spec fn max(a: int, b: int) -> int {
    if a >= b {
        a
    } else {
        b
    }
}

/// The numbers of the lines `lo .. hi` that pass a filter, in order.
pub open spec fn matching(
    filter: FilterView,
    history: Seq<Seq<char>>,
    lo: int,
    hi: int,
) -> Seq<u64>
    decreases hi - lo,
{
    if hi <= lo {
        Seq::empty()
    } else if filter.matches(history[hi - 1]) {
        matching(filter, history, lo, hi - 1).push((hi - 1) as u64)
    } else {
        matching(filter, history, lo, hi - 1)
    }
}

/// A filter view in the making: the history is streamed past the filter.
pub struct RescanView {
    /// Matches found so far.
    pub view: Seq<u64>,
    /// Number of the next line.
    pub next: int,
    /// The view row that was selected when the scan began.
    pub selected: int,
}

impl RescanView {
    /// The next line of the history has been looked at.
    pub open spec fn offered(self, filter: FilterView, text: Seq<char>) -> RescanView {
        RescanView {
            view: if filter.matches(text) {
                self.view.push(self.next as u64)
            } else {
                self.view
            },
            next: self.next + 1,
            ..self
        }
    }

    /// The first `n` of the given lines have been looked at.
    pub open spec fn offered_all(
        self,
        filter: FilterView,
        lines: Seq<Seq<char>>,
        n: nat,
    ) -> RescanView
        decreases n,
    {
        if n == 0 {
            self
        } else {
            self.offered_all(filter, lines, (n - 1) as nat).offered(filter, lines[n - 1])
        }
    }
}

/// The state of the viewer.
pub struct AppView {
    pub ring: RingView,
    /// Full-history archive on disk; without it only the ring is reachable.
    pub spill: Option<SpillView>,
    pub query: Seq<char>,
    /// Cursor position within `query`, in chars.
    pub cursor: int,
    pub mode: MatchMode,
    /// `None`: all lines; otherwise the numbers of the matches.
    pub view: Option<Seq<u64>>,
    /// Selected row of the view.
    pub selected: int,
    /// Topmost visible row of the view.
    pub scroll: int,
    /// Rows that fit on the screen.
    pub viewport: int,
    pub hscroll: int,
    pub follow: bool,
    pub input_state: InputState,
    pub read_error: Option<Seq<char>>,
    pub focus: Focus,
    pub should_quit: bool,
}

/// Something that the terminal reports.
#[derive(Debug, Clone, Copy, PartialEq, Eq, Structural)]
pub enum Input {
    /// A key was pressed, or is held down.
    Key(KeyEvent),
    /// A key was released.
    KeyRelease(KeyEvent),
    /// The mouse wheel was turned away from the user.
    ScrollUp,
    /// The mouse wheel was turned towards the user.
    ScrollDown,
    /// Anything else, such as a new terminal size (the next frame picks it up).
    Other,
}

/// Messages taken per tick at most: a producer that outruns the viewer (fast
/// stream and per-line filter matching) must not starve input handling and
/// rendering.
pub const MAX_DRAIN_PER_TICK: usize = 8192;

/// How long a tick waits for terminal input: about 30 frames per second.
pub const TICK_MILLIS: u64 = 33;

/// The outcome of an event: the new state, and a scan of the spill to carry
/// out if the event asks for one.
pub struct Step {
    pub app: AppView,
    pub rescan: Option<RescanView>,
}

/// An outcome without a scan.
pub open spec fn done(app: AppView) -> Step {
    Step { app, rescan: None }
}

impl AppView {
    /// The state at the start.
    pub open spec fn initial(cap: nat, follow: bool, mode: MatchMode, spill: bool) -> AppView {
        AppView {
            ring: RingView { history: Seq::empty(), cap: max(cap as int, 1) as nat },
            spill: if spill {
                Some(SpillView { lines: Seq::empty(), error: None, dirty: false })
            } else {
                None
            },
            query: Seq::empty(),
            cursor: 0,
            mode,
            view: None,
            selected: 0,
            scroll: 0,
            viewport: 20,
            hscroll: 0,
            follow,
            input_state: InputState::Live,
            read_error: None,
            focus: Focus::Normal,
            should_quit: false,
        }
    }

    /// Lines ever received.
    pub open spec fn total(self) -> int {
        self.ring.total() as int
    }

    /// The active filter: there is one exactly when there is a query.
    pub open spec fn filter(self) -> Option<FilterView> {
        if self.query.len() == 0 {
            None
        } else {
            Some(FilterView { query: self.query, requested: self.mode })
        }
    }

    /// Rows of the view.
    pub open spec fn view_len(self) -> int {
        match self.view {
            Some(v) => v.len() as int,
            None => self.total(),
        }
    }

    /// First reachable row. With the spill the whole history is live; without
    /// it, rows evicted from the ring are gone for good.
    pub open spec fn min_row(self) -> int {
        if self.view is Some || self.spill is Some {
            0
        } else {
            self.ring.dropped() as int
        }
    }

    /// The absolute line number in a row.
    pub open spec fn abs_at(self, row: int) -> Option<int> {
        if 0 <= row < self.view_len() {
            match self.view {
                Some(v) => Some(v[row] as int),
                None => Some(row),
            }
        } else {
            None
        }
    }

    /// How to read a line from the spill.
    pub open spec fn spill_read(self, abs: int) -> Option<SpillRead> {
        match self.spill {
            Some(sp) => sp.read_of(abs),
            None => None,
        }
    }

    /// Why the spill stopped growing, if it did.
    pub open spec fn spill_error(self) -> Option<Seq<char>> {
        match self.spill {
            Some(sp) => sp.error,
            None => None,
        }
    }

    /// What may be highlighted in a text: nothing without a filter, otherwise
    /// what the filter allows.
    pub open spec fn may_highlight(self, text: Seq<char>, hits: Option<Seq<usize>>) -> bool {
        match self.filter() {
            Some(f) => f.may_highlight(text, hits),
            None => hits is None,
        }
    }

    /// Whether the state is one that the viewer can be in.
    pub open spec fn inv(self) -> bool {
        &&& self.ring.cap > 0
        &&& self.total() <= usize::MAX
        &&& self.total() <= u64::MAX
        &&& 0 <= self.cursor <= self.query.len()
        &&& 0 <= self.selected
        &&& self.selected < self.view_len() || self.selected == 0
        &&& 0 <= self.scroll
        &&& 1 <= self.viewport <= usize::MAX
        &&& 0 <= self.hscroll <= u16::MAX
        &&& self.view is Some <==> self.query.len() > 0
        &&& self.view_inv()
        &&& self.spill_inv()
    }

    /// The view lists line numbers in increasing order. Without a spill it
    /// holds matches only, and every match that the ring still holds.
    pub open spec fn view_inv(self) -> bool {
        self.view matches Some(v) ==> {
            &&& forall|i: int, j: int| 0 <= i < j < v.len() ==> v[i] < v[j]
            &&& forall|i: int| 0 <= i < v.len() ==> v[i] < self.total()
            &&& self.spill is None ==> forall|i: int|
                0 <= i < v.len() ==> self.filter()->0.matches(
                    self.ring.history[#[trigger] v[i] as int],
                )
            &&& self.spill is None ==> forall|abs: int|
                self.ring.holds(abs) && self.filter()->0.matches(
                    #[trigger] self.ring.history[abs],
                ) ==> v.contains(abs as u64)
        }
    }

    /// The spill holds the lines received before its first failed write, which
    /// is all of them as long as no write has failed.
    pub open spec fn spill_inv(self) -> bool {
        self.spill matches Some(sp) ==> {
            &&& sp.lines.len() <= self.total()
            &&& sp.lines == self.ring.history.take(sp.lines.len() as int)
            &&& sp.error is None ==> sp.lines.len() == self.total()
        }
    }

    // ------------------------------------------------------------ navigation

    /// The selection jumps to the last row.
    pub open spec fn snapped(self) -> AppView {
        AppView { selected: max(self.view_len() - 1, 0), ..self }
    }

    /// The selection moves by `delta` rows, within the reachable ones. It
    /// follows new lines exactly when it ends on the last row.
    pub open spec fn moved(self, delta: int) -> AppView {
        if self.view_len() == 0 {
            self
        } else {
            let row = clamp(self.selected + delta, self.min_row(), self.view_len() - 1);
            AppView { selected: row, follow: row == self.view_len() - 1, ..self }
        }
    }

    /// The selection steps through the matches, around the end.
    pub open spec fn stepped(self, dir: int) -> AppView {
        if self.view_len() == 0 || self.filter() is None {
            self
        } else {
            let row = (self.selected + dir) % self.view_len();
            AppView { selected: row, follow: row == self.view_len() - 1, ..self }
        }
    }

    /// The selection fits a view that has changed.
    pub open spec fn settled(self) -> AppView {
        AppView {
            selected: if self.view_len() == 0 {
                0
            } else if self.follow {
                self.view_len() - 1
            } else {
                min(self.selected, self.view_len() - 1)
            },
            ..self
        }
    }

    /// The selection lies in the reachable rows, and the window is moved no
    /// further than needed to show it and to stay within those rows.
    pub open spec fn made_visible(self) -> AppView {
        let lowest = min(self.min_row(), max(self.view_len() - 1, 0));
        let selected = max(self.selected, lowest);
        let first = max(lowest, selected + 1 - self.viewport);
        let last = min(selected, max(self.view_len() - self.viewport, lowest));
        AppView { selected, scroll: clamp(self.scroll, first, last), ..self }
    }

    // ----------------------------------------------------------------- input

    /// One more line; `written` is how storing it in the spill went.
    pub open spec fn pushed(self, line: Seq<char>, written: Result<(), String>) -> AppView {
        AppView {
            ring: self.ring.pushed(line),
            spill: match self.spill {
                Some(sp) => Some(sp.appended(line, written)),
                None => None,
            },
            view: match self.view {
                Some(v) => if self.filter()->0.matches(line) {
                    Some(v.push(self.total() as u64))
                } else {
                    Some(v)
                },
                None => None,
            },
            ..self
        }
    }

    /// Writing out what the spill file has buffered was tried.
    pub open spec fn spill_flushed(self, done: Result<(), String>) -> AppView {
        AppView {
            spill: match self.spill {
                Some(sp) => Some(sp.flushed(done)),
                None => None,
            },
            ..self
        }
    }

    /// There is a number for one more line, and for the bytes it takes.
    pub open spec fn can_push(self, line: Seq<char>) -> bool {
        &&& self.total() < usize::MAX
        &&& self.total() < u64::MAX
        &&& self.spill matches Some(sp) ==> sp.has_room(line)
    }

    /// A batch of new lines has arrived.
    pub open spec fn after_batch(self) -> AppView {
        if self.follow {
            self.snapped()
        } else {
            self
        }
    }

    /// A message from the input; `written` is how storing its line went.
    pub open spec fn received(self, msg: Msg, written: Result<(), String>) -> AppView {
        match msg {
            Msg::Line(line) => self.pushed(line@, written),
            Msg::Eof => AppView { input_state: InputState::Eof, ..self },
            Msg::Failed(why) => AppView {
                input_state: InputState::Error,
                read_error: Some(why@),
                ..self
            },
        }
    }

    /// The end of a tick in which `drained` messages were taken.
    pub open spec fn drained(self, drained: int) -> AppView {
        if drained > 0 {
            self.after_batch()
        } else {
            self
        }
    }

    // ------------------------------------------------------------- filtering

    /// The filter is gone and all lines are in view.
    pub open spec fn cleared(self) -> AppView {
        if self.query.len() == 0 {
            self
        } else {
            AppView { query: Seq::empty(), cursor: 0, view: None, ..self }.settled()
        }
    }

    /// The history is searched again with the present query and mode: the
    /// whole spill if there is one (a scan that is still to be carried out),
    /// otherwise what the ring holds.
    pub open spec fn rescanned(self) -> Step {
        if self.spill is Some {
            Step {
                app: AppView { view: Some(Seq::empty()), selected: 0, ..self },
                rescan: Some(
                    RescanView { view: Seq::empty(), next: 0, selected: self.selected },
                ),
            }
        } else {
            done(
                AppView {
                    view: Some(
                        matching(
                            self.filter()->0,
                            self.ring.history,
                            self.ring.dropped() as int,
                            self.total(),
                        ),
                    ),
                    ..self
                }.settled(),
            )
        }
    }

    /// The scan has been carried out, as far as it got.
    pub open spec fn scan_finished(self, rescan: RescanView) -> AppView {
        AppView { view: Some(rescan.view), selected: rescan.selected, ..self }.settled()
    }

    /// The query has been edited.
    pub open spec fn edited(self, query: Seq<char>, cursor: int) -> Step {
        if query.len() > 0 {
            AppView { query, cursor, ..self }.rescanned()
        } else {
            done(self.cleared())
        }
    }

    /// Regex goes to fuzzy, anything else to regex.
    pub open spec fn toggled(self) -> Step {
        let app = AppView {
            mode: if self.mode == MatchMode::Regex {
                MatchMode::Fuzzy
            } else {
                MatchMode::Regex
            },
            ..self
        };
        if self.query.len() > 0 {
            app.rescanned()
        } else {
            done(app)
        }
    }

    // ---------------------------------------------------------- key handling

    /// A key while browsing.
    pub open spec fn normal_key(self, key: KeyEvent) -> Step {
        let ctrl = key.modifiers.control;
        match key.code {
            KeyCode::Char(c) => if c == 'q' {
                done(AppView { should_quit: true, ..self })
            } else if c == '/' {
                done(AppView { focus: Focus::Search, cursor: self.query.len() as int, ..self })
            } else if c == 'j' {
                done(self.moved(1))
            } else if c == 'k' {
                done(self.moved(-1))
            } else if c == 'd' && ctrl {
                done(self.moved(self.viewport / 2))
            } else if c == 'u' && ctrl {
                done(self.moved(-(self.viewport / 2)))
            } else if c == 'g' {
                done(AppView { selected: self.min_row(), follow: false, ..self })
            } else if c == 'G' {
                done(AppView { follow: true, ..self.snapped() })
            } else if c == 'n' {
                done(self.stepped(1))
            } else if c == 'N' {
                done(self.stepped(-1))
            } else if c == 'r' {
                self.toggled()
            } else if c == 'h' {
                done(AppView { hscroll: max(self.hscroll - 4, 0), ..self })
            } else if c == 'l' {
                done(AppView { hscroll: min(self.hscroll + 8, 65535), ..self })
            } else {
                done(self)
            },
            KeyCode::Down => done(self.moved(1)),
            KeyCode::Up => done(self.moved(-1)),
            KeyCode::PageDown => done(self.moved(self.viewport)),
            KeyCode::PageUp => done(self.moved(-self.viewport)),
            KeyCode::Home => done(AppView { selected: self.min_row(), follow: false, ..self }),
            KeyCode::End => done(AppView { follow: true, ..self.snapped() }),
            KeyCode::Left => done(AppView { hscroll: max(self.hscroll - 4, 0), ..self }),
            KeyCode::Right => done(AppView { hscroll: min(self.hscroll + 8, 65535), ..self }),
            KeyCode::Esc => done(self.cleared()),
            _ => done(self),
        }
    }

    /// A key while editing the query.
    pub open spec fn search_key(self, key: KeyEvent) -> Step {
        let command = key.modifiers.is_command();
        match key.code {
            KeyCode::Enter => done(AppView { focus: Focus::Normal, ..self }),
            KeyCode::Esc => done(AppView { focus: Focus::Normal, ..self.cleared() }),
            KeyCode::Char(c) => if command && c == 'r' {
                self.toggled()
            } else if command && c == 'a' {
                done(AppView { cursor: 0, ..self })
            } else if command && c == 'e' {
                done(AppView { cursor: self.query.len() as int, ..self })
            } else if command && c == 'u' {
                // Delete from the start of the query to the cursor.
                self.edited(self.query.skip(self.cursor), 0)
            } else if command && c == 'w' {
                // Delete the word before the cursor.
                let start = word_start(spaces_of(self.query), self.cursor);
                self.edited(self.query.take(start) + self.query.skip(self.cursor), start)
            } else if key.modifiers.is_text() {
                self.edited(self.query.insert(self.cursor, c), self.cursor + 1)
            } else {
                done(self)
            },
            KeyCode::Backspace => if self.cursor > 0 {
                self.edited(self.query.remove(self.cursor - 1), self.cursor - 1)
            } else {
                done(self)
            },
            KeyCode::Left => done(AppView { cursor: max(self.cursor - 1, 0), ..self }),
            KeyCode::Right => done(
                AppView { cursor: min(self.cursor + 1, self.query.len() as int), ..self },
            ),
            KeyCode::Home => done(AppView { cursor: 0, ..self }),
            KeyCode::End => done(AppView { cursor: self.query.len() as int, ..self }),
            _ => done(self),
        }
    }

    /// A key: Ctrl+C quits anywhere, everything else depends on the focus.
    pub open spec fn key(self, key: KeyEvent) -> Step {
        if key.modifiers.control && key.code == KeyCode::Char('c') {
            done(AppView { should_quit: true, ..self })
        } else if self.focus == Focus::Normal {
            self.normal_key(key)
        } else {
            self.search_key(key)
        }
    }

    /// Terminal input: keys count when pressed, the wheel scrolls three lines.
    pub open spec fn input(self, input: Input) -> Step {
        match input {
            Input::Key(key) => self.key(key),
            Input::ScrollUp => done(self.moved(-3)),
            Input::ScrollDown => done(self.moved(3)),
            _ => done(self),
        }
    }
}

pub(crate) proof fn lemma_push_keeps_inv(app: AppView, line: Seq<char>, written: Result<(), String>)
    requires
        app.inv(),
        app.can_push(line),
    ensures
        app.pushed(line, written).inv(),
{
    let next = app.pushed(line, written);
    if let Some(v) = app.view {
        let w = next.view->0;
        let f = app.filter()->0;
        assert(next.filter() == app.filter());
        assert forall|i: int| next.spill is None && 0 <= i < w.len() implies f.matches(
            next.ring.history[#[trigger] w[i] as int],
        ) by {
            if i < v.len() {
                assert(w[i] == v[i]);
                assert(f.matches(app.ring.history[v[i] as int]));
            }
        }
        assert forall|abs: int|
            next.spill is None && next.ring.holds(abs) && f.matches(
                #[trigger] next.ring.history[abs],
            ) implies w.contains(abs as u64) by {
            if abs < app.total() {
                assert(app.ring.history[abs] == next.ring.history[abs]);
                assert(app.ring.holds(abs));
                let k = choose|k: int| 0 <= k < v.len() && v[k] == abs as u64;
                assert(w[k] == v[k]);
            } else {
                assert(w[w.len() - 1] == abs as u64);
            }
        }
    }
    if let Some(sp) = app.spill {
        let sq = next.spill->0;
        assert(sq.lines =~= next.ring.history.take(sq.lines.len() as int));
    }
}

/// What the matches of a stretch of history are: in order, inside the stretch,
/// all of them matches, and no match left out.
pub(crate) proof fn lemma_matching(filter: FilterView, history: Seq<Seq<char>>, lo: int, hi: int)
    requires
        0 <= lo,
        hi <= history.len(),
        hi <= u64::MAX,
    ensures
        ({
            let v = matching(filter, history, lo, hi);
            &&& forall|i: int, j: int| 0 <= i < j < v.len() ==> v[i] < v[j]
            &&& forall|i: int| 0 <= i < v.len() ==> lo <= #[trigger] v[i] && v[i] < hi
            &&& forall|i: int|
                0 <= i < v.len() ==> filter.matches(history[#[trigger] v[i] as int])
            &&& forall|abs: int|
                lo <= abs < hi && filter.matches(#[trigger] history[abs]) ==> v.contains(
                    abs as u64,
                )
        }),
    decreases hi - lo,
{
    if hi > lo {
        lemma_matching(filter, history, lo, hi - 1);
        let v = matching(filter, history, lo, hi);
        let u = matching(filter, history, lo, hi - 1);
        assert forall|abs: int|
            lo <= abs < hi && filter.matches(#[trigger] history[abs]) implies v.contains(
            abs as u64,
        ) by {
            if abs < hi - 1 {
                assert(u.contains(abs as u64));
                let k = choose|k: int| 0 <= k < u.len() && u[k] == abs as u64;
                assert(v[k] == u[k]);
            } else {
                assert(v[v.len() - 1] == abs as u64);
            }
        }
    }
}

/// One step around a circle of `n` rows.
pub(crate) proof fn lemma_wrap(row: int, n: int)
    requires
        0 <= row < n,
    ensures
        (row + 1) % n == (if row == n - 1 {
            0
        } else {
            row + 1
        }),
        (row - 1) % n == (if row == 0 {
            n - 1
        } else {
            row - 1
        }),
{
    vstd::arithmetic::div_mod::lemma_fundamental_div_mod_converse(
        row + 1,
        n,
        if row == n - 1 {
            1
        } else {
            0
        },
        if row == n - 1 {
            0
        } else {
            row + 1
        },
    );
    vstd::arithmetic::div_mod::lemma_fundamental_div_mod_converse(
        row - 1,
        n,
        if row == 0 {
            -1
        } else {
            0
        },
        if row == 0 {
            n - 1
        } else {
            row - 1
        },
    );
}

/// The place of a number in a circle of `n`, also of a negative one.
pub(crate) proof fn lemma_signed_wrap(to: int, n: int)
    requires
        n > 0,
    ensures
        0 <= to % n < n,
        to < 0 ==> to % n == n - 1 - (-1 - to) % n,
{
    let back = -1 - to;
    vstd::arithmetic::div_mod::lemma_fundamental_div_mod(back, n);
    vstd::arithmetic::div_mod::lemma_mod_bound(back, n);
    vstd::arithmetic::div_mod::lemma_mod_bound(to, n);
    let q = back / n;
    assert(to == (-q - 1) * n + (n - 1 - back % n)) by (nonlinear_arith)
        requires
            back == -1 - to,
            back == n * q + back % n,
    ;
    vstd::arithmetic::div_mod::lemma_fundamental_div_mod_converse(
        to,
        n,
        -q - 1,
        n - 1 - back % n,
    );
}

} // verus!
