//! Application state: buffer + filter view + scroll/selection + input mode.

use crate::buffer::RingBuffer;
use crate::filter::{hits_view, is_smart_matcher, smart_matcher, Filter, MatchMode};
use crate::keys::{is_text_input, KeyCode, KeyEvent};
use crate::reader::Msg;
use crate::spill::{message_view, Spill, SpillRead};
use crate::state::{
    back_while, clamp, done, matching, spaces_of, word_start, AppView, Input, RescanView,
    MAX_DRAIN_PER_TICK, TICK_MILLIS,
};
use crate::text::{from_chars, to_chars};
use fuzzy_matcher::skim::SkimMatcherV2;
use vstd::prelude::*;
use vstd::string::*;

pub use crate::state::{Focus, InputState};

verus! {

/// Where the text of a line is to be found.
pub enum LineAt<'a> {
    /// Still in the ring.
    Ring(&'a str),
    /// In the spill file: the last record of this read.
    Spill(SpillRead),
    /// Not available (any more).
    Gone,
}

/// A filter view that is being rebuilt from the spill: the stored lines are
/// handed to [`App::scan_line`] one by one, and [`App::finish_scan`] installs
/// the result.
pub struct Rescan {
    view: Vec<u64>,
    next: u64,
    selected: usize,
}

impl View for Rescan {
    type V = RescanView;

    closed spec fn view(&self) -> RescanView {
        RescanView { view: self.view@, next: self.next as int, selected: self.selected as int }
    }
}

impl Rescan {
    /// The matches found so far are in order and lie before the next line.
    pub open spec fn wf(&self) -> bool {
        &&& forall|i: int, j: int|
            0 <= i < j < self@.view.len() ==> self@.view[i] < self@.view[j]
        &&& forall|i: int| 0 <= i < self@.view.len() ==> self@.view[i] < self@.next
        &&& 0 <= self@.next <= u64::MAX
        &&& 0 <= self@.selected
    }

    /// Lines looked at so far.
    pub fn scanned(&self) -> (n: u64)
        ensures
            n == self@.next,
    {
        self.next
    }
}

/// A scan that may be asked for, as its view.
pub open spec fn rescan_view(rescan: Option<Rescan>) -> Option<RescanView> {
    match rescan {
        Some(r) => Some(r@),
        None => None,
    }
}

pub struct App {
    buf: RingBuffer,
    /// Full-history archive on disk; `None` means that only the ring's
    /// contents are reachable.
    spill: Option<Spill>,
    // filter state
    query: String,
    /// cursor position within `query`, in chars
    cursor: usize,
    requested_mode: MatchMode,
    filter: Option<Filter>,
    fuzzy: SkimMatcherV2,
    /// view: None = identity (all lines); Some = absolute numbers of matches
    view: Option<Vec<u64>>,
    /// index into the *view*
    selected: usize,
    /// topmost visible view row
    scroll: usize,
    /// rows visible in the list area (set by the renderer)
    viewport: usize,
    hscroll: u16,
    follow: bool,
    input_state: InputState,
    read_error: Option<String>,
    focus: Focus,
    pub should_quit: bool,
}

impl View for App {
    type V = AppView;

    closed spec fn view(&self) -> AppView {
        AppView {
            ring: self.buf@,
            spill: match self.spill {
                Some(sp) => Some(sp@),
                None => None,
            },
            query: self.query@,
            cursor: self.cursor as int,
            mode: self.requested_mode,
            view: match self.view {
                Some(v) => Some(v@),
                None => None,
            },
            selected: self.selected as int,
            scroll: self.scroll as int,
            viewport: self.viewport as int,
            hscroll: self.hscroll as int,
            follow: self.follow,
            input_state: self.input_state,
            read_error: message_view(self.read_error),
            focus: self.focus,
            should_quit: self.should_quit,
        }
    }
}

/// Where the word before `end` starts, given which characters are white space.
pub fn word_start_in(spaces: &Vec<bool>, end: usize) -> (start: usize)
    requires
        end <= spaces@.len(),
    ensures
        start == word_start(spaces@, end as int),
        start <= end,
{
    let mut start: usize = end;
    while start > 0 && spaces[start - 1]
        invariant
            start <= end <= spaces@.len(),
            back_while(spaces@, start as int, true) == back_while(spaces@, end as int, true),
        decreases start,
    {
        start -= 1;
    }
    let ghost mid = start as int;
    while start > 0 && !spaces[start - 1]
        invariant
            start <= mid <= end <= spaces@.len(),
            back_while(spaces@, start as int, false) == back_while(spaces@, mid, false),
        decreases start,
    {
        start -= 1;
    }
    start
}

fn whitespace_flags(chars: &Vec<char>) -> (spaces: Vec<bool>)
    ensures
        spaces@ == spaces_of(chars@),
{
    let mut spaces: Vec<bool> = Vec::new();
    let mut i: usize = 0;
    while i < chars.len()
        invariant
            i <= chars@.len(),
            spaces@ == spaces_of(chars@.take(i as int)),
        decreases chars@.len() - i,
    {
        spaces.push(chars[i].is_whitespace());
        i += 1;
        assert(spaces@ =~= spaces_of(chars@.take(i as int)));
    }
    assert(chars@.take(i as int) =~= chars@);
    spaces
}

/// The characters outside `start .. end`.
fn without_range(chars: &Vec<char>, start: usize, end: usize) -> (rest: Vec<char>)
    requires
        start <= end <= chars@.len(),
    ensures
        rest@ == chars@.take(start as int) + chars@.skip(end as int),
{
    let mut rest: Vec<char> = Vec::new();
    let mut i: usize = 0;
    while i < start
        invariant
            i <= start <= chars@.len(),
            rest@ == chars@.take(i as int),
        decreases start - i,
    {
        rest.push(chars[i]);
        i += 1;
    }
    let mut j: usize = end;
    while j < chars.len()
        invariant
            start <= end <= j <= chars@.len(),
            rest@ == chars@.take(start as int) + chars@.subrange(end as int, j as int),
        decreases chars@.len() - j,
    {
        rest.push(chars[j]);
        j += 1;
    }
    rest
}

impl App {
    /// The fields fit together, and the state is one the viewer can be in.
    pub closed spec fn wf(&self) -> bool {
        &&& self.buf.wf()
        &&& self.spill matches Some(sp) ==> sp.wf()
        &&& self.filter matches Some(f) ==> f.wf()
        &&& self.filter is Some <==> self@.filter() is Some
        &&& self.filter matches Some(f) ==> Some(f@) == self@.filter()
        &&& is_smart_matcher(self.fuzzy)
        &&& self@.inv()
    }

    /// What every well-formed viewer's state satisfies.
    pub proof fn lemma_inv(&self)
        requires
            self.wf(),
        ensures
            self@.inv(),
    {
    }

    /// A viewer that keeps at most `buffer_cap` lines (at least one) in memory.
    pub fn new(buffer_cap: usize, follow: bool, mode: MatchMode, spill: bool) -> (app: App)
        ensures
            app.wf(),
            app@ == AppView::initial(buffer_cap as nat, follow, mode, spill),
    {
        let cap: usize = if buffer_cap > 1 {
            buffer_cap
        } else {
            1
        };
        assert(Seq::<Seq<char>>::empty().take(0) =~= Seq::<Seq<char>>::empty());
        App {
            buf: RingBuffer::new(cap),
            spill: if spill {
                Some(Spill::new())
            } else {
                None
            },
            query: String::new(),
            cursor: 0,
            requested_mode: mode,
            filter: None,
            fuzzy: smart_matcher(),
            view: None,
            selected: 0,
            scroll: 0,
            viewport: 20,
            hscroll: 0,
            follow,
            input_state: InputState::Live,
            read_error: None,
            focus: Focus::Normal,
            should_quit: false,
        }
    }

    // ---------------------------------------------------------------- input

    /// Whether one more line can be taken before line numbers or byte offsets
    /// run out.
    pub fn can_push(&self, line: &str) -> (yes: bool)
        requires
            self.wf(),
        ensures
            yes == self@.can_push(line@),
    {
        let total = self.total_lines();
        if total >= usize::MAX as u64 {
            return false;
        }
        match &self.spill {
            Some(sp) => sp.has_room(line),
            None => true,
        }
    }

    /// The bytes to append to the spill file for a line, if any.
    pub fn spill_record(&self, line: &str) -> (bytes: Option<Vec<u8>>)
        ensures
            bytes is Some <==> (self@.spill is Some && self@.spill->0.error is None),
            bytes matches Some(b) ==> b@ == crate::spill::record(line@),
    {
        match &self.spill {
            Some(sp) => sp.record_for(line),
            None => None,
        }
    }

    /// Take one more line; `written` is how appending its record to the spill
    /// file went (it does not matter when there was nothing to append).
    pub fn push_line(&mut self, line: String, written: Result<(), String>)
        requires
            old(self).wf(),
            old(self)@.can_push(line@),
        ensures
            final(self).wf(),
            final(self)@ == old(self)@.pushed(line@, written),
    {
        let ghost before = self@;
        let ghost text = line@;
        if let Some(sp) = &mut self.spill {
            sp.append(line.as_str(), written);
        }
        let hit = match &self.filter {
            // Live-filter new arrivals: matching lines join the view.
            Some(filter) => filter.match_indices(&self.fuzzy, line.as_str()).is_some(),
            None => false,
        };
        let abs = self.buf.push(line);
        if hit {
            if let Some(view) = &mut self.view {
                view.push(abs);
            }
        }
        proof {
            crate::state::lemma_push_keeps_inv(before, text, written);
            assert(self@ == before.pushed(text, written));
        }
    }

    /// Called once per event-loop tick after a batch of new lines.
    pub fn after_batch(&mut self)
        requires
            old(self).wf(),
        ensures
            final(self).wf(),
            final(self)@ == old(self)@.after_batch(),
    {
        if self.follow {
            self.snap_to_bottom();
        }
    }

    pub fn set_eof(&mut self)
        requires
            old(self).wf(),
        ensures
            final(self).wf(),
            final(self)@ == (AppView { input_state: InputState::Eof, ..old(self)@ }),
    {
        self.input_state = InputState::Eof;
    }

    pub fn set_read_error(&mut self, msg: String)
        requires
            old(self).wf(),
        ensures
            final(self).wf(),
            final(self)@ == (AppView {
                input_state: InputState::Error,
                read_error: Some(msg@),
                ..old(self)@
            }),
    {
        self.input_state = InputState::Error;
        self.read_error = Some(msg);
    }

    /// Take a message from the input; `written` is how appending its line's
    /// record to the spill file went.
    pub fn on_msg(&mut self, msg: Msg, written: Result<(), String>)
        requires
            old(self).wf(),
            msg matches Msg::Line(line) ==> old(self)@.can_push(line@),
        ensures
            final(self).wf(),
            final(self)@ == old(self)@.received(msg, written),
    {
        match msg {
            Msg::Line(line) => self.push_line(line, written),
            Msg::Eof => self.set_eof(),
            Msg::Failed(why) => self.set_read_error(why),
        }
    }

    /// Whether a tick that has taken `drained` messages may take one more.
    pub fn may_drain(drained: usize) -> (yes: bool)
        ensures
            yes == (drained < MAX_DRAIN_PER_TICK),
    {
        drained < MAX_DRAIN_PER_TICK
    }

    /// A tick has taken `drained` messages. Returns for how many milliseconds
    /// terminal input may be waited for: hitting the cap means a backlog is
    /// waiting, so the tick must not block but clear it at full speed.
    pub fn end_drain(&mut self, drained: usize) -> (millis: u64)
        requires
            old(self).wf(),
        ensures
            final(self).wf(),
            final(self)@ == old(self)@.drained(drained as int),
            millis == (if drained == MAX_DRAIN_PER_TICK {
                0
            } else {
                TICK_MILLIS
            }),
    {
        if drained > 0 {
            self.after_batch();
        }
        if drained == MAX_DRAIN_PER_TICK {
            0
        } else {
            TICK_MILLIS
        }
    }

    /// Writing out what the spill file has buffered was tried with the given
    /// outcome.
    pub fn spill_flushed(&mut self, done: Result<(), String>)
        requires
            old(self).wf(),
        ensures
            final(self).wf(),
            final(self)@ == old(self)@.spill_flushed(done),
    {
        if let Some(sp) = &mut self.spill {
            sp.flushed(done);
        }
    }

    // ------------------------------------------------------------- accessors

    pub fn input_state(&self) -> (state: InputState)
        ensures
            state == self@.input_state,
    {
        self.input_state
    }

    pub fn read_error(&self) -> (why: Option<&str>)
        ensures
            why is Some <==> self@.read_error is Some,
            why matches Some(text) ==> Some(text@) == self@.read_error,
    {
        match &self.read_error {
            Some(text) => Some(text.as_str()),
            None => None,
        }
    }

    pub fn focus(&self) -> (focus: Focus)
        ensures
            focus == self@.focus,
    {
        self.focus
    }

    pub fn follow(&self) -> (follow: bool)
        ensures
            follow == self@.follow,
    {
        self.follow
    }

    pub fn buffer(&self) -> (buf: &RingBuffer)
        requires
            self.wf(),
        ensures
            buf.wf(),
            buf@ == self@.ring,
    {
        &self.buf
    }

    pub fn spill_enabled(&self) -> (yes: bool)
        ensures
            yes == (self@.spill is Some),
    {
        self.spill.is_some()
    }

    pub fn spill_error(&self) -> (why: Option<&str>)
        ensures
            why is Some <==> self@.spill_error() is Some,
            why matches Some(text) ==> Some(text@) == self@.spill_error(),
    {
        match &self.spill {
            Some(sp) => sp.error(),
            None => None,
        }
    }

    /// How to stream every line in the spill, for a scan that a key asked for.
    pub fn spill_scan(&self) -> (read: Option<SpillRead>)
        requires
            self.wf(),
        ensures
            read == (match self@.spill {
                Some(sp) => sp.scan_read(),
                None => None,
            }),
    {
        match &self.spill {
            Some(sp) => sp.scan(),
            None => None,
        }
    }

    /// Line content by absolute number: from the ring if still hot, else from
    /// the spill file. Gone only when unavailable (no spill, or spill error).
    pub fn line(&self, abs: u64) -> (found: LineAt<'_>)
        requires
            self.wf(),
        ensures
            match found {
                LineAt::Ring(text) => self@.ring.holds(abs as int) && text@
                    == self@.ring.history[abs as int],
                LineAt::Spill(read) => !self@.ring.holds(abs as int) && self@.spill_read(
                    abs as int,
                ) == Some(read),
                LineAt::Gone => !self@.ring.holds(abs as int) && self@.spill_read(abs as int)
                    is None,
            },
    {
        if let Some(text) = self.buf.get_abs(abs) {
            return LineAt::Ring(text);
        }
        match &self.spill {
            Some(sp) => match sp.read_line(abs) {
                Some(read) => LineAt::Spill(read),
                None => LineAt::Gone,
            },
            None => LineAt::Gone,
        }
    }

    pub fn query(&self) -> (query: &str)
        ensures
            query@ == self@.query,
    {
        self.query.as_str()
    }

    pub fn cursor(&self) -> (cursor: usize)
        ensures
            cursor == self@.cursor,
    {
        self.cursor
    }

    pub fn filter(&self) -> (filter: Option<&Filter>)
        requires
            self.wf(),
        ensures
            filter is Some <==> self@.filter() is Some,
            filter matches Some(f) ==> f.wf() && Some(f@) == self@.filter(),
    {
        match &self.filter {
            Some(f) => Some(f),
            None => None,
        }
    }

    pub fn requested_mode(&self) -> (mode: MatchMode)
        ensures
            mode == self@.mode,
    {
        self.requested_mode
    }

    pub fn hscroll(&self) -> (hscroll: u16)
        ensures
            hscroll == self@.hscroll,
    {
        self.hscroll
    }

    pub fn selected(&self) -> (row: usize)
        ensures
            row == self@.selected,
    {
        self.selected
    }

    pub fn scroll(&self) -> (row: usize)
        ensures
            row == self@.scroll,
    {
        self.scroll
    }

    /// Absolute line number for a view row. Without a filter, view rows *are*
    /// absolute numbers: the view spans the entire history, not just the ring.
    pub fn abs_at(&self, row: usize) -> (abs: Option<u64>)
        requires
            self.wf(),
        ensures
            abs is Some <==> self@.abs_at(row as int) is Some,
            abs matches Some(n) ==> self@.abs_at(row as int) == Some(n as int),
    {
        match &self.view {
            Some(v) => if row < v.len() {
                Some(v[row])
            } else {
                None
            },
            None => if (row as u64) < self.total_lines() {
                Some(row as u64)
            } else {
                None
            },
        }
    }

    /// Highlight indices for one visible line. Takes the text the renderer
    /// already fetched so spilled lines aren't read twice.
    pub fn highlight_for_text(&self, text: &str) -> (hits: Option<Vec<usize>>)
        requires
            self.wf(),
        ensures
            self@.may_highlight(text@, hits_view(hits)),
    {
        match &self.filter {
            Some(filter) => filter.match_indices(&self.fuzzy, text),
            None => None,
        }
    }

    /// Lines ever received (the ring counts them all, even after eviction).
    pub fn total_lines(&self) -> (n: u64)
        requires
            self.wf(),
        ensures
            n == self@.total(),
    {
        self.buf.dropped() + self.buf.len() as u64
    }

    pub fn view_len(&self) -> (n: usize)
        requires
            self.wf(),
        ensures
            n == self@.view_len(),
    {
        match &self.view {
            Some(v) => v.len(),
            None => self.total_lines() as usize,
        }
    }

    /// First reachable view row. With the spill the whole history is live
    /// (0); without it, rows evicted from the ring are gone for good.
    fn min_row(&self) -> (row: usize)
        requires
            self.wf(),
        ensures
            row == self@.min_row(),
            row <= self@.total(),
    {
        if self.view.is_some() || self.spill.is_some() {
            0
        } else {
            self.buf.dropped() as usize
        }
    }

    // ------------------------------------------------------------ navigation

    fn snap_to_bottom(&mut self)
        requires
            old(self).wf(),
        ensures
            final(self).wf(),
            final(self)@ == old(self)@.snapped(),
    {
        self.selected = self.view_len().saturating_sub(1);
    }

    fn move_by(&mut self, delta: i128)
        requires
            old(self).wf(),
            -0x1_0000_0000_0000_0000 <= delta <= 0x1_0000_0000_0000_0000,
        ensures
            final(self).wf(),
            final(self)@ == old(self)@.moved(delta as int),
    {
        let len = self.view_len();
        if len == 0 {
            return;
        }
        let lowest = self.min_row();
        let wanted: i128 = self.selected as i128 + delta;
        self.selected = if wanted < lowest as i128 {
            lowest
        } else if wanted > len as i128 - 1 {
            len - 1
        } else {
            wanted as usize
        };
        // Standard tail behaviour: scrolling off the bottom pauses follow,
        // scrolling back onto it (or G) resumes it.
        self.follow = self.selected == len - 1;
    }

    /// `n` / `N`: cycle through matches (wraps). Only meaningful when a
    /// filter is active: the view then *is* the match list.
    pub fn step_match(&mut self, dir: isize)
        requires
            old(self).wf(),
        ensures
            final(self).wf(),
            final(self)@ == old(self)@.stepped(dir as int),
    {
        let len = self.view_len();
        if len == 0 || self.filter.is_none() {
            return;
        }
        self.selected = Self::wrapped_row(self.selected, dir, len);
        self.follow = self.selected == len - 1;
    }

    /// The row `dir` rows from `row` in a circle of `len` rows.
    fn wrapped_row(row: usize, dir: isize, len: usize) -> (r: usize)
        requires
            row < len,
        ensures
            r == (row + dir) % (len as int),
            r < len,
    {
        let n = len as i128;
        let to: i128 = row as i128 + dir as i128;
        proof {
            crate::state::lemma_signed_wrap(to as int, n as int);
        }
        if to >= 0 {
            (to % n) as usize
        } else {
            (n - 1 - (-1 - to) % n) as usize
        }
    }

    /// Scroll by a number of lines.
    pub fn scroll_lines(&mut self, delta: isize)
        requires
            old(self).wf(),
        ensures
            final(self).wf(),
            final(self)@ == old(self)@.moved(delta as int),
    {
        self.move_by(delta as i128);
    }

    pub fn set_viewport(&mut self, rows: usize)
        requires
            old(self).wf(),
        ensures
            final(self).wf(),
            final(self)@ == (AppView {
                viewport: crate::state::max(rows as int, 1),
                ..old(self)@
            }),
    {
        self.viewport = if rows > 1 {
            rows
        } else {
            1
        };
    }

    /// Adjust `scroll` so `selected` is inside the viewport, and keep both
    /// within the reachable row range.
    pub fn ensure_visible(&mut self)
        requires
            old(self).wf(),
        ensures
            final(self).wf(),
            final(self)@ == old(self)@.made_visible(),
    {
        let len = self.view_len();
        let reachable = self.min_row();
        let (selected, scroll) = Self::visible_window(
            self.selected,
            self.scroll,
            self.viewport,
            len,
            reachable,
        );
        self.selected = selected;
        self.scroll = scroll;
    }

    /// The selected row and the topmost row for a view of `len` rows, of which
    /// those from `reachable` on can be reached, in a window of `h` rows.
    fn visible_window(
        selected: usize,
        scroll: usize,
        h: usize,
        len: usize,
        reachable: usize,
    ) -> (r: (usize, usize))
        requires
            h >= 1,
            selected < len || selected == 0,
        ensures
            ({
                let lowest = crate::state::min(reachable as int, crate::state::max(len - 1, 0));
                let row = crate::state::max(selected as int, lowest);
                &&& r.0 == row
                &&& r.1 == clamp(
                    scroll as int,
                    crate::state::max(lowest, row + 1 - h),
                    crate::state::min(row, crate::state::max(len - h, lowest)),
                )
                &&& row < len || row == 0
            }),
    {
        let last_row = len.saturating_sub(1);
        let lowest: usize = if reachable < last_row {
            reachable
        } else {
            last_row
        };
        let row: usize = if selected < lowest {
            lowest
        } else {
            selected
        };
        let shown: usize = if row < scroll {
            row
        } else if row - scroll >= h {
            row - (h - 1)
        } else {
            scroll
        };
        let room = len.saturating_sub(h);
        let max_scroll: usize = if room > lowest {
            room
        } else {
            lowest
        };
        let top: usize = if shown < lowest {
            lowest
        } else if shown > max_scroll {
            max_scroll
        } else {
            shown
        };
        (row, top)
    }

    // -------------------------------------------------------------- filtering

    /// The row to select after the view has changed.
    fn settled_row(len: usize, follow: bool, selected: usize) -> (row: usize)
        ensures
            row == (if len == 0 {
                0
            } else if follow {
                len - 1
            } else {
                crate::state::min(selected as int, len - 1)
            }),
    {
        if len == 0 {
            0
        } else if follow || selected > len - 1 {
            len - 1
        } else {
            selected
        }
    }

    fn clear_filter(&mut self)
        requires
            old(self).wf(),
        ensures
            final(self).wf(),
            final(self)@ == old(self)@.cleared(),
    {
        if self.query.as_str().is_empty() && self.filter.is_none() {
            return;
        }
        self.query = String::new();
        self.cursor = 0;
        self.filter = None;
        self.view = None;
        let len = self.total_lines_of_ring();
        self.selected = Self::settled_row(len, self.follow, self.selected);
    }

    fn total_lines_of_ring(&self) -> (n: usize)
        requires
            self.buf.wf(),
            self.buf@.total() <= usize::MAX,
        ensures
            n == self.buf@.total(),
    {
        self.buf.dropped() as usize + self.buf.len()
    }

    /// The numbers of the lines in the ring that pass a filter.
    fn matches_in_ring(buf: &RingBuffer, filter: &Filter, fuzzy: &SkimMatcherV2) -> (view: Vec<u64>)
        requires
            buf.wf(),
            filter.wf(),
            is_smart_matcher(*fuzzy),
            buf@.total() <= u64::MAX,
        ensures
            view@ == matching(
                filter@,
                buf@.history,
                buf@.dropped() as int,
                buf@.total() as int,
            ),
    {
        let mut view: Vec<u64> = Vec::new();
        let first = buf.dropped();
        let end: u64 = first + buf.len() as u64;
        let mut abs: u64 = first;
        while abs < end
            invariant
                buf.wf(),
                filter.wf(),
                is_smart_matcher(*fuzzy),
                first == buf@.dropped(),
                end == buf@.total(),
                first <= abs <= end,
                view@ == matching(filter@, buf@.history, first as int, abs as int),
            decreases end - abs,
        {
            if let Some(line) = buf.get_abs(abs) {
                if filter.match_indices(fuzzy, line).is_some() {
                    view.push(abs);
                }
            }
            abs += 1;
        }
        view
    }

    /// Install the filter for a query and rescan the history: what the ring
    /// holds, or, when there is a spill, everything, by the scan returned.
    fn install_filter(&mut self, query: String, cursor: usize, mode: MatchMode) -> (rescan: Option<
        Rescan,
    >)
        requires
            old(self).wf(),
            query@.len() > 0,
            cursor <= query@.len(),
        ensures
            final(self).wf(),
            ({
                let step = (AppView {
                    query: query@,
                    cursor: cursor as int,
                    mode,
                    ..old(self)@
                }).rescanned();
                &&& final(self)@ == step.app
                &&& rescan_view(rescan) == step.rescan
            }),
            rescan matches Some(r) ==> r.wf(),
    {
        let filter = Filter::new(query.clone(), mode);
        self.query = query;
        self.cursor = cursor;
        self.requested_mode = mode;
        if self.spill.is_some() {
            self.filter = Some(filter);
            self.view = Some(Vec::new());
            let selected = self.selected;
            self.selected = 0;
            Some(Rescan { view: Vec::new(), next: 0, selected })
        } else {
            let view = Self::matches_in_ring(&self.buf, &filter, &self.fuzzy);
            proof {
                crate::state::lemma_matching(
                    filter@,
                    self.buf@.history,
                    self.buf@.dropped() as int,
                    self.buf@.total() as int,
                );
            }
            self.selected = Self::settled_row(view.len(), self.follow, self.selected);
            self.filter = Some(filter);
            self.view = Some(view);
            None
        }
    }

    /// `r`: regex goes to fuzzy, anything else to regex.
    pub fn toggle_mode(&mut self) -> (rescan: Option<Rescan>)
        requires
            old(self).wf(),
        ensures
            final(self).wf(),
            final(self)@ == old(self)@.toggled().app,
            rescan_view(rescan) == old(self)@.toggled().rescan,
            rescan matches Some(r) ==> r.wf(),
    {
        let mode = match self.requested_mode {
            MatchMode::Regex => MatchMode::Fuzzy,
            _ => MatchMode::Regex,
        };
        if self.query.as_str().is_empty() {
            self.requested_mode = mode;
            None
        } else {
            let query = self.query.clone();
            self.install_filter(query, self.cursor, mode)
        }
    }

    /// The query is now `chars`, with the cursor at `cursor`: rebuild the
    /// filter and rescan the history. Nothing is ever mutated by matching.
    fn edit_query(&mut self, chars: &Vec<char>, cursor: usize) -> (rescan: Option<Rescan>)
        requires
            old(self).wf(),
            cursor <= chars@.len(),
        ensures
            final(self).wf(),
            final(self)@ == old(self)@.edited(chars@, cursor as int).app,
            rescan_view(rescan) == old(self)@.edited(chars@, cursor as int).rescan,
            rescan matches Some(r) ==> r.wf(),
    {
        if chars.len() == 0 {
            self.clear_filter();
            None
        } else {
            self.install_filter(from_chars(chars), cursor, self.requested_mode)
        }
    }

    /// One more line of the spill, in order, for a scan that a key asked for.
    pub fn scan_line(&self, rescan: &mut Rescan, text: &str)
        requires
            self.wf(),
            self@.filter() is Some,
            old(rescan).wf(),
            old(rescan)@.next < u64::MAX,
        ensures
            final(rescan).wf(),
            final(rescan)@ == old(rescan)@.offered(self@.filter()->0, text@),
    {
        let hit = match &self.filter {
            Some(filter) => filter.match_indices(&self.fuzzy, text).is_some(),
            None => false,
        };
        let ghost before = rescan@;
        if hit {
            rescan.view.push(rescan.next);
        }
        rescan.next = rescan.next + 1;
        proof {
            let after = rescan@;
            assert forall|i: int| 0 <= i < after.view.len() implies after.view[i] < after.next by {
                if i < before.view.len() {
                    assert(after.view[i] == before.view[i]);
                }
            }
        }
    }

    /// The scan is over, completely or as far as the spill could be read: its
    /// matches become the view.
    pub fn finish_scan(&mut self, rescan: Rescan)
        requires
            old(self).wf(),
            old(self)@.filter() is Some,
            old(self)@.spill is Some,
            rescan.wf(),
            rescan@.next <= old(self)@.total(),
        ensures
            final(self).wf(),
            final(self)@ == old(self)@.scan_finished(rescan@),
    {
        self.selected = Self::settled_row(rescan.view.len(), self.follow, rescan.selected);
        self.view = Some(rescan.view);
    }

    // ----------------------------------------------------------- key handling

    fn quit(&mut self)
        requires
            old(self).wf(),
        ensures
            final(self).wf(),
            final(self)@ == (AppView { should_quit: true, ..old(self)@ }),
    {
        self.should_quit = true;
    }

    fn set_focus(&mut self, focus: Focus)
        requires
            old(self).wf(),
        ensures
            final(self).wf(),
            final(self)@ == (AppView { focus, ..old(self)@ }),
    {
        self.focus = focus;
    }

    fn set_cursor(&mut self, cursor: usize)
        requires
            old(self).wf(),
            cursor <= old(self)@.query.len(),
        ensures
            final(self).wf(),
            final(self)@ == (AppView { cursor: cursor as int, ..old(self)@ }),
    {
        self.cursor = cursor;
    }

    /// Characters in the query.
    fn query_len(&self) -> (n: usize)
        ensures
            n == self@.query.len(),
    {
        self.query.as_str().unicode_len()
    }

    fn set_hscroll(&mut self, hscroll: u16)
        requires
            old(self).wf(),
        ensures
            final(self).wf(),
            final(self)@ == (AppView { hscroll: hscroll as int, ..old(self)@ }),
    {
        self.hscroll = hscroll;
    }

    /// `g`: the first reachable row; new lines no longer move the selection.
    fn go_top(&mut self)
        requires
            old(self).wf(),
        ensures
            final(self).wf(),
            final(self)@ == (AppView {
                selected: old(self)@.min_row(),
                follow: false,
                ..old(self)@
            }),
    {
        self.selected = self.min_row();
        self.follow = false;
    }

    /// `G`: the last row; the selection follows new lines.
    fn go_bottom(&mut self)
        requires
            old(self).wf(),
        ensures
            final(self).wf(),
            final(self)@ == (AppView { follow: true, ..old(self)@.snapped() }),
    {
        self.snap_to_bottom();
        self.follow = true;
    }

    /// Handle a key. A scan that is returned has to be carried out on the
    /// spill (see [`Rescan`]).
    pub fn on_key(&mut self, key: KeyEvent) -> (rescan: Option<Rescan>)
        requires
            old(self).wf(),
        ensures
            final(self).wf(),
            final(self)@ == old(self)@.key(key).app,
            rescan_view(rescan) == old(self)@.key(key).rescan,
            rescan matches Some(r) ==> r.wf(),
    {
        if key.modifiers.control && key.code == KeyCode::Char('c') {
            self.should_quit = true;
            return None;
        }
        match self.focus {
            Focus::Normal => self.on_normal_key(key),
            Focus::Search => self.on_search_key(key),
        }
    }

    /// Handle terminal input. A scan that is returned has to be carried out on
    /// the spill (see [`Rescan`]).
    pub fn on_input(&mut self, input: Input) -> (rescan: Option<Rescan>)
        requires
            old(self).wf(),
        ensures
            final(self).wf(),
            final(self)@ == old(self)@.input(input).app,
            rescan_view(rescan) == old(self)@.input(input).rescan,
            rescan matches Some(r) ==> r.wf(),
    {
        match input {
            Input::Key(key) => self.on_key(key),
            Input::ScrollUp => {
                self.scroll_lines(-3);
                None
            },
            Input::ScrollDown => {
                self.scroll_lines(3);
                None
            },
            _ => None,
        }
    }

    /// Handle a key while browsing.
    pub fn on_normal_key(&mut self, key: KeyEvent) -> (rescan: Option<Rescan>)
        requires
            old(self).wf(),
        ensures
            final(self).wf(),
            final(self)@ == old(self)@.normal_key(key).app,
            rescan_view(rescan) == old(self)@.normal_key(key).rescan,
            rescan matches Some(r) ==> r.wf(),
    {
        let half = (self.viewport / 2) as i128;
        let page = self.viewport as i128;
        match key.code {
            KeyCode::Char('q') => self.quit(),
            KeyCode::Char('/') => {
                self.set_focus(Focus::Search);
                let end = self.query_len();
                self.set_cursor(end);
            },
            KeyCode::Char('j') | KeyCode::Down => self.move_by(1),
            KeyCode::Char('k') | KeyCode::Up => self.move_by(-1),
            KeyCode::PageDown => self.move_by(page),
            KeyCode::PageUp => self.move_by(-page),
            KeyCode::Char('d') if key.modifiers.control => self.move_by(half),
            KeyCode::Char('u') if key.modifiers.control => self.move_by(-half),
            KeyCode::Char('g') | KeyCode::Home => self.go_top(),
            KeyCode::Char('G') | KeyCode::End => self.go_bottom(),
            KeyCode::Char('n') => self.step_match(1),
            KeyCode::Char('N') => self.step_match(-1),
            KeyCode::Char('r') => {
                return self.toggle_mode();
            },
            KeyCode::Char('h') | KeyCode::Left => self.set_hscroll(self.hscroll.saturating_sub(4)),
            KeyCode::Char('l') | KeyCode::Right => self.set_hscroll(self.hscroll.saturating_add(8)),
            KeyCode::Esc => self.clear_filter(),
            _ => {},
        }
        None
    }

    /// Handle a key while editing the query.
    pub fn on_search_key(&mut self, key: KeyEvent) -> (rescan: Option<Rescan>)
        requires
            old(self).wf(),
        ensures
            final(self).wf(),
            final(self)@ == old(self)@.search_key(key).app,
            rescan_view(rescan) == old(self)@.search_key(key).rescan,
            rescan matches Some(r) ==> r.wf(),
    {
        // Plain Ctrl only: Ctrl+Alt together is how Windows reports AltGr,
        // which produces text (e.g. '@' on German layouts), not a command.
        let ctrl = key.modifiers.control && !key.modifiers.alt;
        match key.code {
            KeyCode::Enter => self.set_focus(Focus::Normal),
            KeyCode::Esc => {
                self.clear_filter();
                self.set_focus(Focus::Normal);
            },
            KeyCode::Char('r') if ctrl => {
                return self.toggle_mode();
            },
            KeyCode::Char('a') if ctrl => self.set_cursor(0),
            KeyCode::Char('e') if ctrl => {
                let end = self.query_len();
                self.set_cursor(end);
            },
            KeyCode::Char('u') if ctrl => {
                return self.delete_to_start();
            },
            KeyCode::Char('w') if ctrl => {
                return self.delete_word();
            },
            KeyCode::Char(c) if is_text_input(key.modifiers) => {
                return self.insert_char(c);
            },
            KeyCode::Backspace => {
                return self.delete_char();
            },
            KeyCode::Left => self.set_cursor(self.cursor.saturating_sub(1)),
            KeyCode::Right => {
                let end = self.query_len();
                if self.cursor < end {
                    self.set_cursor(self.cursor + 1);
                }
            },
            KeyCode::Home => self.set_cursor(0),
            KeyCode::End => {
                let end = self.query_len();
                self.set_cursor(end);
            },
            _ => {},
        }
        None
    }

    /// Delete from the start of the query to the cursor.
    fn delete_to_start(&mut self) -> (rescan: Option<Rescan>)
        requires
            old(self).wf(),
        ensures
            final(self).wf(),
            ({
                let before = old(self)@;
                let step = before.edited(before.query.skip(before.cursor), 0);
                &&& final(self)@ == step.app
                &&& rescan_view(rescan) == step.rescan
            }),
            rescan matches Some(r) ==> r.wf(),
    {
        let chars = to_chars(self.query.as_str());
        let rest = without_range(&chars, 0, self.cursor);
        assert(rest@ =~= self.query@.skip(self.cursor as int));
        self.edit_query(&rest, 0)
    }

    /// Delete the word before the cursor.
    fn delete_word(&mut self) -> (rescan: Option<Rescan>)
        requires
            old(self).wf(),
        ensures
            final(self).wf(),
            ({
                let before = old(self)@;
                let start = word_start(spaces_of(before.query), before.cursor);
                let step = before.edited(
                    before.query.take(start) + before.query.skip(before.cursor),
                    start,
                );
                &&& final(self)@ == step.app
                &&& rescan_view(rescan) == step.rescan
            }),
            rescan matches Some(r) ==> r.wf(),
    {
        let chars = to_chars(self.query.as_str());
        let spaces = whitespace_flags(&chars);
        let start = word_start_in(&spaces, self.cursor);
        let rest = without_range(&chars, start, self.cursor);
        self.edit_query(&rest, start)
    }

    /// Type a character at the cursor.
    fn insert_char(&mut self, c: char) -> (rescan: Option<Rescan>)
        requires
            old(self).wf(),
        ensures
            final(self).wf(),
            ({
                let before = old(self)@;
                let step = before.edited(before.query.insert(before.cursor, c), before.cursor + 1);
                &&& final(self)@ == step.app
                &&& rescan_view(rescan) == step.rescan
            }),
            rescan matches Some(r) ==> r.wf(),
    {
        let mut chars = to_chars(self.query.as_str());
        chars.insert(self.cursor, c);
        assert(self.cursor < chars.len());
        self.edit_query(&chars, self.cursor + 1)
    }

    /// Delete the character before the cursor, if any.
    fn delete_char(&mut self) -> (rescan: Option<Rescan>)
        requires
            old(self).wf(),
        ensures
            final(self).wf(),
            ({
                let before = old(self)@;
                let step = if before.cursor > 0 {
                    before.edited(before.query.remove(before.cursor - 1), before.cursor - 1)
                } else {
                    done(before)
                };
                &&& final(self)@ == step.app
                &&& rescan_view(rescan) == step.rescan
            }),
            rescan matches Some(r) ==> r.wf(),
    {
        if self.cursor == 0 {
            return None;
        }
        let mut chars = to_chars(self.query.as_str());
        chars.remove(self.cursor - 1);
        self.edit_query(&chars, self.cursor - 1)
    }
}

} // verus!
