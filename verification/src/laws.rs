//! What holds of the viewer as a whole, whatever is typed and whatever arrives.

use crate::filter::{FilterView, MatchMode};
use crate::keys::{KeyCode, KeyEvent, KeyModifiers};
use crate::spill::{
    decoded, file_holds, is_single_line, law_read_back, law_scan_streams_all, nth_record,
};
use crate::state::{
    back_while, done, lemma_matching, lemma_wrap, matching, spaces_of, white_space, word_start,
    AppView, Focus, Input, InputState, RescanView, Step,
};
use vstd::prelude::*;

verus! {

// -------------------------------------------------------------------- keys

/// A character typed without modifiers.
pub open spec fn typed(c: char) -> KeyEvent {
    KeyEvent {
        code: KeyCode::Char(c),
        modifiers: KeyModifiers { control: false, alt: false },
    }
}

/// Any key without modifiers.
pub open spec fn pressed(code: KeyCode) -> KeyEvent {
    KeyEvent { code, modifiers: KeyModifiers { control: false, alt: false } }
}

/// A character held with Control, and Alt perhaps.
pub open spec fn chord(c: char, alt: bool) -> KeyEvent {
    KeyEvent { code: KeyCode::Char(c), modifiers: KeyModifiers { control: true, alt } }
}

// ------------------------------------------------------------------- state

/// The viewer starts in a valid state, with nothing in view.
pub proof fn law_initial_state(cap: nat, follow: bool, mode: MatchMode, spill: bool)
    ensures
        AppView::initial(cap, follow, mode, spill).inv(),
        AppView::initial(cap, follow, mode, spill).view_len() == 0,
        AppView::initial(cap, follow, mode, spill).filter() is None,
{
    assert(Seq::<Seq<char>>::empty().take(0) =~= Seq::<Seq<char>>::empty());
}

/// Nothing that is typed changes the history: matching and scrolling only
/// look at it.
#[verifier::spinoff_prover]
#[verifier::rlimit(50)]
pub proof fn law_input_never_touches_history(app: AppView, input: Input)
    ensures
        app.input(input).app.ring == app.ring,
        app.input(input).app.spill == app.spill,
        app.input(input).app.input_state == app.input_state,
        app.input(input).app.read_error == app.read_error,
{
}

/// Whatever arrives leaves the query, its cursor, the mode, the focus and the
/// window alone.
pub proof fn law_arrivals_never_touch_the_query(
    app: AppView,
    msg: crate::reader::Msg,
    written: Result<(), String>,
)
    ensures
        app.received(msg, written).query == app.query,
        app.received(msg, written).cursor == app.cursor,
        app.received(msg, written).mode == app.mode,
        app.received(msg, written).focus == app.focus,
        app.received(msg, written).selected == app.selected,
        app.received(msg, written).scroll == app.scroll,
        app.received(msg, written).follow == app.follow,
        app.received(msg, written).should_quit == app.should_quit,
{
}

/// Asking to quit cannot be taken back.
pub proof fn law_quitting_is_final(app: AppView, input: Input)
    requires
        app.should_quit,
    ensures
        app.input(input).app.should_quit,
{
}

/// Ctrl+C quits, whatever has the focus and whatever else is held.
pub proof fn law_ctrl_c_quits(app: AppView, alt: bool)
    ensures
        app.key(chord('c', alt)).app == (AppView { should_quit: true, ..app }),
{
}

/// Releasing a key does nothing.
pub proof fn law_release_is_ignored(app: AppView, key: KeyEvent)
    ensures
        app.input(Input::KeyRelease(key)).app == app,
        app.input(Input::KeyRelease(key)).rescan is None,
{
}

// -------------------------------------------------------------- navigation

/// Scrolling ends on a reachable row, moves no further than asked, and turns
/// following on exactly when it ends on the last row.
pub proof fn law_scrolling_stays_in_range(app: AppView, delta: int)
    requires
        app.inv(),
        app.view_len() > 0,
    ensures
        app.min_row() <= app.moved(delta).selected < app.view_len(),
        app.moved(delta).follow <==> app.moved(delta).selected == app.view_len() - 1,
        app.min_row() <= app.selected + delta < app.view_len() ==> app.moved(delta).selected
            == app.selected + delta,
{
}

/// While following, the selection is on the last row after every batch.
pub proof fn law_follow_snaps_to_bottom(
    app: AppView,
    line: Seq<char>,
    written: Result<(), String>,
)
    requires
        app.inv(),
        app.follow,
    ensures
        ({
            let after = app.pushed(line, written).after_batch();
            after.view_len() > 0 ==> after.selected == after.view_len() - 1
        }),
{
}

/// While not following, new lines never move the selection, and the row keeps
/// its line.
pub proof fn law_parked_selection_stays(
    app: AppView,
    line: Seq<char>,
    written: Result<(), String>,
    row: int,
)
    requires
        app.inv(),
        !app.follow,
        0 <= row < app.view_len(),
    ensures
        app.pushed(line, written).after_batch().selected == app.selected,
        app.pushed(line, written).after_batch().abs_at(row) == app.abs_at(row),
{
}

/// Scrolling off the bottom pauses following; `G` goes back to the last row
/// and resumes it.
pub proof fn law_scrolling_up_pauses_follow(app: AppView, n: int)
    requires
        app.inv(),
        app.focus == Focus::Normal,
        n > 0,
        app.min_row() < app.view_len() - 1,
    ensures
        !app.moved(-n).follow,
        app.moved(-n).key(typed('G')).app.follow,
        app.moved(-n).key(typed('G')).app.selected == app.view_len() - 1,
{
}

/// Stepping goes to the next or the previous match, around the end, and follows
/// exactly when it ends on the last one. Without a filter, or without matches,
/// it does nothing.
pub proof fn law_steps(app: AppView)
    requires
        app.inv(),
    ensures
        ({
            let n = app.view_len();
            let next = app.stepped(1);
            let previous = app.stepped(-1);
            &&& app.filter() is None || n == 0 ==> next == app && previous == app
            &&& app.filter() is Some && n > 0 ==> {
                &&& next == AppView {
                    selected: (app.selected + 1) % n,
                    follow: (app.selected + 1) % n == n - 1,
                    ..app
                }
                &&& previous == AppView {
                    selected: (app.selected + n - 1) % n,
                    follow: (app.selected + n - 1) % n == n - 1,
                    ..app
                }
            }
        }),
{
    if app.view_len() > 0 {
        vstd::arithmetic::div_mod::lemma_mod_add_multiples_vanish(
            app.selected - 1,
            app.view_len(),
        );
    }
}

/// While browsing, `n` and `N` do nothing but step.
pub proof fn law_step_keys(app: AppView)
    requires
        app.focus == Focus::Normal,
    ensures
        app.key(typed('n')) == done(app.stepped(1)),
        app.key(typed('N')) == done(app.stepped(-1)),
{
}

/// Steps in the two directions undo each other.
pub proof fn law_steps_undo_each_other(app: AppView)
    requires
        app.inv(),
    ensures
        app.stepped(1).stepped(-1).selected == app.selected,
        app.stepped(-1).stepped(1).selected == app.selected,
{
    if app.view_len() > 0 && app.filter() is Some {
        lemma_wrap(app.selected, app.view_len());
        lemma_wrap(app.stepped(1).selected, app.view_len());
        lemma_wrap(app.stepped(-1).selected, app.view_len());
    }
}

/// `n` (for `dir` 1) or `N` (for `dir` -1) pressed so many times.
pub open spec fn stepped_times(app: AppView, dir: int, times: nat) -> AppView
    decreases times,
{
    if times == 0 {
        app
    } else {
        stepped_times(app, dir, (times - 1) as nat).stepped(dir)
    }
}

/// Stepping goes through every match and around, in either direction: pressing
/// as often as two rows are apart leads from one to the other, and pressing
/// once for every match leads back.
pub proof fn law_stepping_cycles(app: AppView, dir: int, times: nat)
    requires
        app.inv(),
        app.filter() is Some,
        app.view_len() > 0,
        dir == 1 || dir == -1,
    ensures
        stepped_times(app, dir, times).selected == (app.selected + dir * times) % app.view_len(),
        times == app.view_len() ==> stepped_times(app, dir, times).selected == app.selected,
{
    lemma_stepped_times(app, dir, times);
    if times == app.view_len() {
        vstd::arithmetic::div_mod::lemma_fundamental_div_mod_converse(
            app.selected + dir * times,
            app.view_len(),
            dir,
            app.selected,
        );
    }
}

proof fn lemma_stepped_times(app: AppView, dir: int, times: nat)
    requires
        app.inv(),
        app.filter() is Some,
        app.view_len() > 0,
        dir == 1 || dir == -1,
    ensures
        stepped_times(app, dir, times).selected == (app.selected + dir * times) % app.view_len(),
        stepped_times(app, dir, times).view_len() == app.view_len(),
        stepped_times(app, dir, times).filter() == app.filter(),
    decreases times,
{
    let len = app.view_len();
    if times == 0 {
        vstd::arithmetic::div_mod::lemma_small_mod(app.selected as nat, len as nat);
    } else {
        lemma_stepped_times(app, dir, (times - 1) as nat);
        let row = app.selected + dir * (times - 1);
        assert(row + dir == app.selected + dir * times) by (nonlinear_arith)
            requires
                row == app.selected + dir * (times - 1),
        ;
        vstd::arithmetic::div_mod::lemma_add_mod_noop(row, dir, len);
        vstd::arithmetic::div_mod::lemma_mod_twice(row, len);
        vstd::arithmetic::div_mod::lemma_add_mod_noop(row % len, dir, len);
    }
}

/// After a frame is laid out the selection is inside the window, both are
/// within the reachable rows, and laying it out again changes nothing.
pub proof fn law_selection_is_visible(app: AppView)
    requires
        app.inv(),
        app.view_len() > 0,
    ensures
        ({
            let shown = app.made_visible();
            &&& shown.scroll <= shown.selected < shown.scroll + shown.viewport
            &&& app.min_row() <= shown.scroll
            &&& shown.selected < shown.view_len()
            &&& app.min_row() <= app.selected ==> shown.selected == app.selected
            &&& shown.made_visible() == shown
        }),
{
}

/// The window is filled as far as there are rows: it never shows less than it
/// could.
pub proof fn law_window_is_filled(app: AppView)
    requires
        app.inv(),
        app.view_len() - app.min_row() >= app.viewport,
    ensures
        app.made_visible().scroll + app.viewport <= app.view_len(),
{
}

/// Without a spill the rows that the ring has dropped cannot be reached; with
/// one, or with a filter, the first row can.
pub proof fn law_top_is_first_reachable(app: AppView)
    requires
        app.inv(),
        app.focus == Focus::Normal,
    ensures
        ({
            let top = app.key(typed('g')).app;
            &&& !top.follow
            &&& app.spill is Some || app.view is Some ==> top.selected == 0
            &&& app.spill is None && app.view is None ==> top.selected == app.ring.dropped()
        }),
{
}

// ------------------------------------------------------------------- rows

/// There is a line in a row exactly when the row is in the view; the lines
/// come in the order in which they arrived, and none comes twice.
pub proof fn law_rows_are_in_order(app: AppView, a: int, b: int)
    requires
        app.inv(),
        0 <= a < b < app.view_len(),
    ensures
        app.abs_at(a) is Some,
        app.abs_at(b) is Some,
        0 <= app.abs_at(a)->0 < app.abs_at(b)->0 < app.total(),
        app.abs_at(app.view_len()) is None,
{
    if let Some(v) = app.view {
        assert(v[a] < v[b]);
        assert(v[b] < app.total());
    }
}

/// Without a filter the view spans the entire history.
pub proof fn law_unfiltered_view_is_the_history(app: AppView, row: int)
    requires
        app.inv(),
        app.filter() is None,
        0 <= row < app.total(),
    ensures
        app.view_len() == app.total(),
        app.abs_at(row) == Some(row),
{
}

/// With a spill that has not failed every line ever received can be had: from
/// the ring, or else from the spill file, which gives back exactly the line
/// that arrived.
pub proof fn law_every_line_is_reachable(app: AppView, file: Seq<u8>, abs: int)
    requires
        app.inv(),
        app.spill is Some,
        app.spill->0.error is None,
        file_holds(file, app.spill->0.lines),
        file.len() <= u64::MAX,
        forall|i: int|
            0 <= i < app.total() ==> is_single_line(#[trigger] app.ring.history[i]),
        0 <= abs < app.total(),
    ensures
        app.spill_read(abs) is Some,
        ({
            let read = app.spill_read(abs)->0;
            decoded(nth_record(file, read.offset as int, (read.records - 1) as nat))
                == app.ring.history[abs]
        }),
{
    law_stored_lines_outlive_a_failure(app, file, abs);
}

/// After a failed write, every stored line that has reached the file can still
/// be had, as it arrived.
pub proof fn law_stored_lines_outlive_a_failure(app: AppView, file: Seq<u8>, abs: int)
    requires
        app.inv(),
        app.spill is Some,
        file_holds(file, app.spill->0.lines),
        file.len() <= u64::MAX,
        forall|i: int|
            0 <= i < app.total() ==> is_single_line(#[trigger] app.ring.history[i]),
        0 <= abs < app.spill->0.lines.len(),
    ensures
        app.spill_read(abs) is Some,
        ({
            let read = app.spill_read(abs)->0;
            decoded(nth_record(file, read.offset as int, (read.records - 1) as nat))
                == app.ring.history[abs]
        }),
{
    let sp = app.spill->0;
    assert forall|i: int| 0 <= i < sp.lines.len() implies is_single_line(
        #[trigger] sp.lines[i],
    ) by {
        assert(sp.lines[i] == app.ring.history[i]);
    }
    law_read_back(sp, file, abs);
}

/// A failed write shows as the spill's error, whether it failed when the line
/// was appended or only when it was written out; the first error stays.
pub proof fn law_failed_write_is_reported(
    app: AppView,
    line: Seq<char>,
    why: String,
    later: Result<(), String>,
)
    requires
        app.spill is Some,
        app.spill_error() is None,
    ensures
        app.pushed(line, Err(why)).spill_error() == Some(why@),
        app.spill_flushed(Err(why)).spill_error() == Some(why@),
        app.spill_flushed(Err(why)).spill_flushed(later).spill_error() == Some(why@),
        app.spill_flushed(Err(why)).pushed(line, later).spill_error() == Some(why@),
        app.spill_flushed(Err(why)).ring == app.ring,
        app.spill_flushed(Err(why)).view == app.view,
{
}

// ----------------------------------------------------------------- editing

/// While searching, every key but Ctrl+C goes to the query.
pub proof fn law_search_keys(app: AppView, key: KeyEvent)
    requires
        app.focus == Focus::Search,
        !(key.modifiers.control && key.code == KeyCode::Char('c')),
    ensures
        app.key(key) == app.search_key(key),
{
}

/// Typing puts the character at the cursor, and Backspace takes it away again.
pub proof fn law_backspace_undoes_typing(app: AppView, c: char)
    requires
        app.inv(),
    ensures
        ({
            let after = app.search_key(typed(c)).app;
            let back = after.search_key(pressed(KeyCode::Backspace)).app;
            &&& after.query == app.query.take(app.cursor).push(c) + app.query.skip(app.cursor)
            &&& after.cursor == app.cursor + 1
            &&& after.focus == app.focus
            &&& back.query == app.query
            &&& back.cursor == app.cursor
        }),
{
    assert(app.query.insert(app.cursor, c) =~= app.query.take(app.cursor).push(c)
        + app.query.skip(app.cursor));
    assert(app.query.insert(app.cursor, c).remove(app.cursor) =~= app.query);
}

/// With nothing before the cursor Backspace does nothing.
pub proof fn law_backspace_at_the_start_does_nothing(app: AppView)
    requires
        app.cursor == 0,
    ensures
        app.search_key(pressed(KeyCode::Backspace)) == done(app),
{
}

/// A character held with Control alone is a command: the query is left alone
/// by all but Ctrl+U and Ctrl+W. So it is with Alt alone.
pub proof fn law_commands_are_not_typed(app: AppView, c: char, alt_only: bool)
    requires
        app.focus == Focus::Search,
        alt_only || (c != 'u' && c != 'w'),
    ensures
        ({
            let key = KeyEvent {
                code: KeyCode::Char(c),
                modifiers: KeyModifiers { control: !alt_only, alt: alt_only },
            };
            app.key(key).app.query == app.query
        }),
{
}

/// Control and Alt together are AltGr, which types text (except that Ctrl+C
/// quits with any other modifier).
pub proof fn law_altgr_types(app: AppView, c: char)
    requires
        app.focus == Focus::Search,
        c != 'c',
    ensures
        app.key(chord(c, true)) == app.key(typed(c)),
{
}

/// Ctrl+U deletes what is before the cursor and nothing else.
pub proof fn law_ctrl_u_deletes_to_start(app: AppView)
    requires
        app.inv(),
        app.focus == Focus::Search,
    ensures
        app.key(chord('u', false)).app.query == app.query.skip(app.cursor),
        app.key(chord('u', false)).app.cursor == 0,
{
    if app.query.len() == 0 {
        assert(app.query.skip(app.cursor) =~= app.query);
    } else if app.query.skip(app.cursor).len() == 0 {
        assert(app.query.skip(app.cursor) =~= Seq::<char>::empty());
    }
}

proof fn lemma_back_while(flags: Seq<bool>, end: int, flag: bool)
    requires
        0 <= end <= flags.len(),
    ensures
        0 <= back_while(flags, end, flag) <= end,
        forall|i: int| back_while(flags, end, flag) <= i < end ==> flags[i] == flag,
        back_while(flags, end, flag) == 0 || flags[back_while(flags, end, flag) - 1] != flag,
    decreases end,
{
    if 0 < end && flags[end - 1] == flag {
        lemma_back_while(flags, end - 1, flag);
    }
}

/// The characters `start .. mid` are not white space, and those of
/// `mid .. end` are.
pub open spec fn is_word_and_blanks(text: Seq<char>, start: int, mid: int, end: int) -> bool {
    &&& start <= mid <= end
    &&& forall|i: int| start <= i < mid ==> !white_space(#[trigger] text[i])
    &&& forall|i: int| mid <= i < end ==> white_space(#[trigger] text[i])
}

/// Ctrl+W deletes the word before the cursor: what goes is a stretch that ends
/// at the cursor and consists of non-blank characters and then of blank ones;
/// what remains before it is empty or ends in a blank character.
pub proof fn law_ctrl_w_deletes_a_word(app: AppView)
    requires
        app.inv(),
        app.focus == Focus::Search,
    ensures
        ({
            let after = app.key(chord('w', false)).app;
            let start = word_start(spaces_of(app.query), app.cursor);
            &&& 0 <= start <= app.cursor
            &&& after.cursor == start
            &&& after.query == app.query.take(start) + app.query.skip(app.cursor)
            &&& start == 0 || white_space(app.query[start - 1])
            &&& app.cursor > 0 ==> start < app.cursor
            &&& exists|mid: int| is_word_and_blanks(app.query, start, mid, app.cursor)
        }),
{
    let flags = spaces_of(app.query);
    let mid = back_while(flags, app.cursor, true);
    let start = back_while(flags, mid, false);
    lemma_back_while(flags, app.cursor, true);
    lemma_back_while(flags, mid, false);
    assert forall|i: int| 0 <= i < app.query.len() implies flags[i] == white_space(
        #[trigger] app.query[i],
    ) by {}
    let rest = app.query.take(start) + app.query.skip(app.cursor);
    if rest.len() == 0 {
        assert(rest =~= Seq::<char>::empty());
        assert(app.query.len() == 0 ==> app.query =~= rest);
    }
    assert(is_word_and_blanks(app.query, start, mid, app.cursor));
}

/// A key that moves the cursor in the query.
pub open spec fn is_cursor_key(key: KeyEvent) -> bool {
    ||| key.code == KeyCode::Left
    ||| key.code == KeyCode::Right
    ||| key.code == KeyCode::Home
    ||| key.code == KeyCode::End
    ||| key == chord('a', false)
    ||| key == chord('e', false)
}

/// Moving the cursor changes nothing else and never leaves the query.
pub proof fn law_cursor_keys_move_only_the_cursor(app: AppView, key: KeyEvent)
    requires
        app.inv(),
        is_cursor_key(key),
    ensures
        ({
            let step = app.search_key(key);
            &&& step == done(AppView { cursor: step.app.cursor, ..app })
            &&& 0 <= step.app.cursor <= app.query.len()
        }),
{
}

// --------------------------------------------------------------- filtering

/// Toggling goes from regex to fuzzy and from anything else to regex. The query
/// stays; where there is one, the history is searched again in the new mode,
/// and where there is none, nothing else changes.
pub proof fn law_toggling(app: AppView)
    ensures
        ({
            let step = app.toggled();
            let mode = if app.mode == MatchMode::Regex {
                MatchMode::Fuzzy
            } else {
                MatchMode::Regex
            };
            &&& step.app.mode == mode
            &&& step.app.query == app.query
            &&& app.query.len() == 0 ==> step == done(AppView { mode, ..app })
            &&& app.query.len() > 0 ==> step == (AppView { mode, ..app }).rescanned()
            &&& app.query.len() > 0 ==> step.app.filter() == Some(
                FilterView { query: app.query, requested: mode },
            )
        }),
{
}

/// `r` while browsing and Ctrl+R while searching toggle.
pub proof fn law_toggle_keys(app: AppView)
    ensures
        app.focus == Focus::Normal ==> app.key(typed('r')) == app.toggled(),
        app.focus == Focus::Search ==> app.key(chord('r', false)) == app.toggled(),
{
}

/// Toggling between fuzzy and regex twice leads back.
pub proof fn law_toggling_twice_restores_mode(app: AppView)
    requires
        app.mode != MatchMode::Substring,
    ensures
        app.toggled().app.mode != app.mode,
        app.toggled().app.toggled().app.mode == app.mode,
        app.toggled().app.toggled().app.query == app.query,
{
}

/// Esc clears the filter from either focus: all lines are in view again.
pub proof fn law_esc_clears_the_filter(app: AppView)
    requires
        app.inv(),
    ensures
        ({
            let after = app.key(pressed(KeyCode::Esc)).app;
            &&& after.query.len() == 0
            &&& after.filter() is None
            &&& after.view is None
            &&& after.view_len() == app.total()
            &&& after.focus == Focus::Normal
            &&& app.key(pressed(KeyCode::Esc)).rescan is None
        }),
{
}

/// Enter keeps the filter and goes back to browsing.
pub proof fn law_enter_keeps_the_filter(app: AppView)
    requires
        app.focus == Focus::Search,
    ensures
        app.key(pressed(KeyCode::Enter)).app == (AppView { focus: Focus::Normal, ..app }),
{
}

/// The view holds exactly the matches of the whole history.
pub open spec fn is_complete(app: AppView) -> bool {
    app.view matches Some(v) ==> v == matching(
        app.filter()->0,
        app.ring.history,
        0,
        app.total(),
    )
}

/// The matches of a history: in the order of the lines, all of them matches,
/// and no match left out.
pub proof fn law_matching(filter: FilterView, history: Seq<Seq<char>>, lo: int, hi: int)
    requires
        0 <= lo,
        hi <= history.len(),
        hi <= u64::MAX,
    ensures
        ({
            let v = matching(filter, history, lo, hi);
            &&& forall|i: int, j: int| 0 <= i < j < v.len() ==> v[i] < v[j]
            &&& forall|abs: u64| #[trigger]
                v.contains(abs) <==> lo <= abs < hi && filter.matches(history[abs as int])
        }),
{
    lemma_matching(filter, history, lo, hi);
    let v = matching(filter, history, lo, hi);
    assert forall|abs: u64| #[trigger] v.contains(abs) implies lo <= abs < hi && filter.matches(
        history[abs as int],
    ) by {
        let k = choose|k: int| 0 <= k < v.len() && v[k] == abs;
        assert(lo <= v[k] && v[k] < hi);
        assert(filter.matches(history[v[k] as int]));
    }
    assert forall|abs: u64| lo <= abs < hi && filter.matches(history[abs as int]) implies #[trigger]
    v.contains(abs) by {
        assert(filter.matches(history[abs as int]));
        assert(abs as int as u64 == abs);
    }
}

proof fn lemma_matching_prefix(
    filter: FilterView,
    a: Seq<Seq<char>>,
    b: Seq<Seq<char>>,
    lo: int,
    hi: int,
)
    requires
        0 <= lo,
        hi <= a.len(),
        hi <= b.len(),
        forall|i: int| lo <= i < hi ==> a[i] == b[i],
    ensures
        matching(filter, a, lo, hi) == matching(filter, b, lo, hi),
    decreases hi - lo,
{
    if lo < hi {
        lemma_matching_prefix(filter, a, b, lo, hi - 1);
    }
}

/// Filtering new arrivals as they come agrees with searching again: a complete
/// view stays complete.
pub proof fn law_live_filter_agrees_with_rescan(
    app: AppView,
    line: Seq<char>,
    written: Result<(), String>,
)
    requires
        app.inv(),
        is_complete(app),
    ensures
        is_complete(app.pushed(line, written)),
{
    let next = app.pushed(line, written);
    if app.view is Some {
        lemma_matching_prefix(
            app.filter()->0,
            app.ring.history,
            next.ring.history,
            0,
            app.total(),
        );
    }
}

proof fn lemma_offered_all(
    start: RescanView,
    filter: FilterView,
    lines: Seq<Seq<char>>,
    n: nat,
)
    requires
        start.view.len() == 0,
        start.next == 0,
        n <= lines.len(),
    ensures
        start.offered_all(filter, lines, n).view == matching(filter, lines, 0, n as int),
        start.offered_all(filter, lines, n).next == n,
        start.offered_all(filter, lines, n).selected == start.selected,
    decreases n,
{
    if n > 0 {
        lemma_offered_all(start, filter, lines, (n - 1) as nat);
    } else {
        assert(start.view =~= Seq::empty());
    }
}

/// Searching again with a spill that has not failed finds every match of the
/// whole history, evicted lines included: once the stored lines have been
/// streamed past the filter, the view is complete.
pub proof fn law_scan_finds_every_match(app: AppView)
    requires
        app.inv(),
        app.spill is Some,
        app.spill->0.error is None,
        app.filter() is Some,
    ensures
        ({
            let step = app.rescanned();
            let lines = app.spill->0.lines;
            let found = step.rescan->0.offered_all(app.filter()->0, lines, lines.len());
            &&& step.rescan is Some
            &&& is_complete(step.app.scan_finished(found))
        }),
{
    let lines = app.spill->0.lines;
    lemma_offered_all(app.rescanned().rescan->0, app.filter()->0, lines, lines.len());
    lemma_matching_prefix(app.filter()->0, lines, app.ring.history, 0, app.total());
}

/// What a scan reads from the file is what arrived.
pub proof fn law_scan_reads_history(app: AppView, file: Seq<u8>, n: int)
    requires
        app.inv(),
        app.spill is Some,
        file_holds(file, app.spill->0.lines),
        file.len() <= u64::MAX,
        forall|i: int|
            0 <= i < app.total() ==> is_single_line(#[trigger] app.ring.history[i]),
        0 <= n < app.spill->0.lines.len(),
    ensures
        app.spill->0.scan_read() is Some,
        decoded(
            nth_record(file, app.spill->0.scan_read()->0.offset as int, n as nat),
        ) == app.ring.history[n],
{
    let sp = app.spill->0;
    assert forall|i: int| 0 <= i < sp.lines.len() implies is_single_line(
        #[trigger] sp.lines[i],
    ) by {
        assert(sp.lines[i] == app.ring.history[i]);
    }
    law_scan_streams_all(sp, file, n);
}

/// Without a spill, searching again finds every match that the ring holds.
pub proof fn law_ring_search_finds_every_held_match(app: AppView, abs: int)
    requires
        app.inv(),
        app.spill is None,
        app.filter() is Some,
        app.ring.holds(abs),
    ensures
        app.rescanned().rescan is None,
        app.rescanned().app.view is Some,
        app.rescanned().app.view->0.contains(abs as u64) <==> app.filter()->0.matches(
            app.ring.history[abs],
        ),
{
    law_matching(
        app.filter()->0,
        app.ring.history,
        app.ring.dropped() as int,
        app.total(),
    );
    assert(abs as u64 as int == abs);
}

/// With a spill, input that asks for no scan keeps a complete view complete:
/// it leaves the filter and the view alone, or drops both.
#[verifier::spinoff_prover]
#[verifier::rlimit(50)]
pub proof fn law_input_keeps_view_complete(app: AppView, input: Input)
    requires
        app.inv(),
        app.spill is Some,
        is_complete(app),
        app.input(input).rescan is None,
    ensures
        is_complete(app.input(input).app),
{
}

// -------------------------------------------------- what each event does

/// The viewer starts as it was asked to, with room for at least one line, on
/// live input, browsing, at the top left.
pub proof fn law_starts_as_asked(cap: nat, follow: bool, mode: MatchMode, spill: bool)
    ensures
        ({
            let app = AppView::initial(cap, follow, mode, spill);
            &&& app.ring.history.len() == 0
            &&& app.ring.cap == (if cap == 0 {
                1
            } else {
                cap
            })
            &&& app.spill is Some <==> spill
            &&& app.spill matches Some(sp) ==> sp.lines.len() == 0 && sp.error is None && !sp.dirty
            &&& app.follow == follow
            &&& app.mode == mode
            &&& app.query.len() == 0 && app.cursor == 0 && app.view is None
            &&& app.selected == 0 && app.scroll == 0 && app.hscroll == 0 && app.viewport == 20
            &&& app.input_state == InputState::Live && app.read_error is None
            &&& app.focus == Focus::Normal && !app.should_quit
        }),
{
}

/// Scrolling moves the selection by as many rows as asked, and where that leads
/// out of the reachable rows, to the first or the last of them. Nothing but the
/// selection and following changes.
pub proof fn law_scrolling_is_clamped(app: AppView, delta: int)
    requires
        app.inv(),
    ensures
        ({
            let after = app.moved(delta);
            let wanted = app.selected + delta;
            let first: int = if app.view is None && app.spill is None && app.ring.history.len()
                > app.ring.cap {
                app.ring.history.len() - app.ring.cap
            } else {
                0
            };
            let rows: int = match app.view {
                Some(v) => v.len() as int,
                None => app.ring.history.len() as int,
            };
            &&& rows == 0 ==> after == app
            &&& rows > 0 && wanted < first ==> after.selected == first
            &&& rows > 0 && wanted >= rows ==> after.selected == rows - 1
            &&& rows > 0 && first <= wanted < rows ==> after.selected == wanted
            &&& rows > 0 ==> after.follow == (after.selected == rows - 1)
            &&& after == AppView { selected: after.selected, follow: after.follow, ..app }
        }),
{
}

/// Two scrolls in the same direction are one scroll by both distances.
pub proof fn law_scrolls_add_up(app: AppView, a: int, b: int)
    requires
        app.inv(),
        app.min_row() <= app.selected,
        (a >= 0 && b >= 0) || (a <= 0 && b <= 0),
    ensures
        app.moved(a).moved(b) == app.moved(a + b),
{
}

/// Steps add up too, whatever their directions.
pub proof fn law_steps_add_up(app: AppView, a: int, b: int)
    requires
        app.inv(),
    ensures
        app.stepped(a).stepped(b).selected == app.stepped(a + b).selected,
        app.stepped(a) == (AppView {
            selected: app.stepped(a).selected,
            follow: app.stepped(a).follow,
            ..app
        }),
{
    if app.view_len() > 0 && app.filter() is Some {
        let n = app.view_len();
        vstd::arithmetic::div_mod::lemma_add_mod_noop(app.selected + a, b, n);
        vstd::arithmetic::div_mod::lemma_mod_twice(app.selected + a, n);
        vstd::arithmetic::div_mod::lemma_add_mod_noop((app.selected + a) % n, b, n);
        assert(app.selected + a + b == app.selected + (a + b));
    }
}

/// The window moves no further than it must: it stays where the selection is in
/// it already, and otherwise the selection becomes its first or its last row,
/// unless the window would then end below the last row, or start above the
/// first reachable one. Nothing but the selection and the window changes.
pub proof fn law_window_moves_no_further_than_needed(app: AppView)
    requires
        app.inv(),
        app.view_len() > 0,
        app.min_row() <= app.selected,
    ensures
        ({
            let after = app.made_visible();
            let last_top = if app.view_len() - app.viewport > app.min_row() {
                app.view_len() - app.viewport
            } else {
                app.min_row()
            };
            &&& after.selected == app.selected
            &&& app.min_row() <= app.scroll <= last_top && app.scroll <= app.selected < app.scroll
                + app.viewport ==> after.scroll == app.scroll
            &&& app.selected < app.scroll && app.selected <= last_top ==> after.scroll
                == app.selected
            &&& app.selected >= app.scroll + app.viewport && app.scroll >= app.min_row()
                ==> after.scroll == app.selected + 1 - app.viewport
            &&& app.scroll > last_top && app.selected >= last_top ==> after.scroll == last_top
            &&& app.scroll < app.min_row() && app.selected < app.min_row() + app.viewport
                ==> after.scroll == app.min_row()
            &&& app.scroll < app.min_row() && app.selected >= app.min_row() + app.viewport
                ==> after.scroll == app.selected + 1 - app.viewport
            &&& after == AppView { scroll: after.scroll, ..app }
        }),
{
}

/// A selection whose row the ring has dropped goes to the first row left, and
/// the window follows it there.
pub proof fn law_dropped_selection_goes_to_the_first_row(app: AppView)
    requires
        app.inv(),
        app.view_len() > 0,
        app.selected < app.min_row(),
    ensures
        app.made_visible().selected == app.min_row(),
        app.made_visible() == (AppView { selected: app.min_row(), ..app }).made_visible(),
{
}

/// An empty view has its window and its selection at the top.
pub proof fn law_empty_view_is_at_the_top(app: AppView)
    requires
        app.inv(),
        app.view_len() == 0,
    ensures
        app.made_visible() == (AppView { selected: 0, scroll: 0, ..app }),
{
}

/// A new line joins the view as its last row, if there is no filter or if it
/// passes it; the rows before keep their lines. Nothing else changes but the
/// history.
pub proof fn law_arrival_joins_the_view(
    app: AppView,
    line: Seq<char>,
    written: Result<(), String>,
    row: int,
)
    requires
        app.inv(),
        app.total() < u64::MAX,
    ensures
        ({
            let after = app.pushed(line, written);
            let joins = match app.filter() {
                Some(f) => f.matches(line),
                None => true,
            };
            &&& after.ring.history == app.ring.history.push(line)
            &&& after.ring.cap == app.ring.cap
            &&& after.view_len() == app.view_len() + (if joins {
                1int
            } else {
                0int
            })
            &&& joins ==> after.abs_at(app.view_len()) == Some(app.ring.history.len() as int)
            &&& 0 <= row < app.view_len() ==> after.abs_at(row) == app.abs_at(row)
            &&& after.spill is Some <==> app.spill is Some
            &&& after == AppView {
                ring: after.ring,
                spill: after.spill,
                view: after.view,
                ..app
            }
        }),
{
}

/// A new line goes to the spill as long as no write has failed.
pub proof fn law_arrival_is_spilled(app: AppView, line: Seq<char>, why: String)
    requires
        app.spill is Some,
        app.spill->0.error is None,
    ensures
        app.pushed(line, Ok(())).spill->0.lines == app.spill->0.lines.push(line),
        app.pushed(line, Ok(())).spill->0.error is None,
        app.pushed(line, Err(why)).spill->0.lines == app.spill->0.lines,
        app.pushed(line, Err(why)).spill->0.error == Some(why@),
{
}

/// One more line can be taken as long as it can be counted, and its bytes too.
pub proof fn law_room_for_a_line(app: AppView, line: Seq<char>)
    ensures
        app.can_push(line) <==> {
            &&& app.ring.history.len() < usize::MAX
            &&& app.ring.history.len() < u64::MAX
            &&& app.spill matches Some(sp) ==> sp.error is Some || crate::spill::file_of(
                sp.lines,
            ).len() + vstd::utf8::encode_utf8(line).len() + 1 <= u64::MAX
        },
{
}

/// After a batch the selection is on the last row where it follows, and where
/// it was otherwise; nothing else changes. A tick without messages is no batch.
pub proof fn law_batch(app: AppView, drained: int)
    requires
        app.inv(),
    ensures
        !app.follow ==> app.after_batch() == app,
        app.follow ==> app.after_batch() == (AppView {
            selected: if app.view_len() == 0 {
                0
            } else {
                app.view_len() - 1
            },
            ..app
        }),
        drained == 0 ==> app.drained(drained) == app,
        drained > 0 ==> app.drained(drained) == app.after_batch(),
{
}

/// What a message says: a line is taken, the end of the input is noted, a
/// failure is noted with its reason.
pub proof fn law_messages(app: AppView, line: String, why: String, written: Result<(), String>)
    ensures
        app.received(crate::reader::Msg::Line(line), written) == app.pushed(line@, written),
        app.received(crate::reader::Msg::Eof, written) == (AppView {
            input_state: InputState::Eof,
            ..app
        }),
        app.received(crate::reader::Msg::Failed(why), written) == (AppView {
            input_state: InputState::Error,
            read_error: Some(why@),
            ..app
        }),
{
}

/// The wheel scrolls three rows, away from the user up and towards the user
/// down; keys count when pressed; anything else does nothing.
pub proof fn law_terminal_input(app: AppView, key: KeyEvent)
    ensures
        app.input(Input::ScrollUp) == done(app.moved(-3)),
        app.input(Input::ScrollDown) == done(app.moved(3)),
        app.input(Input::Key(key)) == app.key(key),
        app.input(Input::Other) == done(app),
{
}

/// While browsing, every key but Ctrl+C goes to the list.
pub proof fn law_browsing_keys(app: AppView, key: KeyEvent)
    requires
        app.focus == Focus::Normal,
        !(key.modifiers.control && key.code == KeyCode::Char('c')),
    ensures
        app.key(key) == app.normal_key(key),
{
}

/// `j` and Down scroll down by a row, `k` and Up scroll up by one.
pub proof fn law_line_keys(app: AppView, modifiers: KeyModifiers)
    ensures
        app.normal_key(KeyEvent { code: KeyCode::Char('j'), modifiers }) == done(app.moved(1)),
        app.normal_key(KeyEvent { code: KeyCode::Down, modifiers }) == done(app.moved(1)),
        app.normal_key(KeyEvent { code: KeyCode::Char('k'), modifiers }) == done(app.moved(-1)),
        app.normal_key(KeyEvent { code: KeyCode::Up, modifiers }) == done(app.moved(-1)),
{
}

/// PageDown and PageUp scroll by as many rows as the list has on the screen.
pub proof fn law_page_keys(app: AppView, modifiers: KeyModifiers)
    ensures
        app.normal_key(KeyEvent { code: KeyCode::PageDown, modifiers }) == done(
            app.moved(app.viewport),
        ),
        app.normal_key(KeyEvent { code: KeyCode::PageUp, modifiers }) == done(
            app.moved(-app.viewport),
        ),
{
}

/// Ctrl+D and Ctrl+U scroll by half as many rows, rounded down; without Control
/// the two letters do nothing.
pub proof fn law_half_page_keys(app: AppView, half: int, alt: bool)
    requires
        app.viewport == 2 * half || app.viewport == 2 * half + 1,
    ensures
        app.normal_key(chord('d', alt)) == done(app.moved(half)),
        app.normal_key(chord('u', alt)) == done(app.moved(-half)),
        app.normal_key(
            KeyEvent {
                code: KeyCode::Char('d'),
                modifiers: KeyModifiers { control: false, alt },
            },
        ) == done(app),
        app.normal_key(
            KeyEvent {
                code: KeyCode::Char('u'),
                modifiers: KeyModifiers { control: false, alt },
            },
        ) == done(app),
{
}

/// `g` and Home select the first reachable row and stop following; `G` and End
/// select the last row and follow.
pub proof fn law_end_keys(app: AppView, modifiers: KeyModifiers)
    requires
        app.inv(),
    ensures
        ({
            let top = AppView {
                selected: if app.view is None && app.spill is None && app.ring.history.len()
                    > app.ring.cap {
                    app.ring.history.len() - app.ring.cap
                } else {
                    0
                },
                follow: false,
                ..app
            };
            let bottom = AppView {
                selected: if app.view_len() == 0 {
                    0
                } else {
                    app.view_len() - 1
                },
                follow: true,
                ..app
            };
            &&& app.normal_key(KeyEvent { code: KeyCode::Char('g'), modifiers }) == done(top)
            &&& app.normal_key(KeyEvent { code: KeyCode::Home, modifiers }) == done(top)
            &&& app.normal_key(KeyEvent { code: KeyCode::Char('G'), modifiers }) == done(bottom)
            &&& app.normal_key(KeyEvent { code: KeyCode::End, modifiers }) == done(bottom)
        }),
{
}

/// `h` and Left scroll four columns to the left, to the first at most; `l` and
/// Right scroll eight columns to the right, to the last that can be counted at
/// most. Nothing else changes.
pub proof fn law_sideways_keys(app: AppView, modifiers: KeyModifiers)
    requires
        app.inv(),
    ensures
        ({
            let left = AppView {
                hscroll: if app.hscroll < 4 {
                    0
                } else {
                    app.hscroll - 4
                },
                ..app
            };
            let right = AppView {
                hscroll: if app.hscroll + 8 > u16::MAX {
                    u16::MAX as int
                } else {
                    app.hscroll + 8
                },
                ..app
            };
            &&& app.normal_key(KeyEvent { code: KeyCode::Char('h'), modifiers }) == done(left)
            &&& app.normal_key(KeyEvent { code: KeyCode::Left, modifiers }) == done(left)
            &&& app.normal_key(KeyEvent { code: KeyCode::Char('l'), modifiers }) == done(right)
            &&& app.normal_key(KeyEvent { code: KeyCode::Right, modifiers }) == done(right)
        }),
{
}

/// `q` quits, `/` goes to the end of the query, `n` and `N` step through the
/// matches, `r` toggles the mode and Esc clears the filter; nothing else
/// changes by these.
pub proof fn law_command_keys(app: AppView, modifiers: KeyModifiers)
    ensures
        app.normal_key(KeyEvent { code: KeyCode::Char('q'), modifiers }) == done(
            AppView { should_quit: true, ..app },
        ),
        app.normal_key(KeyEvent { code: KeyCode::Char('/'), modifiers }) == done(
            AppView { focus: Focus::Search, cursor: app.query.len() as int, ..app },
        ),
        app.normal_key(KeyEvent { code: KeyCode::Char('n'), modifiers }) == done(app.stepped(1)),
        app.normal_key(KeyEvent { code: KeyCode::Char('N'), modifiers }) == done(app.stepped(-1)),
        app.normal_key(KeyEvent { code: KeyCode::Char('r'), modifiers }) == app.toggled(),
        app.normal_key(KeyEvent { code: KeyCode::Esc, modifiers }) == done(app.cleared()),
{
}

/// Any other key does nothing while browsing.
pub proof fn law_other_keys_do_nothing(app: AppView, key: KeyEvent)
    requires
        match key.code {
            KeyCode::Enter | KeyCode::Backspace | KeyCode::Other => true,
            KeyCode::Char(c) => !seq![
                'q', '/', 'j', 'k', 'd', 'u', 'g', 'G', 'n', 'N', 'r', 'h', 'l',
            ].contains(c),
            _ => false,
        },
    ensures
        app.normal_key(key) == done(app),
{
    if let KeyCode::Char(c) = key.code {
        let used = seq!['q', '/', 'j', 'k', 'd', 'u', 'g', 'G', 'n', 'N', 'r', 'h', 'l'];
        assert(used[0] == 'q' && used[1] == '/' && used[2] == 'j' && used[3] == 'k' && used[4] == 'd'
            && used[5] == 'u' && used[6] == 'g' && used[7] == 'G' && used[8] == 'n' && used[9] == 'N'
            && used[10] == 'r' && used[11] == 'h' && used[12] == 'l');
    }
}

/// While searching, Left and Right move the cursor by a character and stop at
/// the ends; Home and Ctrl+A go to the start, End and Ctrl+E to the end.
pub proof fn law_cursor_keys(app: AppView, modifiers: KeyModifiers)
    requires
        app.inv(),
    ensures
        ({
            let len = app.query.len() as int;
            let left = AppView {
                cursor: if app.cursor == 0 {
                    0
                } else {
                    app.cursor - 1
                },
                ..app
            };
            let right = AppView {
                cursor: if app.cursor == len {
                    len
                } else {
                    app.cursor + 1
                },
                ..app
            };
            let start = AppView { cursor: 0, ..app };
            let end = AppView { cursor: len, ..app };
            &&& app.search_key(KeyEvent { code: KeyCode::Left, modifiers }) == done(left)
            &&& app.search_key(KeyEvent { code: KeyCode::Right, modifiers }) == done(right)
            &&& app.search_key(KeyEvent { code: KeyCode::Home, modifiers }) == done(start)
            &&& app.search_key(KeyEvent { code: KeyCode::End, modifiers }) == done(end)
            &&& app.search_key(chord('a', false)) == done(start)
            &&& app.search_key(chord('e', false)) == done(end)
        }),
{
}

/// While searching, Backspace takes away the character before the cursor, and
/// the cursor moves with it.
pub proof fn law_backspace_deletes_before_the_cursor(app: AppView, modifiers: KeyModifiers)
    requires
        app.inv(),
        app.cursor > 0,
    ensures
        ({
            let after = app.search_key(KeyEvent { code: KeyCode::Backspace, modifiers }).app;
            &&& after.query == app.query.take(app.cursor - 1) + app.query.skip(app.cursor)
            &&& after.cursor == app.cursor - 1
        }),
{
    let rest = app.query.take(app.cursor - 1) + app.query.skip(app.cursor);
    assert(app.query.remove(app.cursor - 1) =~= rest);
    if rest.len() == 0 {
        assert(rest =~= Seq::<char>::empty());
    }
}

/// While searching, Enter leaves the query, Esc clears the filter and leaves,
/// Ctrl+R toggles the mode; keys that stand for no text do nothing.
pub proof fn law_search_commands(app: AppView, modifiers: KeyModifiers, c: char)
    ensures
        app.search_key(KeyEvent { code: KeyCode::Enter, modifiers }) == done(
            AppView { focus: Focus::Normal, ..app },
        ),
        app.search_key(KeyEvent { code: KeyCode::Esc, modifiers }) == done(
            AppView { focus: Focus::Normal, ..app.cleared() },
        ),
        app.search_key(chord('r', false)) == app.toggled(),
        app.search_key(KeyEvent { code: KeyCode::Up, modifiers }) == done(app),
        app.search_key(KeyEvent { code: KeyCode::Down, modifiers }) == done(app),
        app.search_key(KeyEvent { code: KeyCode::PageUp, modifiers }) == done(app),
        app.search_key(KeyEvent { code: KeyCode::PageDown, modifiers }) == done(app),
        app.search_key(KeyEvent { code: KeyCode::Other, modifiers }) == done(app),
        app.search_key(
            KeyEvent {
                code: KeyCode::Char(c),
                modifiers: KeyModifiers { control: false, alt: true },
            },
        ) == done(app),
        c != 'r' && c != 'a' && c != 'e' && c != 'u' && c != 'w' ==> app.search_key(
            chord(c, false),
        ) == done(app),
        app.search_key(chord(c, true)) == app.search_key(typed(c)),
{
}

/// Editing the query changes the filter with it: to the new query in the mode
/// asked for, or to none where the query is empty. It touches nothing but the
/// query, its cursor, the view and the selection.
pub proof fn law_editing_changes_the_filter(app: AppView, query: Seq<char>, cursor: int)
    requires
        app.inv(),
        0 <= cursor <= query.len(),
    ensures
        ({
            let step = app.edited(query, cursor);
            let after = step.app;
            &&& query.len() > 0 ==> after.query == query && after.cursor == cursor && after.filter()
                == Some(FilterView { query, requested: app.mode })
            &&& query.len() == 0 ==> after.query.len() == 0 && after.filter() is None && after.view
                is None && after.cursor == 0 && step.rescan is None
            &&& query.len() > 0 ==> (step.rescan is Some <==> app.spill is Some)
            &&& after == AppView {
                query: after.query,
                cursor: after.cursor,
                view: after.view,
                selected: after.selected,
                ..app
            }
        }),
{
}

// ------------------------------------------------ the row that is selected

/// The selection that was on row `row` has come to a new view: it is on the
/// last row where it follows, and otherwise on the same row, or on the last one
/// where there are not so many.
pub open spec fn is_settled(app: AppView, row: int) -> bool {
    let rows: int = match app.view {
        Some(v) => v.len() as int,
        None => app.ring.history.len() as int,
    };
    if rows == 0 {
        app.selected == 0
    } else if app.follow || row >= rows {
        app.selected == rows - 1
    } else {
        app.selected == row
    }
}

/// Changing or clearing the filter keeps a parked selection on its row, or puts
/// it on the last row of the new view where there are fewer; a selection that
/// follows goes to the last row. This holds at once where nothing has to be
/// scanned, and otherwise when the scan is over, as far as it got.
pub proof fn law_filter_change_keeps_parked_row(
    app: AppView,
    input: Input,
    lines: Seq<Seq<char>>,
    n: nat,
)
    requires
        app.inv(),
        app.input(input).app.query != app.query || app.input(input).app.mode != app.mode,
        app.query.len() > 0 || app.input(input).app.query.len() > 0,
    ensures
        ({
            let step = app.input(input);
            &&& step.app.follow == app.follow
            &&& step.rescan is None ==> is_settled(step.app, app.selected)
            &&& step.rescan is Some ==> is_settled(
                step.app.scan_finished(
                    step.rescan->0.offered_all(step.app.filter()->0, lines, n),
                ),
                app.selected,
            )
        }),
{
    reveal(keeps_row);
    if let Input::Key(key) = input {
        if app.focus == Focus::Normal {
            lemma_normal_key_keeps_row(app, key, lines, n);
        } else {
            lemma_search_key_keeps_row(app, key, lines, n);
        }
    }
}

#[verifier::opaque]
spec fn keeps_row(app: AppView, step: Step, lines: Seq<Seq<char>>, n: nat) -> bool {
    &&& step.app.follow == app.follow
    &&& step.rescan is None ==> is_settled(step.app, app.selected)
    &&& step.rescan is Some ==> is_settled(
        step.app.scan_finished(step.rescan->0.offered_all(step.app.filter()->0, lines, n)),
        app.selected,
    )
}

proof fn lemma_cleared_keeps_row(app: AppView, focus: Focus, lines: Seq<Seq<char>>, n: nat)
    requires
        app.query.len() > 0,
    ensures
        keeps_row(app, done(app.cleared()), lines, n),
        keeps_row(app, done(AppView { focus, ..app.cleared() }), lines, n),
{
    reveal(keeps_row);
}

proof fn lemma_rescanned_keeps_row(
    app: AppView,
    changed: AppView,
    lines: Seq<Seq<char>>,
    n: nat,
)
    requires
        changed.selected == app.selected,
        changed.follow == app.follow,
    ensures
        keeps_row(app, changed.rescanned(), lines, n),
{
    reveal(keeps_row);
    let step = changed.rescanned();
    if step.rescan is Some {
        lemma_scan_keeps_row(step.rescan->0, step.app.filter()->0, lines, n);
    }
}

proof fn lemma_edited_keeps_row(
    app: AppView,
    query: Seq<char>,
    cursor: int,
    lines: Seq<Seq<char>>,
    n: nat,
)
    requires
        app.query.len() > 0 || query.len() > 0,
    ensures
        keeps_row(app, app.edited(query, cursor), lines, n),
{
    if query.len() > 0 {
        lemma_rescanned_keeps_row(app, AppView { query, cursor, ..app }, lines, n);
    } else {
        lemma_cleared_keeps_row(app, app.focus, lines, n);
    }
}

proof fn lemma_toggled_keeps_row(app: AppView, lines: Seq<Seq<char>>, n: nat)
    requires
        app.query.len() > 0,
    ensures
        keeps_row(app, app.toggled(), lines, n),
        app.toggled().app.query == app.query,
{
    let mode = app.toggled().app.mode;
    lemma_rescanned_keeps_row(app, AppView { mode, ..app }, lines, n);
}

proof fn lemma_normal_key_keeps_row(
    app: AppView,
    key: KeyEvent,
    lines: Seq<Seq<char>>,
    n: nat,
)
    requires
        app.inv(),
        app.normal_key(key).app.query != app.query || app.normal_key(key).app.mode != app.mode,
        app.query.len() > 0 || app.normal_key(key).app.query.len() > 0,
    ensures
        keeps_row(app, app.normal_key(key), lines, n),
{
    if app.query.len() > 0 {
        lemma_cleared_keeps_row(app, app.focus, lines, n);
        lemma_toggled_keeps_row(app, lines, n);
    }
}

proof fn lemma_search_key_keeps_row(
    app: AppView,
    key: KeyEvent,
    lines: Seq<Seq<char>>,
    n: nat,
)
    requires
        app.inv(),
        app.search_key(key).app.query != app.query || app.search_key(key).app.mode != app.mode,
        app.query.len() > 0 || app.search_key(key).app.query.len() > 0,
    ensures
        keeps_row(app, app.search_key(key), lines, n),
{
    let spaces = spaces_of(app.query);
    let start = word_start(spaces, app.cursor);
    match key.code {
        KeyCode::Esc => if app.query.len() > 0 {
            lemma_cleared_keeps_row(app, Focus::Normal, lines, n);
        },
        KeyCode::Char(c) => if key.modifiers.is_command() && c == 'r' {
            if app.query.len() > 0 {
                lemma_toggled_keeps_row(app, lines, n);
            }
        } else if key.modifiers.is_command() && c == 'u' {
            lemma_edited_keeps_row(app, app.query.skip(app.cursor), 0, lines, n);
        } else if key.modifiers.is_command() && c == 'w' {
            let left = app.query.take(start) + app.query.skip(app.cursor);
            if app.query.len() == 0 {
                assert(app.cursor == 0 && start == 0);
            }
            lemma_edited_keeps_row(app, left, start, lines, n);
        } else {
            lemma_edited_keeps_row(
                app,
                app.query.insert(app.cursor, c),
                app.cursor + 1,
                lines,
                n,
            );
        },
        KeyCode::Backspace => if app.cursor > 0 {
            lemma_edited_keeps_row(
                app,
                app.query.remove(app.cursor - 1),
                app.cursor - 1,
                lines,
                n,
            );
        },
        _ => {},
    }
}

proof fn lemma_scan_keeps_row(
    start: RescanView,
    filter: FilterView,
    lines: Seq<Seq<char>>,
    n: nat,
)
    ensures
        start.offered_all(filter, lines, n).selected == start.selected,
    decreases n,
{
    if n > 0 {
        lemma_scan_keeps_row(start, filter, lines, (n - 1) as nat);
    }
}

/// Clearing the filter does nothing but that: the query, its cursor and the view
/// go, and the selection settles.
pub proof fn law_clearing(app: AppView)
    requires
        app.inv(),
    ensures
        ({
            let after = app.cleared();
            &&& app.query.len() == 0 ==> after == app
            &&& after.query.len() == 0 && after.view is None
            &&& app.query.len() > 0 ==> after.cursor == 0 && is_settled(after, app.selected)
            &&& after == AppView {
                query: after.query,
                cursor: after.cursor,
                view: after.view,
                selected: after.selected,
                ..app
            }
        }),
{
}

/// Searching again touches nothing but the view and the selection. With a spill
/// the scan starts at the first line with nothing found, and remembers the row
/// that was selected.
pub proof fn law_searching_again(app: AppView)
    requires
        app.inv(),
        app.filter() is Some,
    ensures
        ({
            let step = app.rescanned();
            &&& step.app == AppView {
                view: step.app.view,
                selected: step.app.selected,
                ..app
            }
            &&& step.app.view is Some
            &&& app.spill is None ==> step.rescan is None && is_settled(step.app, app.selected)
            &&& app.spill is Some ==> {
                &&& step.rescan is Some
                &&& step.rescan->0.view.len() == 0
                &&& step.rescan->0.next == 0
                &&& step.rescan->0.selected == app.selected
            }
        }),
{
}

/// A scan that has looked at the first `n` lines has found just those of them
/// that pass the filter, in their order; the view is what it found.
pub proof fn law_scan_finds_what_it_has_seen(
    app: AppView,
    lines: Seq<Seq<char>>,
    n: nat,
    abs: u64,
)
    requires
        app.inv(),
        app.filter() is Some,
        app.spill is Some,
        n <= lines.len(),
        n <= u64::MAX,
    ensures
        ({
            let found = app.rescanned().rescan->0.offered_all(app.filter()->0, lines, n);
            let after = app.rescanned().app.scan_finished(found);
            &&& found.next == n
            &&& after.view == Some(found.view)
            &&& found.view.contains(abs) <==> abs < n && app.filter()->0.matches(lines[abs as int])
            &&& forall|i: int, j: int| 0 <= i < j < found.view.len() ==> found.view[i] < found.view[j]
            &&& after == AppView { view: after.view, selected: after.selected, ..app }
        }),
{
    lemma_offered_all(app.rescanned().rescan->0, app.filter()->0, lines, n);
    law_matching(app.filter()->0, lines, 0, n as int);
}

/// A complete view has a row for a line exactly when the line passes the filter.
pub proof fn law_complete_view_shows_just_the_matches(app: AppView, abs: int)
    requires
        app.inv(),
        app.view is Some,
        is_complete(app),
        0 <= abs < app.ring.history.len(),
    ensures
        (exists|row: int| #[trigger] app.abs_at(row) == Some(abs)) <==> app.filter()->0.matches(
            app.ring.history[abs],
        ),
{
    let v = app.view->0;
    law_matching(app.filter()->0, app.ring.history, 0, app.total());
    assert(abs as u64 as int == abs);
    if v.contains(abs as u64) {
        let k = choose|k: int| 0 <= k < v.len() && v[k] == abs as u64;
        assert(app.abs_at(k) == Some(abs));
    }
    if exists|row: int| #[trigger] app.abs_at(row) == Some(abs) {
        let row = choose|row: int| #[trigger] app.abs_at(row) == Some(abs);
        assert(v[row] == abs as u64);
    }
}

/// Nothing is highlighted without a filter; with one it is what the filter
/// highlights, with the query and the mode that were asked for.
pub proof fn law_highlight_is_the_filters(
    app: AppView,
    text: Seq<char>,
    hits: Option<Seq<usize>>,
)
    ensures
        app.query.len() == 0 ==> (app.may_highlight(text, hits) <==> hits is None),
        app.query.len() > 0 ==> (app.may_highlight(text, hits) <==> (FilterView {
            query: app.query,
            requested: app.mode,
        }).may_highlight(text, hits)),
{
}

/// There is a filter exactly when there is a query, and it has that query and
/// the mode asked for; it does not depend on anything else.
pub proof fn law_the_query_is_the_filter(app: AppView)
    ensures
        app.filter() is Some <==> app.query.len() > 0,
        app.query.len() > 0 ==> app.filter()->0.query == app.query && app.filter()->0.requested
            == app.mode,
{
}

/// The rows of a view: all lines without a filter, its entries with one.
pub proof fn law_rows_of_a_view(app: AppView, row: int)
    ensures
        app.view is None ==> app.view_len() == app.ring.history.len(),
        app.view matches Some(v) ==> app.view_len() == v.len(),
        app.view is None && 0 <= row < app.ring.history.len() ==> app.abs_at(row) == Some(row),
        app.view matches Some(v) ==> 0 <= row < v.len() ==> app.abs_at(row) == Some(
            v[row] as int,
        ),
        row < 0 || row >= app.view_len() ==> app.abs_at(row) is None,
{
}

/// Where a word starts, going left from `end`: over flags that are set, and then
/// over flags that are not.
pub proof fn law_word_start(flags: Seq<bool>, end: int)
    requires
        0 <= end <= flags.len(),
    ensures
        ({
            let start = word_start(flags, end);
            &&& 0 <= start <= end
            &&& start == 0 || flags[start - 1]
            &&& exists|mid: int| is_unset_then_set(flags, start, mid, end)
            &&& start < end || end == 0
        }),
{
    let mid = back_while(flags, end, true);
    lemma_back_while(flags, end, true);
    lemma_back_while(flags, mid, false);
    assert(is_unset_then_set(flags, word_start(flags, end), mid, end));
}

/// The flags `start .. mid` are not set, and those of `mid .. end` are.
pub open spec fn is_unset_then_set(flags: Seq<bool>, start: int, mid: int, end: int) -> bool {
    &&& start <= mid <= end
    &&& forall|i: int| start <= i < mid ==> !#[trigger] flags[i]
    &&& forall|i: int| mid <= i < end ==> #[trigger] flags[i]
}

/// A tick takes 8192 messages at most, and waits 33 milliseconds for input
/// unless it has taken that many.
pub proof fn law_tick()
    ensures
        crate::state::MAX_DRAIN_PER_TICK == 8192,
        crate::state::TICK_MILLIS == 33,
{
}

} // verus!
