//! The viewer, with a spill file that is kept in memory.

use std::io::{BufRead, Cursor};

use logtui::app::{word_start_in, App, Focus, InputState, LineAt, Rescan};
use logtui::filter::MatchMode;
use logtui::keys::{KeyCode, KeyEvent, KeyModifiers};
use logtui::reader::Msg;
use logtui::spill::{decode_record, SpillRead};
use logtui::state::{Input, MAX_DRAIN_PER_TICK, TICK_MILLIS};

const NONE: KeyModifiers = KeyModifiers { control: false, alt: false };
const CONTROL: KeyModifiers = KeyModifiers { control: true, alt: false };
const ALT: KeyModifiers = KeyModifiers { control: false, alt: true };
const CONTROL_ALT: KeyModifiers = KeyModifiers { control: true, alt: true };

/// The viewer and its spill file.
struct Viewer {
    app: App,
    file: Vec<u8>,
}

impl Viewer {
    fn new(cap: usize, follow: bool, mode: MatchMode, spill: bool) -> Viewer {
        Viewer { app: App::new(cap, follow, mode, spill), file: Vec::new() }
    }

    fn push_line(&mut self, line: &str) {
        assert!(self.app.can_push(line));
        if let Some(record) = self.app.spill_record(line) {
            self.file.extend(record);
        }
        self.app.push_line(line.to_string(), Ok(()));
    }

    fn records(&mut self, read: SpillRead) -> Vec<String> {
        if read.flush {
            self.app.spill_flushed(Ok(()));
        }
        let mut reader = Cursor::new(&self.file);
        reader.set_position(read.offset);
        let mut lines = Vec::new();
        for _ in 0..read.records {
            let mut raw = Vec::new();
            reader.read_until(b'\n', &mut raw).unwrap();
            lines.push(decode_record(&raw));
        }
        lines
    }

    fn carry_out(&mut self, rescan: Option<Rescan>) {
        if let Some(mut rescan) = rescan {
            if let Some(read) = self.app.spill_scan() {
                for text in self.records(read) {
                    self.app.scan_line(&mut rescan, &text);
                }
            }
            self.app.finish_scan(rescan);
        }
    }

    fn on_key(&mut self, key: KeyEvent) {
        let rescan = self.app.on_key(key);
        self.carry_out(rescan);
    }

    fn press(&mut self, code: KeyCode) {
        self.on_key(KeyEvent::from(code));
    }

    fn type_in(&mut self, text: &str) {
        for c in text.chars() {
            self.press(KeyCode::Char(c));
        }
    }

    fn line(&mut self, abs: u64) -> Option<String> {
        let read = match self.app.line(abs) {
            LineAt::Ring(text) => return Some(text.to_string()),
            LineAt::Spill(read) => read,
            LineAt::Gone => return None,
        };
        self.records(read).pop()
    }

    fn view(&self) -> Vec<u64> {
        (0..self.app.view_len()).map(|row| self.app.abs_at(row).unwrap()).collect()
    }
}

fn app_with(lines: &[&str], follow: bool) -> Viewer {
    let mut app = Viewer::new(100, follow, MatchMode::Fuzzy, true);
    for l in lines {
        app.push_line(l);
    }
    app.app.after_batch();
    app
}

#[test]
fn follow_snaps_to_bottom_on_new_lines() {
    let mut v = app_with(&["a", "b"], true);
    assert_eq!(v.app.selected(), 1);
    v.push_line("c");
    v.app.after_batch();
    assert_eq!(v.app.selected(), 2);
    // scroll up -> follow off -> new lines no longer move selection
    v.app.scroll_lines(-1);
    assert!(!v.app.follow());
    v.push_line("d");
    v.app.after_batch();
    assert_eq!(v.app.selected(), 1); // still parked where the user scrolled to
    // G resumes
    v.on_key(KeyEvent::from(KeyCode::Char('G')));
    assert!(v.app.follow());
    assert_eq!(v.app.selected(), 3);
}

#[test]
fn filter_view_and_match_navigation() {
    let mut v = app_with(&["error one", "ok", "error two", "fine"], false);
    v.on_key(KeyEvent::from(KeyCode::Char('/')));
    for c in "error".chars() {
        v.on_key(KeyEvent::from(KeyCode::Char(c)));
    }
    assert_eq!(v.app.view_len(), 2);
    assert_eq!(v.app.abs_at(0), Some(0));
    assert_eq!(v.app.abs_at(1), Some(2));
    v.on_key(KeyEvent::from(KeyCode::Enter));
    v.on_key(KeyEvent::from(KeyCode::Char('n')));
    assert_eq!(v.app.selected(), 1);
    v.on_key(KeyEvent::from(KeyCode::Char('n'))); // wraps
    assert_eq!(v.app.selected(), 0);
    v.on_key(KeyEvent::from(KeyCode::Esc)); // clear filter
    assert_eq!(v.app.view_len(), 4);
    assert!(v.app.filter().is_none());
}

#[test]
fn search_editing_and_modifier_handling() {
    let mut v = app_with(&["one two three"], false);
    v.on_key(KeyEvent::from(KeyCode::Char('/')));
    for c in "one two".chars() {
        v.on_key(KeyEvent::from(KeyCode::Char(c)));
    }
    // Ctrl-modified chars are commands, not query input.
    v.on_key(KeyEvent::new(KeyCode::Char('x'), CONTROL));
    assert_eq!(v.app.query(), "one two");
    // AltGr (Ctrl+Alt) still types text, e.g. '@' on German layouts.
    v.on_key(KeyEvent::new(KeyCode::Char('@'), CONTROL_ALT));
    assert_eq!(v.app.query(), "one two@");
    v.on_key(KeyEvent::from(KeyCode::Backspace));
    // Ctrl+W deletes the word before the cursor.
    v.on_key(KeyEvent::new(KeyCode::Char('w'), CONTROL));
    assert_eq!(v.app.query(), "one ");
    // Ctrl+U clears back to the start.
    v.on_key(KeyEvent::new(KeyCode::Char('u'), CONTROL));
    assert_eq!(v.app.query(), "");
    assert_eq!(v.app.cursor(), 0);
}

#[test]
fn read_error_sets_state() {
    let mut v = app_with(&["a"], true);
    v.app.set_read_error("boom".into());
    assert_eq!(v.app.input_state(), InputState::Error);
    assert_eq!(v.app.read_error(), Some("boom"));
}

#[test]
fn spill_keeps_full_history_after_eviction() {
    let mut v = Viewer::new(3, false, MatchMode::Fuzzy, true);
    for l in ["l1", "l2", "l3", "l4", "l5"] {
        v.push_line(l);
    }
    // ring holds only the last 3, but every line stays reachable
    assert_eq!(v.app.buffer().dropped(), 2);
    assert_eq!(v.app.view_len(), 5);
    assert_eq!(v.app.abs_at(0), Some(0));
    assert_eq!(v.line(0).as_deref(), Some("l1")); // from the spill
    assert_eq!(v.line(4).as_deref(), Some("l5")); // from the ring
    // g reaches the very first line
    v.on_key(KeyEvent::from(KeyCode::Char('g')));
    assert_eq!(v.app.selected(), 0);
}

#[test]
fn filter_sees_evicted_lines_via_spill() {
    let mut v = Viewer::new(3, false, MatchMode::Fuzzy, true);
    for l in ["keep x", "drop", "keep y", "n1", "n2"] {
        v.push_line(l);
    }
    assert_eq!(v.app.buffer().get_abs(0), None); // "keep x" evicted
    v.on_key(KeyEvent::from(KeyCode::Char('/')));
    for c in "keep".chars() {
        v.on_key(KeyEvent::from(KeyCode::Char(c)));
    }
    // the full-history scan still finds both matches
    assert_eq!(v.app.view_len(), 2);
    assert_eq!(v.app.abs_at(0), Some(0));
    assert_eq!(v.app.abs_at(1), Some(2));
    assert_eq!(v.line(0).as_deref(), Some("keep x"));
}

#[test]
fn no_spill_clamps_navigation_to_ring() {
    let mut v = Viewer::new(3, false, MatchMode::Fuzzy, false);
    for l in ["l1", "l2", "l3", "l4", "l5"] {
        v.push_line(l);
    }
    // rows for evicted lines exist in the count but are unreachable
    assert_eq!(v.app.view_len(), 5);
    assert_eq!(v.line(0), None);
    v.on_key(KeyEvent::from(KeyCode::Char('g')));
    assert_eq!(v.app.selected(), 2); // oldest line still in the ring
    v.app.scroll_lines(-10);
    assert_eq!(v.app.selected(), 2);
}

#[test]
fn starts_empty() {
    let v = Viewer::new(0, true, MatchMode::Regex, false);
    assert_eq!(v.app.total_lines(), 0);
    assert_eq!(v.app.view_len(), 0);
    assert_eq!(v.app.abs_at(0), None);
    assert_eq!(v.app.selected(), 0);
    assert_eq!(v.app.scroll(), 0);
    assert_eq!(v.app.hscroll(), 0);
    assert_eq!(v.app.cursor(), 0);
    assert_eq!(v.app.query(), "");
    assert_eq!(v.app.requested_mode(), MatchMode::Regex);
    assert_eq!(v.app.input_state(), InputState::Live);
    assert_eq!(v.app.read_error(), None);
    assert_eq!(v.app.focus(), Focus::Normal);
    assert!(v.app.follow());
    assert!(!v.app.spill_enabled());
    assert_eq!(v.app.spill_error(), None);
    assert!(!v.app.should_quit);
}

#[test]
fn a_capacity_of_zero_counts_as_one() {
    let mut v = Viewer::new(0, false, MatchMode::Fuzzy, false);
    v.push_line("a");
    v.push_line("b");
    assert_eq!(v.app.buffer().len(), 1);
    assert_eq!(v.line(0), None);
    assert_eq!(v.line(1).as_deref(), Some("b"));
}

#[test]
fn moving_an_empty_view_does_nothing() {
    let mut v = Viewer::new(5, true, MatchMode::Fuzzy, true);
    v.app.scroll_lines(3);
    v.press(KeyCode::PageDown);
    v.press(KeyCode::Char('k'));
    assert_eq!(v.app.selected(), 0);
    assert!(v.app.follow());
    v.app.after_batch();
    v.press(KeyCode::Char('n'));
    assert_eq!(v.app.selected(), 0);
}

#[test]
fn browsing_keys() {
    let lines: Vec<String> = (0..100).map(|i| format!("{i}")).collect();
    let refs: Vec<&str> = lines.iter().map(|s| s.as_str()).collect();
    let mut v = app_with(&refs, false);
    v.app.set_viewport(10);
    v.press(KeyCode::Char('j'));
    v.press(KeyCode::Down);
    assert_eq!(v.app.selected(), 2);
    v.press(KeyCode::Char('k'));
    v.press(KeyCode::Up);
    v.press(KeyCode::Up);
    assert_eq!(v.app.selected(), 0);
    v.press(KeyCode::PageDown);
    assert_eq!(v.app.selected(), 10);
    v.on_key(KeyEvent::new(KeyCode::Char('d'), CONTROL));
    assert_eq!(v.app.selected(), 15);
    v.on_key(KeyEvent::new(KeyCode::Char('u'), CONTROL));
    v.press(KeyCode::PageUp);
    assert_eq!(v.app.selected(), 0);
    // d and u without Control do nothing
    v.press(KeyCode::Char('d'));
    v.press(KeyCode::Char('u'));
    assert_eq!(v.app.selected(), 0);
    v.press(KeyCode::End);
    assert_eq!(v.app.selected(), 99);
    assert!(v.app.follow());
    v.press(KeyCode::Home);
    assert_eq!(v.app.selected(), 0);
    assert!(!v.app.follow());
    v.app.scroll_lines(1000);
    assert_eq!(v.app.selected(), 99);
    assert!(v.app.follow());
    v.app.scroll_lines(isize::MIN);
    assert_eq!(v.app.selected(), 0);
}

#[test]
fn sideways_scrolling_saturates() {
    let mut v = app_with(&["a"], false);
    v.press(KeyCode::Char('h'));
    assert_eq!(v.app.hscroll(), 0);
    v.press(KeyCode::Char('l'));
    v.press(KeyCode::Right);
    assert_eq!(v.app.hscroll(), 16);
    v.press(KeyCode::Left);
    assert_eq!(v.app.hscroll(), 12);
    for _ in 0..9000 {
        v.press(KeyCode::Right);
    }
    assert_eq!(v.app.hscroll(), u16::MAX);
}

#[test]
fn the_window_follows_the_selection() {
    let lines: Vec<String> = (0..50).map(|i| format!("{i}")).collect();
    let refs: Vec<&str> = lines.iter().map(|s| s.as_str()).collect();
    let mut v = app_with(&refs, false);
    v.app.set_viewport(10);
    v.app.ensure_visible();
    assert_eq!((v.app.scroll(), v.app.selected()), (0, 0));
    v.app.scroll_lines(9);
    v.app.ensure_visible();
    assert_eq!(v.app.scroll(), 0);
    v.app.scroll_lines(1);
    v.app.ensure_visible();
    assert_eq!(v.app.scroll(), 1);
    v.app.scroll_lines(100);
    v.app.ensure_visible();
    assert_eq!((v.app.scroll(), v.app.selected()), (40, 49));
    v.app.scroll_lines(-5);
    v.app.ensure_visible();
    assert_eq!((v.app.scroll(), v.app.selected()), (40, 44));
    v.app.scroll_lines(-10);
    v.app.ensure_visible();
    assert_eq!((v.app.scroll(), v.app.selected()), (34, 34));
    // a window larger than the view shows it from the top
    v.app.set_viewport(200);
    v.app.ensure_visible();
    assert_eq!((v.app.scroll(), v.app.selected()), (0, 34));
    // a window of no rows counts as one
    v.app.set_viewport(0);
    v.app.ensure_visible();
    assert_eq!((v.app.scroll(), v.app.selected()), (34, 34));
}

#[test]
fn eviction_pushes_a_parked_selection_along() {
    let mut v = Viewer::new(3, false, MatchMode::Fuzzy, false);
    for i in 0..3 {
        v.push_line(&format!("{i}"));
    }
    v.app.ensure_visible();
    assert_eq!(v.app.selected(), 0);
    for i in 3..8 {
        v.push_line(&format!("{i}"));
    }
    v.app.after_batch();
    assert_eq!(v.app.selected(), 0); // not following
    v.app.ensure_visible();
    assert_eq!((v.app.selected(), v.app.scroll()), (5, 5)); // oldest row left
}

#[test]
fn quitting() {
    let mut v = app_with(&["a"], false);
    v.press(KeyCode::Char('q'));
    assert!(v.app.should_quit);
    v.press(KeyCode::Esc);
    assert!(v.app.should_quit);

    let mut v = app_with(&["a"], false);
    v.press(KeyCode::Char('/'));
    v.press(KeyCode::Char('q')); // typed, not a command
    assert!(!v.app.should_quit);
    assert_eq!(v.app.query(), "q");
    v.on_key(KeyEvent::new(KeyCode::Char('c'), CONTROL));
    assert!(v.app.should_quit);
    assert_eq!(v.app.query(), "q");

    let mut v = app_with(&["a"], false);
    v.press(KeyCode::Char('/'));
    v.on_key(KeyEvent::new(KeyCode::Char('c'), CONTROL_ALT));
    assert!(v.app.should_quit);
}

#[test]
fn editing_at_the_cursor() {
    let mut v = app_with(&["abc"], false);
    v.press(KeyCode::Char('/'));
    v.type_in("ac");
    v.press(KeyCode::Left);
    v.type_in("bü");
    assert_eq!((v.app.query(), v.app.cursor()), ("abüc", 3));
    v.press(KeyCode::Backspace);
    assert_eq!((v.app.query(), v.app.cursor()), ("abc", 2));
    v.press(KeyCode::Home);
    v.press(KeyCode::Left);
    assert_eq!(v.app.cursor(), 0);
    v.press(KeyCode::Backspace); // nothing before the cursor
    assert_eq!(v.app.query(), "abc");
    v.press(KeyCode::End);
    v.press(KeyCode::Right);
    assert_eq!(v.app.cursor(), 3);
    v.on_key(KeyEvent::new(KeyCode::Char('a'), CONTROL));
    assert_eq!(v.app.cursor(), 0);
    v.press(KeyCode::Right);
    assert_eq!(v.app.cursor(), 1);
    v.on_key(KeyEvent::new(KeyCode::Char('u'), CONTROL));
    assert_eq!((v.app.query(), v.app.cursor()), ("bc", 0));
    v.on_key(KeyEvent::new(KeyCode::Char('e'), CONTROL));
    assert_eq!(v.app.cursor(), 2);
    // Alt alone is a command chord too.
    v.on_key(KeyEvent::new(KeyCode::Char('x'), ALT));
    assert_eq!(v.app.query(), "bc");
    v.on_key(KeyEvent::new(KeyCode::Char('x'), NONE));
    assert_eq!(v.app.query(), "bcx");
    // Reopening the search puts the cursor at the end.
    v.press(KeyCode::Home);
    v.press(KeyCode::Enter);
    assert_eq!(v.app.focus(), Focus::Normal);
    v.press(KeyCode::Char('/'));
    assert_eq!((v.app.focus(), v.app.cursor()), (Focus::Search, 3));
}

#[test]
fn deleting_words() {
    let mut v = app_with(&["x"], false);
    v.press(KeyCode::Char('/'));
    v.type_in("one  two \t");
    v.on_key(KeyEvent::new(KeyCode::Char('w'), CONTROL));
    assert_eq!((v.app.query(), v.app.cursor()), ("one  ", 5));
    v.on_key(KeyEvent::new(KeyCode::Char('w'), CONTROL));
    assert_eq!((v.app.query(), v.app.cursor()), ("", 0));
    v.type_in("ab cd");
    v.press(KeyCode::Left);
    v.on_key(KeyEvent::new(KeyCode::Char('w'), CONTROL));
    assert_eq!((v.app.query(), v.app.cursor()), ("ab d", 3));
    // A no-break space is white space too.
    v.press(KeyCode::End);
    v.type_in("\u{a0}e");
    v.on_key(KeyEvent::new(KeyCode::Char('w'), CONTROL));
    assert_eq!(v.app.query(), "ab d\u{a0}");

    assert_eq!(word_start_in(&vec![false, true, false, false, true], 5), 2);
    assert_eq!(word_start_in(&vec![true, true], 2), 0);
    assert_eq!(word_start_in(&vec![], 0), 0);
}

#[test]
fn typing_then_backspace_restores_query_and_view() {
    let mut v = app_with(&["abc", "abd", "xyz"], false);
    v.press(KeyCode::Char('/'));
    v.type_in("ab");
    assert_eq!(v.view(), vec![0, 1]);
    v.type_in("c");
    assert_eq!(v.view(), vec![0]);
    v.press(KeyCode::Backspace);
    assert_eq!((v.app.query(), v.app.cursor()), ("ab", 2));
    assert_eq!(v.view(), vec![0, 1]);
    v.press(KeyCode::Backspace);
    v.press(KeyCode::Backspace);
    assert!(v.app.filter().is_none());
    assert_eq!(v.view(), vec![0, 1, 2]);
}

#[test]
fn toggling_the_mode_searches_again() {
    let mut v = app_with(&["a.c", "abc", "a--c"], false);
    v.press(KeyCode::Char('r'));
    assert_eq!(v.app.requested_mode(), MatchMode::Regex);
    v.press(KeyCode::Char('r'));
    assert_eq!(v.app.requested_mode(), MatchMode::Fuzzy);
    v.press(KeyCode::Char('/'));
    v.type_in("a.c");
    assert_eq!(v.view(), vec![0]); // fuzzy: the dot is a dot
    v.on_key(KeyEvent::new(KeyCode::Char('r'), CONTROL));
    assert_eq!(v.view(), vec![0, 1]); // regex: the dot is any character
    assert_eq!(v.app.filter().unwrap().effective_mode(), MatchMode::Regex);
    v.on_key(KeyEvent::new(KeyCode::Char('r'), CONTROL));
    assert_eq!(v.view(), vec![0]);
    assert_eq!(v.app.query(), "a.c");
    // substring goes to regex
    let mut w = Viewer::new(5, false, MatchMode::Substring, false);
    w.press(KeyCode::Char('r'));
    assert_eq!(w.app.requested_mode(), MatchMode::Regex);
}

#[test]
fn stepping_goes_around_both_ways() {
    let mut v = app_with(&["e1", "x", "e2", "e3"], false);
    v.press(KeyCode::Char('n')); // no filter: nothing happens
    assert_eq!(v.app.selected(), 0);
    v.press(KeyCode::Char('/'));
    v.type_in("e");
    v.press(KeyCode::Enter);
    v.press(KeyCode::Char('N'));
    assert_eq!(v.app.selected(), 2);
    assert!(v.app.follow());
    v.press(KeyCode::Char('n'));
    assert_eq!(v.app.selected(), 0);
    assert!(!v.app.follow());
    for _ in 0..3 {
        v.press(KeyCode::Char('n'));
    }
    assert_eq!(v.app.selected(), 0);
    v.press(KeyCode::Char('n'));
    v.press(KeyCode::Char('N'));
    assert_eq!(v.app.selected(), 0);
}

#[test]
fn stepping_by_any_distance_wraps() {
    let mut v = app_with(&["e0", "e1", "e2", "e3", "e4"], false);
    v.app.step_match(1); // no filter
    assert_eq!(v.app.selected(), 0);
    v.press(KeyCode::Char('/'));
    v.type_in("e");
    for (dir, row) in [(3, 3), (4, 2), (-4, 3), (-5, 3), (7, 0), (-1, 4), (0, 4), (-11, 3)] {
        v.app.step_match(dir);
        assert_eq!(v.app.selected(), row);
        assert_eq!(v.app.follow(), row == 4);
    }
    v.app.step_match(isize::MAX);
    v.app.step_match(isize::MIN);
    v.app.step_match(1);
    assert_eq!(v.app.selected(), 3);
}

#[test]
fn keys_can_be_handed_to_either_focus() {
    let mut v = app_with(&["a"], false);
    assert!(v.app.on_search_key(KeyEvent::from(KeyCode::Backspace)).is_none());
    let rescan = v.app.on_search_key(KeyEvent::from(KeyCode::Char('a')));
    v.carry_out(rescan);
    assert_eq!((v.app.query(), v.app.cursor()), ("a", 1));
    let rescan = v.app.toggle_mode();
    v.carry_out(rescan);
    assert_eq!((v.app.query(), v.app.requested_mode()), ("a", MatchMode::Regex));
    assert_eq!(v.app.filter().unwrap().effective_mode(), MatchMode::Regex);
    assert!(v.app.on_normal_key(KeyEvent::from(KeyCode::Esc)).is_none());
    assert!(v.app.toggle_mode().is_none());
    assert_eq!(v.app.requested_mode(), MatchMode::Fuzzy);
}

#[test]
fn live_filtering_agrees_with_searching_again() {
    for spill in [true, false] {
        let mut live = Viewer::new(100, false, MatchMode::Fuzzy, spill);
        live.press(KeyCode::Char('/'));
        live.type_in("er");
        let mut later = Viewer::new(100, false, MatchMode::Fuzzy, spill);
        for i in 0..60 {
            let line = if i % 3 == 0 { format!("error {i}") } else { format!("fine {i}") };
            live.push_line(&line);
            later.push_line(&line);
        }
        later.press(KeyCode::Char('/'));
        later.type_in("er");
        assert_eq!(live.view(), later.view());
        assert_eq!(live.view().len(), 20);
    }
}

#[test]
fn searching_without_a_spill_sees_the_ring_only() {
    let mut v = Viewer::new(2, true, MatchMode::Substring, false);
    for l in ["hit 1", "hit 2", "miss", "hit 3"] {
        v.push_line(l);
    }
    v.press(KeyCode::Char('/'));
    v.type_in("hit");
    assert_eq!(v.view(), vec![3]);
    // matches that the ring drops later stay in the list, though their text
    // is gone
    v.push_line("more");
    v.push_line("more");
    assert_eq!(v.view(), vec![3]);
    assert_eq!(v.line(3), None);
    assert_eq!(v.app.selected(), 0);
}

#[test]
fn clearing_keeps_a_parked_row_and_follows_otherwise() {
    let mut v = app_with(&["a1", "b", "a2", "c"], false);
    v.press(KeyCode::Char('/'));
    v.type_in("a");
    v.press(KeyCode::Enter);
    v.press(KeyCode::Char('n'));
    assert!(v.app.follow()); // the last match
    v.press(KeyCode::Esc);
    assert_eq!(v.app.selected(), 3);
    v.press(KeyCode::Char('g'));
    v.press(KeyCode::Char('/'));
    v.type_in("a");
    v.press(KeyCode::Esc);
    assert_eq!((v.app.selected(), v.app.focus()), (0, Focus::Normal));
}

#[test]
fn no_match_selects_row_zero() {
    let mut v = app_with(&["a", "b"], true);
    v.press(KeyCode::Char('/'));
    v.type_in("zzz");
    assert_eq!(v.app.view_len(), 0);
    assert_eq!(v.app.selected(), 0);
    assert_eq!(v.app.abs_at(0), None);
    v.press(KeyCode::Down);
    assert_eq!(v.app.selected(), 0);
}

#[test]
fn a_failed_write_leaves_the_ring_running() {
    let mut v = Viewer::new(2, true, MatchMode::Fuzzy, true);
    v.push_line("one");
    v.app.push_line("two".into(), Err("disk full".into()));
    assert_eq!(v.app.spill_error(), Some("disk full"));
    assert_eq!(v.app.spill_record("three"), None);
    v.app.push_line("three".into(), Ok(()));
    v.app.push_line("four".into(), Ok(()));
    assert_eq!(v.app.total_lines(), 4);
    assert_eq!(v.line(0).as_deref(), Some("one")); // stored before
    assert_eq!(v.line(1), None); // neither stored nor held
    assert_eq!(v.line(2).as_deref(), Some("three"));
    assert_eq!(v.line(3).as_deref(), Some("four"));
    // a search sees what is stored
    v.press(KeyCode::Char('/'));
    v.type_in("o");
    assert_eq!(v.view(), vec![0]);
}

#[test]
fn a_failed_flush_shows_as_spill_error() {
    let mut v = Viewer::new(1, true, MatchMode::Fuzzy, true);
    v.push_line("one");
    v.push_line("two");
    assert_eq!(v.app.spill_error(), None);
    v.app.spill_flushed(Err("disk full".into()));
    assert_eq!(v.app.spill_error(), Some("disk full"));
    v.app.spill_flushed(Err("again".into()));
    assert_eq!(v.app.spill_error(), Some("disk full"));
    assert_eq!(v.app.spill_record("three"), None);
    assert_eq!(v.line(1).as_deref(), Some("two"));
    // without a spill there is nothing to report
    let mut w = Viewer::new(1, true, MatchMode::Fuzzy, false);
    w.app.spill_flushed(Err("x".into()));
    assert_eq!(w.app.spill_error(), None);
}

#[test]
fn a_regex_of_empty_matches_hides_nothing() {
    let mut v = Viewer::new(5, false, MatchMode::Regex, false);
    v.push_line("abc");
    v.push_line("axc");
    v.press(KeyCode::Char('/'));
    v.type_in("x*");
    assert_eq!(v.view(), vec![0, 1]);
    assert_eq!(v.app.highlight_for_text("abc"), Some(vec![]));
    assert_eq!(v.app.highlight_for_text("axc"), Some(vec![1]));
}

#[test]
fn a_scan_that_cannot_read_ends_early() {
    let mut v = app_with(&["a1", "a2", "a3"], false);
    v.press(KeyCode::Char('/'));
    let mut rescan = v.app.on_key(KeyEvent::from(KeyCode::Char('a'))).unwrap();
    assert_eq!(rescan.scanned(), 0);
    v.app.scan_line(&mut rescan, "a1");
    assert_eq!(rescan.scanned(), 1);
    v.app.finish_scan(rescan);
    assert_eq!(v.view(), vec![0]);
}

#[test]
fn highlights_for_visible_text() {
    let mut v = Viewer::new(5, false, MatchMode::Substring, false);
    assert_eq!(v.app.highlight_for_text("abc"), None);
    v.press(KeyCode::Char('/'));
    v.type_in("bc");
    assert_eq!(v.app.highlight_for_text("abcBC"), Some(vec![1, 2, 3, 4]));
    assert_eq!(v.app.highlight_for_text("xyz"), None);
}

#[test]
fn messages_and_ticks() {
    let mut v = Viewer::new(5, true, MatchMode::Fuzzy, false);
    v.app.on_msg(Msg::Line("a".into()), Ok(()));
    v.app.on_msg(Msg::Line("b".into()), Ok(()));
    assert_eq!(v.app.selected(), 0);
    assert_eq!(v.app.end_drain(2), TICK_MILLIS);
    assert_eq!(v.app.selected(), 1);
    v.app.on_msg(Msg::Line("c".into()), Ok(()));
    assert_eq!(v.app.end_drain(0), 33);
    assert_eq!(v.app.selected(), 1); // nothing was taken in this tick
    assert!(App::may_drain(0));
    assert!(App::may_drain(MAX_DRAIN_PER_TICK - 1));
    assert!(!App::may_drain(8192));
    assert_eq!(v.app.end_drain(MAX_DRAIN_PER_TICK), 0);
    assert_eq!(v.app.selected(), 2);
    v.app.on_msg(Msg::Eof, Ok(()));
    assert_eq!(v.app.input_state(), InputState::Eof);
    v.app.on_msg(Msg::Failed("broken".into()), Ok(()));
    assert_eq!(v.app.input_state(), InputState::Error);
    assert_eq!(v.app.read_error(), Some("broken"));
    v.app.set_eof();
    assert_eq!(v.app.input_state(), InputState::Eof);
}

#[test]
fn terminal_input() {
    let mut v = app_with(&["0", "1", "2", "3", "4", "5", "6"], false);
    assert!(v.app.on_input(Input::ScrollDown).is_none());
    assert_eq!(v.app.selected(), 3);
    assert!(v.app.on_input(Input::ScrollUp).is_none());
    assert_eq!(v.app.selected(), 0);
    assert!(v.app.on_input(Input::Other).is_none());
    let quit = KeyEvent::from(KeyCode::Char('q'));
    assert!(v.app.on_input(Input::KeyRelease(quit)).is_none());
    assert!(!v.app.should_quit);
    assert!(v.app.on_input(Input::Key(quit)).is_none());
    assert!(v.app.should_quit);
}

#[test]
fn arrivals_leave_the_query_and_the_selection_alone() {
    let mut v = app_with(&["a1", "b", "a2"], false);
    v.press(KeyCode::Char('/'));
    v.type_in("a");
    v.press(KeyCode::Left);
    let before = (v.app.query().to_string(), v.app.cursor(), v.app.selected(), v.app.scroll());
    v.push_line("a3");
    v.push_line("c");
    v.app.on_msg(Msg::Eof, Ok(()));
    v.app.after_batch();
    let after = (v.app.query().to_string(), v.app.cursor(), v.app.selected(), v.app.scroll());
    assert_eq!(before, after);
    assert_eq!(v.view(), vec![0, 2, 3]);
    assert_eq!(v.app.focus(), Focus::Search);
}

#[test]
fn ctrl_u_at_the_start_searches_again() {
    let mut v = Viewer::new(1, false, MatchMode::Substring, false);
    v.push_line("hit 1");
    v.press(KeyCode::Char('/'));
    v.type_in("hit");
    v.push_line("hit 2");
    assert_eq!(v.view(), vec![0, 1]);
    v.press(KeyCode::Home);
    v.on_key(KeyEvent::new(KeyCode::Char('u'), CONTROL));
    assert_eq!(v.app.query(), "hit");
    assert_eq!(v.view(), vec![1]); // only what the ring still holds
}
