//! From raw input to clean lines.

use logtui::reader::{ends_input, message_for, sanitize_line, strip_controls, Msg};

#[test]
fn sanitize_strips_terminators_and_decodes_lossily() {
    assert_eq!(sanitize_line(b"hello\n"), "hello");
    assert_eq!(sanitize_line(b"hello\r\n"), "hello");
    assert_eq!(sanitize_line(b"no newline"), "no newline");
    // Invalid UTF-8 must not kill the stream: bad bytes become U+FFFD.
    assert_eq!(sanitize_line(b"bad \xff byte\n"), "bad \u{fffd} byte");
}

#[test]
fn plain_text_unchanged() {
    assert_eq!(strip_controls("hello world"), "hello world");
    assert_eq!(strip_controls("tab\there"), "tab\there");
}

#[test]
fn strips_csi_color_codes() {
    assert_eq!(strip_controls("\x1b[31mred\x1b[0m"), "red");
    assert_eq!(strip_controls("\x1b[1;32mbold green\x1b[m"), "bold green");
}

#[test]
fn strips_osc_title_sequence() {
    // OSC 0 ; title BEL: window title injection
    assert_eq!(strip_controls("\x1b]0;evil title\x07text"), "text");
    // OSC terminated by ST (ESC \)
    assert_eq!(strip_controls("\x1b]0;title\x1b\\after"), "after");
}

#[test]
fn strips_dcs_sequence() {
    assert_eq!(strip_controls("\x1bPdata\x1b\\visible"), "visible");
}

#[test]
fn strips_fe_two_char_sequences() {
    // ESC M = reverse index
    assert_eq!(strip_controls("\x1bMtext"), "text");
}

#[test]
fn strips_c0_controls_except_tab() {
    assert_eq!(strip_controls("a\x00b\x07c\x08d"), "abcd");
    assert_eq!(strip_controls("col1\tcol2"), "col1\tcol2");
}

#[test]
fn strips_c1_controls() {
    // U+0085 (NEL), U+009B (CSI as single byte)
    assert_eq!(strip_controls("a\u{85}b\u{9b}c"), "abc");
}

#[test]
fn keystroke_injection_via_terminal_query_blocked() {
    // ESC [ c = device attributes query; the terminal responds by injecting
    // bytes into stdin. After stripping, the ESC sequence is gone.
    let injected = "look at this\x1b[cmalicious";
    assert_eq!(strip_controls(injected), "look at thismalicious");
}

#[test]
fn unfinished_sequences_swallow_the_rest() {
    assert_eq!(strip_controls("a\x1b"), "a");
    assert_eq!(strip_controls("a\x1b["), "a");
    assert_eq!(strip_controls("a\x1b[12;34"), "a");
    assert_eq!(strip_controls("a\x1b]0;title"), "a");
    assert_eq!(strip_controls("a\x1b]0;title\x1b"), "a");
}

#[test]
fn string_sequences_end_where_they_should() {
    for opener in ['P', 'X', '^', '_', ']'] {
        assert_eq!(strip_controls(&format!("x\x1b{opener}data\x1b\\y")), "xy");
        // An escape that is no part of ST belongs to the sequence.
        assert_eq!(strip_controls(&format!("x\x1b{opener}da\x1b[1mta\x1b\x1b\\y")), "xy");
        assert_eq!(strip_controls(&format!("x\x1b{opener}data\x1by")), "x");
    }
    // BEL ends an OSC, and nothing else.
    assert_eq!(strip_controls("x\x1b]data\x07y"), "xy");
    for opener in ['P', 'X', '^', '_'] {
        assert_eq!(strip_controls(&format!("x\x1b{opener}da\x07ta\x1b\\y")), "xy");
        assert_eq!(strip_controls(&format!("x\x1b{opener}data\x07y")), "x");
    }
    assert_eq!(strip_controls("\x1bPa\x07b\x1b\\c"), "c");
}

#[test]
fn terminators_never_change_a_line() {
    for text in ["", "abc", "a\x1b", "a\x1b[1", "a\x1b]title", "a\x1bPdata\x1b", "\x1b[1mb", "ü"] {
        let line = sanitize_line(text.as_bytes());
        assert_eq!(line, strip_controls(text));
        for end in ["\n", "\r\n", "\n\n\r", "\r"] {
            let whole = format!("{text}{end}");
            assert_eq!(sanitize_line(whole.as_bytes()), line);
            assert_eq!(strip_controls(&whole), line);
        }
    }
    assert_eq!(sanitize_line(b"a\xff"), sanitize_line(b"a\xff\r\n"));
}

#[test]
fn csi_runs_to_its_final_byte() {
    assert_eq!(strip_controls("\x1b[@a"), "a");
    assert_eq!(strip_controls("\x1b[~a"), "a");
    assert_eq!(strip_controls("\x1b[ 1?\x07qa"), "a");
    assert_eq!(strip_controls("\x1b[\u{e9}Ha"), "a");
    assert_eq!(strip_controls("\x1b\x1b[31m"), "[31m");
    assert_eq!(strip_controls("\x7fdel\x1f"), "del");
    assert_eq!(strip_controls("\u{80}\u{9f}\u{a0}"), "\u{a0}");
}

#[test]
fn stripping_twice_changes_nothing_more() {
    for line in ["\x1b[31mred\x1b[0m", "a\x00b", "\x1b\x1b[31m", "tab\t", "", "x\x1b]y"] {
        let once = strip_controls(line);
        assert_eq!(strip_controls(&once), once);
        assert!(once.chars().all(|c| c == '\t' || !c.is_control()));
    }
}

#[test]
fn every_trailing_terminator_goes() {
    assert_eq!(sanitize_line(b""), "");
    assert_eq!(sanitize_line(b"\n"), "");
    assert_eq!(sanitize_line(b"a\r\r\n\n\r"), "a");
    assert_eq!(sanitize_line(b"a\nb\n"), "ab");
    assert_eq!(sanitize_line("grüße\n".as_bytes()), "grüße");
    assert_eq!(sanitize_line(b"\xc3(\n"), "\u{fffd}(");
}

#[test]
fn reads_become_messages() {
    let line = message_for(Ok(3), b"hi\n");
    assert!(matches!(&line, Msg::Line(text) if text == "hi"));
    assert!(!ends_input(&line));
    let eof = message_for(Ok(0), b"");
    assert!(matches!(eof, Msg::Eof));
    assert!(ends_input(&eof));
    let failed = message_for(Err("boom".into()), b"partial");
    assert!(matches!(&failed, Msg::Failed(why) if why == "boom"));
    assert!(ends_input(&failed));
}
