//! Text helpers.

use logtui::text::{decimal, from_chars, to_chars};
use logtui::ui::compose_row;

#[test]
fn characters_in_and_out() {
    assert_eq!(to_chars("grüße"), vec!['g', 'r', 'ü', 'ß', 'e']);
    assert_eq!(from_chars(&vec!['a', '→', '\u{1f600}']), "a→\u{1f600}");
    assert_eq!(from_chars(&to_chars("")), "");
    assert_eq!(from_chars(&to_chars("a\tb — c")), "a\tb — c");
}

#[test]
fn decimal_numbers() {
    for n in [0, 1, 9, 10, 11, 99, 100, 101, 4096, 1_000_000, u64::MAX] {
        assert_eq!(decimal(n), n.to_string());
    }
}

#[test]
fn line_numbers_line_up() {
    for n in [1, 9, 10, 99, 100, 1000, 9999] {
        let row = compose_row(n, "", &None, false, 4, 10, 0);
        assert_eq!(row.spans[0].text.chars().count(), 5);
        assert_eq!(row.spans[0].text.trim(), n.to_string());
    }
}
