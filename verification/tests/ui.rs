//! What a frame shows.

use logtui::app::App;
use logtui::filter::MatchMode;
use logtui::keys::{KeyCode, KeyEvent, KeyModifiers};
use logtui::ui::{
    base_style, begin_frame, compose_row, draw, gutter_style, hl_style, plan_frame, render_row,
    search_bar, status_bar, thousands, Area, Color, FramePlan, Line, Screen, Style,
};

const PLAIN: Style = Style { fg: None, bg: None, bold: false };

fn text(line: &Line) -> String {
    line.spans.iter().map(|s| s.text.as_str()).collect()
}

fn app_with(lines: &[&str], cap: usize, mode: MatchMode) -> App {
    let mut app = App::new(cap, false, mode, false);
    for l in lines {
        app.push_line(l.to_string(), Ok(()));
    }
    app
}

fn press(app: &mut App, text: &str) {
    for c in text.chars() {
        assert!(app.on_key(KeyEvent::from(KeyCode::Char(c))).is_none());
    }
}

/// A frame with the text of every row that the ring holds.
fn frame(app: &mut App, area: Area) -> (FramePlan, Screen) {
    let plan = begin_frame(app, area);
    let texts = (plan.top..plan.bottom)
        .map(|row| {
            let abs = app.abs_at(row)?;
            app.buffer().get_abs(abs).map(String::from)
        })
        .collect();
    let screen = draw(app, &plan, &texts);
    (plan, screen)
}

fn area(width: u16, height: u16) -> Area {
    Area { x: 0, y: 0, width, height }
}

#[test]
fn thousands_separators() {
    for (n, s) in [
        (0, "0"),
        (7, "7"),
        (42, "42"),
        (999, "999"),
        (1000, "1,000"),
        (12345, "12,345"),
        (123456, "123,456"),
        (1234567, "1,234,567"),
        (u64::MAX, "18,446,744,073,709,551,615"),
    ] {
        assert_eq!(thousands(n), s);
        assert_eq!(thousands(n).replace(',', ""), n.to_string());
    }
}

#[test]
fn styles() {
    assert_eq!(base_style(), Style { fg: Some(Color::Gray), ..PLAIN });
    assert_eq!(hl_style(), Style { fg: Some(Color::Yellow), bg: None, bold: true });
    assert_eq!(gutter_style(), Style { fg: Some(Color::DarkGray), ..PLAIN });
}

#[test]
fn row_pieces() {
    let row = compose_row(7, "abcdef", &Some(vec![1, 2, 4]), false, 4, 80, 0);
    let got: Vec<(&str, Style)> = row.spans.iter().map(|s| (s.text.as_str(), s.style)).collect();
    assert_eq!(
        got,
        vec![
            ("   7 ", gutter_style()),
            ("a", base_style()),
            ("bc", hl_style()),
            ("d", base_style()),
            ("e", hl_style()),
            ("f", base_style()),
        ]
    );
    assert_eq!(row.style, PLAIN);
    let row = compose_row(7, "abc", &None, true, 1, 80, 0);
    assert_eq!(text(&row), "7 abc");
    assert_eq!(row.style, Style { fg: None, bg: Some(Color::Rgb(40, 44, 60)), bold: true });
}

#[test]
fn row_clipping_and_sideways_scroll() {
    let line = "0123456789";
    let row = |width, hscroll| text(&compose_row(1, line, &Some(vec![3, 4]), false, 2, width, hscroll));
    assert_eq!(row(10, 0), " 1 0123456789");
    assert_eq!(row(9, 0), " 1 012345678→");
    assert_eq!(row(4, 2), " 1 2345→");
    assert_eq!(row(4, 6), " 1 6789");
    assert_eq!(row(4, 8), " 1 89");
    assert_eq!(row(4, 10), " 1 ");
    assert_eq!(row(4, 99), " 1 ");
    assert_eq!(row(0, 0), " 1 →");
    assert_eq!(row(0, 10), " 1 ");
    assert_eq!(row(usize::MAX, 1), " 1 123456789");
    assert_eq!(row(1, usize::MAX), " 1 ");
    // highlighting goes by the index in the whole line
    let clipped = compose_row(1, line, &Some(vec![3, 4]), false, 2, 3, 4);
    assert_eq!(clipped.spans[1].text, "4");
    assert_eq!(clipped.spans[1].style, hl_style());
    assert_eq!(clipped.spans[2].text, "56");
    assert_eq!(clipped.spans[3].text, "→");
    assert_eq!(clipped.spans[3].style, gutter_style());
    // text is measured in characters
    assert_eq!(text(&compose_row(1, "grüße", &None, false, 1, 4, 1)), "1 rüße");
    // nothing to highlight in a match
    assert_eq!(text(&compose_row(1, "ab", &Some(vec![]), false, 1, 4, 0)), "1 ab");
    assert_eq!(text(&compose_row(1234567, "", &None, false, 4, 4, 0)), "1234567 ");
}

#[test]
fn rows_of_the_view() {
    let mut app = app_with(&["hit a", "miss", "hit b"], 10, MatchMode::Substring);
    let row = render_row(&app, 2, "hit b", 4, 20, 0).unwrap();
    assert_eq!(text(&row), "   3 hit b");
    assert!(render_row(&app, 3, "x", 4, 20, 0).is_none());
    press(&mut app, "/hit");
    let row = render_row(&app, 1, "hit b", 4, 20, 0).unwrap();
    assert_eq!(text(&row), "   3 hit b");
    assert_eq!(row.spans[1].text, "hit");
    assert_eq!(row.spans[1].style, hl_style());
    assert!(!row.style.bold);
    assert!(render_row(&app, 0, "hit a", 4, 20, 0).unwrap().style.bold);
    assert!(render_row(&app, 2, "x", 4, 20, 0).is_none());
}

#[test]
fn status_texts() {
    let help = "  /:filter n/N:match g/G:top/bottom r:mode q:quit";
    let app = App::new(5, true, MatchMode::Fuzzy, true);
    assert_eq!(
        text(&status_bar(&app)),
        format!(" logtui  0 lines  │  ● LIVE  FOLLOW  │  0/0{help}")
    );

    let mut app = app_with(&["a", "b", "c"], 2, MatchMode::Fuzzy);
    app.set_eof();
    assert_eq!(
        text(&status_bar(&app)),
        format!(" logtui  3 lines (1 dropped)  │  ■ EOF  │  1/3{help}")
    );
    app.set_read_error("boom".into());
    let bar = status_bar(&app);
    assert_eq!(
        text(&bar),
        format!(" logtui  3 lines (1 dropped)  │  ■ READ ERROR (boom)  │  1/3{help}")
    );
    assert_eq!(bar.spans[0].style, Style { fg: Some(Color::Black), bg: Some(Color::Cyan), bold: true });
    assert_eq!(bar.spans[1].style.fg, Some(Color::White));
    assert_eq!(bar.spans[2].style.fg, Some(Color::Red));
    assert_eq!(bar.spans[3].style.fg, Some(Color::Red));
    assert_eq!(bar.spans[4].style.fg, Some(Color::DarkGray));
}

#[test]
fn status_with_spill_and_filter() {
    let help = "  /:filter n/N:match g/G:top/bottom r:mode q:quit";
    let mut app = App::new(1, false, MatchMode::Regex, true);
    app.push_line("ab".into(), Ok(()));
    app.push_line("ac".into(), Err("disk full".into()));
    assert_eq!(
        text(&status_bar(&app)),
        format!(" logtui  2 lines  │  ⚠ spill failed: disk full  │  ● LIVE  │  1/2{help}")
    );

    let mut app = app_with(&["ab", "ac"], 5, MatchMode::Regex);
    press(&mut app, "/a.");
    assert_eq!(
        text(&status_bar(&app)),
        format!(" logtui  2 lines  │  filter \"a.\" [regex]  2 matches  │  ● LIVE  │  1/2{help}")
    );
    press(&mut app, "(");
    assert_eq!(
        text(&status_bar(&app)),
        format!(
            " logtui  2 lines  │  filter \"a.(\" [substr]  0 matches (invalid regex → substr)  \
             │  ● LIVE  │  0/0{help}"
        )
    );
}

#[test]
fn large_counts_have_separators() {
    let mut app = App::new(10, true, MatchMode::Fuzzy, false);
    for _ in 0..1234 {
        app.push_line("x".into(), Ok(()));
    }
    app.after_batch();
    let bar = text(&status_bar(&app));
    assert!(bar.contains(" 1,234 lines (1,224 dropped)"));
    assert!(bar.contains("  │  1234/1,234"));
}

#[test]
fn search_texts() {
    let mut app = app_with(&["a"], 5, MatchMode::Regex);
    press(&mut app, "/a(");
    let bar = search_bar(&app);
    assert_eq!(text(&bar), "/a(  [regex]  invalid regex — substring fallback");
    assert_eq!(bar.spans[0].style.fg, Some(Color::Cyan));
    assert_eq!(bar.spans[1].style, PLAIN);
    assert_eq!(bar.spans[3].style.fg, Some(Color::Red));
    press(&mut app, ")");
    assert_eq!(text(&search_bar(&app)), "/a()  [regex]");
}

#[test]
fn layout_of_a_frame() {
    let mut app = app_with(&["a", "b", "c"], 5, MatchMode::Fuzzy);
    for (width, height) in [(80, 24), (1, 2), (0, 2), (200, 3), (10, 1000), (65535, 65535)] {
        let place = Area { x: 0, y: 0, width, height };
        let plan = begin_frame(&mut app, place);
        assert_eq!(plan.list, Area { height: height - 1, ..place });
        assert_eq!(plan.status, Area { y: height - 1, height: 1, ..place });
        assert_eq!(plan.search, None);
    }
    let place = Area { x: 3, y: 5, width: 40, height: 10 };
    let plan = begin_frame(&mut app, place);
    assert_eq!(plan.list, Area { height: 9, ..place });
    assert_eq!(plan.status, Area { y: 14, height: 1, ..place });
    press(&mut app, "/");
    for height in [3, 4, 24, 1000, 60000] {
        let plan = begin_frame(&mut app, Area { height, ..place });
        assert_eq!(plan.list, Area { height: height - 2, ..place });
        assert_eq!(plan.status, Area { y: 5 + height - 2, height: 1, ..place });
        assert_eq!(plan.search, Some(Area { y: 5 + height - 1, height: 1, ..place }));
    }
    // The bar stays as long as there is a query.
    press(&mut app, "x");
    assert!(app.on_key(KeyEvent::from(KeyCode::Enter)).is_none());
    assert!(begin_frame(&mut app, place).search.is_some());
    assert!(app.on_key(KeyEvent::from(KeyCode::Esc)).is_none());
    assert!(begin_frame(&mut app, place).search.is_none());
}

#[test]
fn tiny_areas_go_to_the_list_first() {
    for (searching, bars) in [(false, 1), (true, 2)] {
        let mut app = app_with(&["a", "b"], 5, MatchMode::Fuzzy);
        if searching {
            press(&mut app, "/");
        }
        for height in 0..=bars {
            let place = Area { x: 2, y: 1, width: 7, height };
            let plan = begin_frame(&mut app, place);
            let rows = if height == 0 { 0 } else { 1 };
            assert_eq!(plan.list, Area { height: rows, ..place });
            assert_eq!((plan.status.x, plan.status.width), (2, 7));
            assert_eq!(plan.status.y, 1 + rows);
            match plan.search {
                Some(bar) => {
                    assert_eq!((bar.x, bar.width), (2, 7));
                    assert_eq!(bar.y, plan.status.y + plan.status.height);
                    assert_eq!(bar.y + bar.height, 1 + height);
                    // the status has a row before the search has one
                    assert_eq!(plan.status.height, if height == 2 { 1 } else { 0 });
                }
                None => assert_eq!(plan.status.height, height - rows),
            }
            assert!(plan.top <= plan.bottom);
        }
    }
}

#[test]
fn two_rows_go_to_list_and_status_wherever_they_are() {
    let mut app = app_with(&["a", "b"], 5, MatchMode::Fuzzy);
    press(&mut app, "/");
    for y in [0, 1, 2, 3, 10, 99, 1000, 32767, 65533] {
        let place = Area { x: 0, y, width: 80, height: 2 };
        let plan = begin_frame(&mut app, place);
        assert_eq!(plan.list, Area { height: 1, ..place });
        assert_eq!(plan.status, Area { y: y + 1, height: 1, ..place });
        assert_eq!(plan.search, Some(Area { y: y + 2, height: 0, ..place }));
    }
}

#[test]
fn plan_of_the_list() {
    let mut app = App::new(100, true, MatchMode::Fuzzy, false);
    for i in 0..30 {
        app.push_line(format!("{i}"), Ok(()));
    }
    app.after_batch();
    let list = Area { x: 0, y: 0, width: 20, height: 10 };
    let plan = plan_frame(&mut app, list, list, None);
    assert_eq!((plan.top, plan.bottom), (20, 30));
    assert_eq!((plan.gutter_w, plan.content_w, plan.hscroll), (4, 15, 0));
    assert!(plan.top <= app.selected() && app.selected() < plan.bottom);
    let narrow = plan_frame(&mut app, Area { width: 3, ..list }, list, None);
    assert_eq!(narrow.content_w, 0);
    let flat = plan_frame(&mut app, Area { height: 0, ..list }, list, None);
    assert_eq!(flat.top, flat.bottom);
    for i in 30..10_000 {
        app.push_line(format!("{i}"), Ok(()));
    }
    assert!(app.on_key(KeyEvent::from(KeyCode::Right)).is_none());
    let wide = plan_frame(&mut app, list, list, None);
    assert_eq!((wide.gutter_w, wide.content_w, wide.hscroll), (5, 14, 8));
}

#[test]
fn whole_frames() {
    let mut app = app_with(&["one", "two", "three"], 10, MatchMode::Substring);
    let (plan, screen) = frame(&mut app, area(20, 3));
    assert_eq!((plan.top, plan.bottom), (0, 2));
    let lines: Vec<String> = screen.list.iter().map(text).collect();
    assert_eq!(lines, vec!["   1 one", "   2 two"]);
    assert!(screen.list[0].style.bold);
    assert!(!screen.list[1].style.bold);
    assert!(screen.search.is_none());
    assert_eq!(screen.cursor, None);
    assert_eq!(screen.status_style, Style { fg: None, bg: Some(Color::Rgb(24, 26, 36)), bold: false });
    press(&mut app, "/t");
    let (_, screen) = frame(&mut app, area(20, 5));
    let lines: Vec<String> = screen.list.iter().map(text).collect();
    assert_eq!(lines, vec!["   2 two", "   3 three"]);
    assert_eq!(text(screen.search.as_ref().unwrap()), "/t  [substr]");
    assert_eq!(screen.cursor, Some((2, 4)));
}

#[test]
fn rows_without_text_are_skipped() {
    let mut app = app_with(&["hit 1", "x"], 2, MatchMode::Substring);
    press(&mut app, "/hit");
    app.push_line("hit 2".into(), Ok(())); // evicts "hit 1", a match still listed
    let (plan, screen) = frame(&mut app, area(20, 10));
    assert_eq!((plan.top, plan.bottom), (0, 2));
    let lines: Vec<String> = screen.list.iter().map(text).collect();
    assert_eq!(lines, vec!["   3 hit 2"]);
}

#[test]
fn empty_lists_say_why() {
    let message = |app: &mut App| text(&frame(app, area(60, 10)).1.list[0]);
    let mut app = App::new(5, true, MatchMode::Fuzzy, false);
    assert_eq!(message(&mut app), "  waiting for input on stdin…");
    app.set_eof();
    assert_eq!(message(&mut app), "  input is empty (EOF)");
    app.set_read_error("x".into());
    assert_eq!(message(&mut app), "  reading stdin failed — see status bar");
    press(&mut app, "/q");
    assert_eq!(message(&mut app), "  no matches — edit the filter or press Esc to clear");
    assert_eq!(frame(&mut app, area(60, 10)).1.list.len(), 1);
}

#[test]
fn the_cursor_stays_in_the_search_bar() {
    let mut app = app_with(&["a"], 5, MatchMode::Fuzzy);
    press(&mut app, "/abcdef");
    let cell = |app: &mut App, x, width| frame(app, Area { x, y: 0, width, height: 10 }).1.cursor;
    assert_eq!(cell(&mut app, 0, 80), Some((7, 9)));
    assert_eq!(cell(&mut app, 10, 80), Some((17, 9)));
    assert_eq!(cell(&mut app, 0, 8), Some((7, 9)));
    assert_eq!(cell(&mut app, 0, 5), Some((4, 9)));
    assert_eq!(cell(&mut app, 0, 1), Some((0, 9)));
    assert_eq!(cell(&mut app, 65530, 5), Some((65534, 9)));
    let control = KeyModifiers { control: true, alt: false };
    assert!(app.on_key(KeyEvent::new(KeyCode::Char('a'), control)).is_none());
    assert_eq!(cell(&mut app, 0, 80), Some((1, 9)));
    assert!(app.on_key(KeyEvent::from(KeyCode::Enter)).is_none());
    assert_eq!(cell(&mut app, 0, 80), None); // no focus, no cursor
}
