//! What a frame shows: line list (with gutter, selection, match highlight,
//! horizontal scroll), status bar, and the search bar.
//!
//! Everything here is composed as plain spans of styled text; putting them on
//! a terminal is left to whoever owns one.

use crate::app::App;
use crate::filter::{hits_view, mode_label, FilterView, MatchMode};
use crate::state::{AppView, Focus, InputState};
use crate::text::{decimal, digits, to_chars};
use ratatui::layout::{Constraint, Layout, Rect};
use vstd::prelude::*;
use vstd::string::*;

verus! {

// ----------------------------------------------------------------- styles

#[derive(Debug, Clone, Copy, PartialEq, Eq)]
pub enum Color {
    Black,
    Red,
    Green,
    Yellow,
    Cyan,
    Gray,
    DarkGray,
    White,
    Rgb(u8, u8, u8),
}

/// How text looks; what is not set is left as the terminal has it.
#[derive(Debug, Clone, Copy, PartialEq, Eq)]
pub struct Style {
    pub fg: Option<Color>,
    pub bg: Option<Color>,
    pub bold: bool,
}

/// Nothing set.
pub open spec fn plain() -> Style {
    Style { fg: None, bg: None, bold: false }
}

/// Only a text colour set.
pub open spec fn colored(color: Color) -> Style {
    Style { fg: Some(color), bg: None, bold: false }
}

/// Matched characters.
pub open spec fn highlighted() -> Style {
    Style { fg: Some(Color::Yellow), bg: None, bold: true }
}

/// The program's name in the status bar.
pub open spec fn title() -> Style {
    Style { fg: Some(Color::Black), bg: Some(Color::Cyan), bold: true }
}

/// The selected row.
pub open spec fn selection() -> Style {
    Style { fg: None, bg: Some(Color::Rgb(40, 44, 60)), bold: true }
}

/// The status bar as a whole.
pub open spec fn status_background() -> Style {
    Style { fg: None, bg: Some(Color::Rgb(24, 26, 36)), bold: false }
}

fn plain_style() -> (style: Style)
    ensures
        style == plain(),
{
    Style { fg: None, bg: None, bold: false }
}

fn color_style(color: Color) -> (style: Style)
    ensures
        style == colored(color),
{
    Style { fg: Some(color), bg: None, bold: false }
}

pub fn base_style() -> (style: Style)
    ensures
        style == colored(Color::Gray),
{
    color_style(Color::Gray)
}

pub fn hl_style() -> (style: Style)
    ensures
        style == highlighted(),
{
    Style { fg: Some(Color::Yellow), bg: None, bold: true }
}

pub fn gutter_style() -> (style: Style)
    ensures
        style == colored(Color::DarkGray),
{
    color_style(Color::DarkGray)
}

// ------------------------------------------------------------ styled text

/// A piece of text in one style.
#[derive(Debug, PartialEq, Eq)]
pub struct Span {
    pub text: String,
    pub style: Style,
}

pub struct SpanView {
    pub text: Seq<char>,
    pub style: Style,
}

impl View for Span {
    type V = SpanView;

    open spec fn view(&self) -> SpanView {
        SpanView { text: self.text@, style: self.style }
    }
}

/// One line on the screen; `style` lies under the styles of the spans.
#[derive(Debug, PartialEq, Eq)]
pub struct Line {
    pub spans: Vec<Span>,
    pub style: Style,
}

pub struct LineView {
    pub spans: Seq<SpanView>,
    pub style: Style,
}

/// Spans as their views.
pub open spec fn span_views(spans: Seq<Span>) -> Seq<SpanView> {
    spans.map_values(|s: Span| s@)
}

impl View for Line {
    type V = LineView;

    open spec fn view(&self) -> LineView {
        LineView { spans: span_views(self.spans@), style: self.style }
    }
}

pub open spec fn span(text: Seq<char>, style: Style) -> SpanView {
    SpanView { text, style }
}

/// The text of some spans, put together.
pub open spec fn text_of(spans: Seq<SpanView>) -> Seq<char>
    decreases spans.len(),
{
    if spans.len() == 0 {
        Seq::empty()
    } else {
        text_of(spans.drop_last()) + spans.last().text
    }
}

fn push_span(spans: &mut Vec<Span>, text: String, style: Style)
    ensures
        span_views(final(spans)@) == span_views(old(spans)@).push(span(text@, style)),
{
    spans.push(Span { text, style });
    assert(span_views(spans@) =~= span_views(old(spans)@).push(span(text@, style)));
}

// ---------------------------------------------------------------- numbers

/// Digits in groups of three from the right, with commas between them.
pub open spec fn grouped(number: Seq<char>) -> Seq<char>
    decreases number.len(),
{
    if number.len() <= 3 {
        number
    } else {
        grouped(number.take(number.len() - 3)).push(',') + number.skip(number.len() - 3)
    }
}

/// The first `n` digits with their commas: one before each digit (except the
/// first) from which on the number of digits left is a multiple of three.
spec fn grouped_upto(number: Seq<char>, n: nat) -> Seq<char>
    decreases n,
{
    if n == 0 {
        Seq::empty()
    } else {
        let before = grouped_upto(number, (n - 1) as nat);
        if n > 1 && (number.len() - (n - 1)) % 3 == 0 {
            before.push(',').push(number[n - 1])
        } else {
            before.push(number[n - 1])
        }
    }
}

proof fn lemma_grouped_upto_shorter(number: Seq<char>, n: nat)
    requires
        n + 3 <= number.len(),
    ensures
        grouped_upto(number, n) == grouped_upto(number.take(number.len() - 3), n),
    decreases n,
{
    if n > 0 {
        lemma_grouped_upto_shorter(number, (n - 1) as nat);
    }
}

proof fn lemma_grouped_upto(number: Seq<char>)
    ensures
        grouped_upto(number, number.len()) == grouped(number),
    decreases number.len(),
{
    reveal_with_fuel(grouped_upto, 4);
    let len = number.len();
    if len <= 3 {
        assert(grouped_upto(number, len) =~= number);
    } else {
        let head = number.take(len - 3);
        lemma_grouped_upto(head);
        lemma_grouped_upto_shorter(number, (len - 3) as nat);
        assert(grouped_upto(number, len) =~= grouped(head).push(',') + number.skip(len - 3));
    }
}

/// `n` in decimal with thousands separators.
pub fn thousands(n: u64) -> (s: String)
    ensures
        s@ == grouped(digits(n as nat)),
{
    let number = to_chars(decimal(n).as_str());
    let mut out = String::new();
    let mut i: usize = 0;
    while i < number.len()
        invariant
            i <= number@.len(),
            out@ == grouped_upto(number@, i as nat),
        decreases number@.len() - i,
    {
        if i > 0 && (number.len() - i) % 3 == 0 {
            out.push(',');
        }
        out.push(number[i]);
        i += 1;
    }
    proof {
        lemma_grouped_upto(number@);
    }
    out
}

/// Leading blanks bring a text to at least `width` characters.
pub open spec fn right_aligned(text: Seq<char>, width: int) -> Seq<char> {
    if text.len() < width {
        Seq::new((width - text.len()) as nat, |i: int| ' ') + text
    } else {
        text
    }
}

/// `n` in decimal, right-aligned in `width` characters, and one blank.
fn gutter(n: u64, width: usize) -> (s: String)
    ensures
        s@ == right_aligned(digits(n as nat), width as int).push(' '),
{
    let number = decimal(n);
    let len = number.as_str().unicode_len();
    let mut out = String::new();
    let mut blanks: usize = 0;
    while blanks < width && width - blanks > len
        invariant
            blanks <= width,
            blanks > 0 ==> blanks + len <= width,
            out@ == Seq::new(blanks as nat, |i: int| ' '),
        decreases width - blanks,
    {
        out.push(' ');
        blanks += 1;
        assert(out@ =~= Seq::new(blanks as nat, |i: int| ' '));
    }
    out.append(number.as_str());
    out.push(' ');
    assert(out@ =~= right_aligned(digits(n as nat), width as int).push(' '));
    out
}

// -------------------------------------------------------------------- rows

/// Whether a character is highlighted.
pub open spec fn is_lit(hits: Option<Seq<usize>>, i: int) -> bool {
    hits matches Some(h) && h.contains(i as usize)
}

pub open spec fn char_style(lit: bool) -> Style {
    if lit {
        highlighted()
    } else {
        colored(Color::Gray)
    }
}

/// Where the run of equally lit characters that ends at `hi` starts, not
/// before `lo`.
pub open spec fn run_start(hits: Option<Seq<usize>>, lo: int, hi: int) -> int
    decreases hi - lo,
{
    if lo < hi - 1 && is_lit(hits, hi - 2) == is_lit(hits, hi - 1) {
        run_start(hits, lo, hi - 1)
    } else {
        hi - 1
    }
}

/// The characters `lo .. hi` of a text, in the longest runs of equally lit
/// characters.
pub open spec fn pieces(text: Seq<char>, hits: Option<Seq<usize>>, lo: int, hi: int) -> Seq<
    SpanView,
>
    decreases hi - lo,
    via pieces_decreases
{
    if hi <= lo {
        Seq::empty()
    } else {
        let start = run_start(hits, lo, hi);
        pieces(text, hits, lo, start).push(
            span(text.subrange(start, hi), char_style(is_lit(hits, hi - 1))),
        )
    }
}

#[via_fn]
proof fn pieces_decreases(text: Seq<char>, hits: Option<Seq<usize>>, lo: int, hi: int) {
    if lo < hi {
        lemma_run_start(hits, lo, hi);
    }
}

proof fn lemma_run_start(hits: Option<Seq<usize>>, lo: int, hi: int)
    requires
        lo < hi,
    ensures
        lo <= run_start(hits, lo, hi) < hi,
    decreases hi - lo,
{
    if lo < hi - 1 {
        lemma_run_start(hits, lo, hi - 1);
    }
}

/// The part of a text of `len` characters that is seen through a window of
/// `width` characters that starts at `hscroll`: from where, and to where.
pub open spec fn visible_from(len: int, hscroll: int) -> int {
    crate::state::min(hscroll, len)
}

pub open spec fn visible_to(len: int, hscroll: int, width: int) -> int {
    crate::state::min(hscroll + width, len)
}

/// One visible row: dimmed line number, content with matched characters
/// highlighted, scrolled sideways by `hscroll` and clipped to `width`
/// characters, and an arrow where it goes on.
pub open spec fn row_line(
    number: nat,
    text: Seq<char>,
    hits: Option<Seq<usize>>,
    selected: bool,
    gutter_w: int,
    width: int,
    hscroll: int,
) -> LineView {
    let len = text.len() as int;
    let content = pieces(
        text,
        hits,
        visible_from(len, hscroll),
        visible_to(len, hscroll, width),
    );
    let left = seq![
        span(right_aligned(digits(number), gutter_w).push(' '), colored(Color::DarkGray)),
    ];
    let right = if len > hscroll + width {
        seq![span("→"@, colored(Color::DarkGray))]
    } else {
        Seq::empty()
    };
    LineView {
        spans: left + content + right,
        style: if selected {
            selection()
        } else {
            plain()
        },
    }
}

/// Highlight indices come in increasing order.
pub open spec fn is_sorted(hits: Option<Seq<usize>>) -> bool {
    match hits {
        Some(h) => increasing(h),
        None => true,
    }
}

pub open spec fn increasing(indices: Seq<usize>) -> bool {
    forall|a: int, b: int| 0 <= a < b < indices.len() ==> indices[a] < indices[b]
}

/// Whether the sorted `hits` hold `i` (binary search).
fn is_hit(hits: &Vec<usize>, i: usize) -> (yes: bool)
    requires
        increasing(hits@),
    ensures
        yes == hits@.contains(i),
{
    let mut lo: usize = 0;
    let mut hi: usize = hits.len();
    while lo < hi
        invariant
            lo <= hi <= hits@.len(),
            increasing(hits@),
            forall|a: int| 0 <= a < lo ==> hits@[a] < i,
            forall|a: int| hi <= a < hits@.len() ==> hits@[a] > i,
        decreases hi - lo,
    {
        let mid: usize = lo + (hi - lo) / 2;
        if hits[mid] == i {
            assert(hits@[mid as int] == i);
            return true;
        }
        if hits[mid] < i {
            lo = mid + 1;
        } else {
            hi = mid;
        }
    }
    false
}

fn is_hl(hits: &Option<Vec<usize>>, i: usize) -> (lit: bool)
    requires
        is_sorted(hits_view(*hits)),
    ensures
        lit == is_lit(hits_view(*hits), i as int),
{
    match hits {
        Some(h) => is_hit(h, i),
        None => false,
    }
}

fn style_of(lit: bool) -> (style: Style)
    ensures
        style == char_style(lit),
{
    if lit {
        hl_style()
    } else {
        base_style()
    }
}

/// Append the characters `lo .. hi` of a line to `spans`, highlighted.
fn push_pieces(
    spans: &mut Vec<Span>,
    chars: &Vec<char>,
    hits: &Option<Vec<usize>>,
    lo: usize,
    hi: usize,
)
    requires
        lo <= hi <= chars@.len(),
        is_sorted(hits_view(*hits)),
    ensures
        span_views(final(spans)@) == span_views(old(spans)@) + pieces(
            chars@,
            hits_view(*hits),
            lo as int,
            hi as int,
        ),
{
    let ghost h = hits_view(*hits);
    let ghost before = span_views(spans@);
    let mut buf = String::new();
    let mut cur_hl = false;
    // The run being collected starts here.
    let mut start: usize = lo;
    let mut i: usize = lo;
    while i < hi
        invariant
            h == hits_view(*hits),
            is_sorted(h),
            lo <= start <= i <= hi <= chars@.len(),
            i > lo ==> start == run_start(h, lo as int, i as int) && start < i && cur_hl == is_lit(
                h,
                i - 1,
            ),
            buf@ == chars@.subrange(start as int, i as int),
            span_views(spans@) == before + pieces(chars@, h, lo as int, start as int),
        decreases hi - i,
    {
        let ch_hl = is_hl(hits, i);
        if i > lo && ch_hl != cur_hl {
            push_span(spans, buf, style_of(cur_hl));
            buf = String::new();
            start = i;
            assert(span_views(spans@) =~= before + pieces(chars@, h, lo as int, start as int));
        }
        cur_hl = ch_hl;
        buf.push(chars[i]);
        i += 1;
        assert(buf@ =~= chars@.subrange(start as int, i as int));
    }
    if hi > lo {
        push_span(spans, buf, style_of(cur_hl));
    }
    assert(span_views(spans@) =~= before + pieces(chars@, h, lo as int, hi as int));
}

/// Build one visible row for line number `number` (counted from one). The
/// text is measured in characters.
pub fn compose_row(
    number: u64,
    text: &str,
    hits: &Option<Vec<usize>>,
    selected: bool,
    gutter_w: usize,
    width: usize,
    hscroll: usize,
) -> (line: Line)
    requires
        is_sorted(hits_view(*hits)),
    ensures
        line@ == row_line(
            number as nat,
            text@,
            hits_view(*hits),
            selected,
            gutter_w as int,
            width as int,
            hscroll as int,
        ),
{
    let chars = to_chars(text);
    let len = chars.len();
    let from: usize = if hscroll < len {
        hscroll
    } else {
        len
    };
    let to: usize = if width < len - from {
        from + width
    } else {
        len
    };
    let mut spans: Vec<Span> = Vec::new();
    push_span(&mut spans, gutter(number, gutter_w), gutter_style());
    let ghost left = span_views(spans@);
    push_pieces(&mut spans, &chars, hits, from, to);
    let ghost content = pieces(text@, hits_view(*hits), from as int, to as int);
    if len > to && len > hscroll {
        push_span(&mut spans, "→".to_owned(), gutter_style());
    }
    let ghost arrow = if text@.len() > hscroll + width {
        seq![span("→"@, colored(Color::DarkGray))]
    } else {
        Seq::empty()
    };
    assert(span_views(spans@) =~= left + content + arrow);
    assert(left =~= seq![
        span(
            right_aligned(digits(number as nat), gutter_w as int).push(' '),
            colored(Color::DarkGray),
        ),
    ]);
    let style = if selected {
        Style { fg: None, bg: Some(Color::Rgb(40, 44, 60)), bold: true }
    } else {
        plain_style()
    };
    Line { spans, style }
}

// -------------------------------------------------------------------- bars

/// A span that is there or not.
pub open spec fn when(shown: bool, s: SpanView) -> Seq<SpanView> {
    if shown {
        seq![s]
    } else {
        Seq::empty()
    }
}

/// `n` with thousands separators.
pub open spec fn count(n: int) -> Seq<char> {
    grouped(digits(n as nat))
}

/// How many lines there are. With the spill, evicted lines are still
/// reachable: nothing is dropped.
pub open spec fn lines_text(app: AppView) -> Seq<char> {
    let all = " "@ + count(app.total()) + " lines"@;
    if app.spill is None && app.ring.dropped() > 0 {
        all + (" ("@ + count(app.ring.dropped() as int) + " dropped)"@)
    } else {
        all
    }
}

/// The filter and its number of matches.
pub open spec fn filter_text(filter: FilterView, matches: int) -> Seq<char> {
    let all = "  │  filter \""@ + filter.query + "\" ["@ + mode_label(filter.effective())
        + "]  "@ + count(matches) + " matches"@;
    if is_fallback(filter) {
        all + " (invalid regex → substr)"@
    } else {
        all
    }
}

/// A regex was asked for, but it does not compile.
pub open spec fn is_fallback(filter: FilterView) -> bool {
    filter.requested == MatchMode::Regex && filter.effective() == MatchMode::Substring
}

pub open spec fn input_span(state: InputState) -> SpanView {
    match state {
        InputState::Live => span("  │  ● LIVE"@, colored(Color::Green)),
        InputState::Eof => span("  │  ■ EOF"@, colored(Color::Yellow)),
        InputState::Error => span("  │  ■ READ ERROR"@, colored(Color::Red)),
    }
}

/// The selected row, counted from one, and the number of rows.
pub open spec fn position_text(app: AppView) -> Seq<char> {
    if app.view_len() == 0 {
        "  │  0/0"@
    } else {
        "  │  "@ + digits((app.selected + 1) as nat) + "/"@ + count(app.view_len())
    }
}

/// The status bar.
pub open spec fn status_spans(app: AppView) -> Seq<SpanView> {
    let lines = seq![span(" logtui "@, title()), span(lines_text(app), colored(Color::White))];
    let filter = lines + when(
        app.spill_error() is Some,
        span("  │  ⚠ spill failed: "@ + app.spill_error()->0, colored(Color::Red)),
    ) + when(
        app.filter() is Some,
        span(filter_text(app.filter()->0, app.view_len()), colored(Color::Yellow)),
    );
    let input = filter.push(input_span(app.input_state)) + when(
        app.read_error is Some,
        span(" ("@ + app.read_error->0 + ")"@, colored(Color::Red)),
    ) + when(app.follow, span("  FOLLOW"@, colored(Color::Green)));
    input.push(span(position_text(app), colored(Color::DarkGray))).push(
        span("  /:filter n/N:match g/G:top/bottom r:mode q:quit"@, colored(Color::DarkGray)),
    )
}

/// The search bar: the query, the mode asked for, and whether it applies.
pub open spec fn search_spans(app: AppView) -> Seq<SpanView> {
    seq![
        span("/"@, colored(Color::Cyan)),
        span(app.query, plain()),
        span("  ["@ + mode_label(app.mode) + "]"@, colored(Color::DarkGray)),
    ] + when(
        app.filter() is Some && is_fallback(app.filter()->0),
        span("  invalid regex — substring fallback"@, colored(Color::Red)),
    )
}

fn lines_label(app: &App) -> (text: String)
    requires
        app.wf(),
    ensures
        text@ == lines_text(app@),
{
    let dropped = app.buffer().dropped();
    let mut text = " ".to_owned();
    text.append(thousands(app.total_lines()).as_str());
    text.append(" lines");
    if !app.spill_enabled() && dropped > 0 {
        let mut more = " (".to_owned();
        more.append(thousands(dropped).as_str());
        more.append(" dropped)");
        text.append(more.as_str());
    }
    text
}

fn filter_label(filter: &crate::filter::Filter, matches: usize) -> (text: String)
    requires
        filter.wf(),
    ensures
        text@ == filter_text(filter@, matches as int),
{
    let mut text = "  │  filter \"".to_owned();
    text.append(filter.query());
    text.append("\" [");
    text.append(filter.effective_mode().label());
    text.append("]  ");
    text.append(thousands(matches as u64).as_str());
    text.append(" matches");
    if filter.is_regex_fallback() {
        text.append(" (invalid regex → substr)");
    }
    text
}

fn position_label(app: &App) -> (text: String)
    requires
        app.wf(),
    ensures
        text@ == position_text(app@),
{
    proof {
        app.lemma_inv();
    }
    let len = app.view_len();
    if len == 0 {
        return "  │  0/0".to_owned();
    }
    let mut text = "  │  ".to_owned();
    text.append(decimal(app.selected() as u64 + 1).as_str());
    text.append("/");
    text.append(thousands(len as u64).as_str());
    text
}

/// How the input is doing.
fn push_input_state(spans: &mut Vec<Span>, state: InputState)
    ensures
        span_views(final(spans)@) == span_views(old(spans)@).push(input_span(state)),
{
    let (text, color) = match state {
        InputState::Live => ("  │  ● LIVE", Color::Green),
        InputState::Eof => ("  │  ■ EOF", Color::Yellow),
        InputState::Error => ("  │  ■ READ ERROR", Color::Red),
    };
    push_span(spans, text.to_owned(), color_style(color));
}

/// A text between two others, where there is one.
fn push_between(spans: &mut Vec<Span>, before: &str, text: Option<&str>, after: &str, color: Color)
    ensures
        span_views(final(spans)@) == span_views(old(spans)@) + when(
            text is Some,
            span(before@ + text->0@ + after@, colored(color)),
        ),
{
    if let Some(inner) = text {
        let mut whole = before.to_owned();
        whole.append(inner);
        whole.append(after);
        push_span(spans, whole, color_style(color));
    }
    assert(span_views(spans@) =~= span_views(old(spans)@) + when(
        text is Some,
        span(before@ + text->0@ + after@, colored(color)),
    ));
}

/// The filter, where there is one.
fn push_filter(spans: &mut Vec<Span>, app: &App)
    requires
        app.wf(),
    ensures
        span_views(final(spans)@) == span_views(old(spans)@) + when(
            app@.filter() is Some,
            span(filter_text(app@.filter()->0, app@.view_len()), colored(Color::Yellow)),
        ),
{
    let len = app.view_len();
    if let Some(f) = app.filter() {
        push_span(spans, filter_label(f, len), color_style(Color::Yellow));
    }
    assert(span_views(spans@) =~= span_views(old(spans)@) + when(
        app@.filter() is Some,
        span(filter_text(app@.filter()->0, app@.view_len()), colored(Color::Yellow)),
    ));
}

pub fn status_bar(app: &App) -> (line: Line)
    requires
        app.wf(),
    ensures
        line@ == (LineView { spans: status_spans(app@), style: plain() }),
{
    let mut spans: Vec<Span> = Vec::new();
    push_span(
        &mut spans,
        " logtui ".to_owned(),
        Style { fg: Some(Color::Black), bg: Some(Color::Cyan), bold: true },
    );
    push_span(&mut spans, lines_label(app), color_style(Color::White));
    assert(span_views(spans@) =~= seq![
        span(" logtui "@, title()),
        span(lines_text(app@), colored(Color::White)),
    ]);
    push_between(&mut spans, "  │  ⚠ spill failed: ", app.spill_error(), "", Color::Red);
    push_filter(&mut spans, app);
    push_input_state(&mut spans, app.input_state());
    push_between(&mut spans, " (", app.read_error(), ")", Color::Red);
    let ghost so_far = span_views(spans@);
    if app.follow() {
        push_span(&mut spans, "  FOLLOW".to_owned(), color_style(Color::Green));
    }
    assert(span_views(spans@) =~= so_far + when(
        app@.follow,
        span("  FOLLOW"@, colored(Color::Green)),
    ));
    push_span(&mut spans, position_label(app), color_style(Color::DarkGray));
    push_span(
        &mut spans,
        "  /:filter n/N:match g/G:top/bottom r:mode q:quit".to_owned(),
        color_style(Color::DarkGray),
    );
    proof {
        reveal_strlit("");
        if let Some(e) = app@.spill_error() {
            assert("  │  ⚠ spill failed: "@ + e + ""@ =~= "  │  ⚠ spill failed: "@ + e);
        }
    }
    Line { spans, style: plain_style() }
}

pub fn search_bar(app: &App) -> (line: Line)
    requires
        app.wf(),
    ensures
        line@ == (LineView { spans: search_spans(app@), style: plain() }),
{
    let mut spans: Vec<Span> = Vec::new();
    push_span(&mut spans, "/".to_owned(), color_style(Color::Cyan));
    push_span(&mut spans, app.query().to_owned(), plain_style());
    let mut mode = "  [".to_owned();
    mode.append(app.requested_mode().label());
    mode.append("]");
    push_span(&mut spans, mode, color_style(Color::DarkGray));
    let fallback = match app.filter() {
        Some(f) => f.is_regex_fallback(),
        None => false,
    };
    if fallback {
        push_span(
            &mut spans,
            "  invalid regex — substring fallback".to_owned(),
            color_style(Color::Red),
        );
    }
    assert(span_views(spans@) =~= search_spans(app@));
    Line { spans, style: plain_style() }
}

// ------------------------------------------------------------------- frame

/// A rectangle of terminal cells.
#[derive(Debug, Clone, Copy, PartialEq, Eq)]
pub struct Area {
    pub x: u16,
    pub y: u16,
    pub width: u16,
    pub height: u16,
}

impl Area {
    /// The column after the last one.
    pub open spec fn right(self) -> int {
        crate::state::min(self.x + self.width, 65535)
    }
}

/// The rows `from .. from + height` of an area.
pub open spec fn rows_of(area: Area, from: int, height: int) -> Area {
    Area { x: area.x, y: (area.y + from) as u16, width: area.width, height: height as u16 }
}

/// All of some numbers.
pub open spec fn total_of(sizes: Seq<u16>) -> int
    decreases sizes.len(),
{
    if sizes.len() == 0 {
        0
    } else {
        total_of(sizes.drop_last()) + sizes.last()
    }
}

/// The height of a first row of at least `least` above rows of `fixed` rows in
/// all: what the others leave over, but not less than `least`, as far as there
/// is room.
pub open spec fn first_height(least: int, fixed: int, height: int) -> int {
    crate::state::min(crate::state::max(height - fixed, least), height)
}

/// `Layout::vertical` and `Layout::split` of the `ratatui` crate, on a first
/// row of at least `least` and then rows of the `fixed` sizes: one part for
/// each row, as wide as the area and in its columns. The parts follow one
/// another from the top of the area to its bottom. The first has what the
/// others leave over; where not everything fits, its minimum is stronger than
/// the sizes of the others. Where everything fits, these have their sizes. Two
/// fixed rows of one that share a single row are drawn towards equal sizes, and
/// half a row is rounded up: the upper one has it. How other fixed rows share
/// what is too little for both is not stated (a constraint solver decides).
#[verifier::external_body]
fn split_rows(area: Area, least: u16, fixed: &Vec<u16>) -> (parts: Vec<Area>)
    ensures
        parts@.len() == fixed@.len() + 1,
        forall|i: int|
            0 <= i < parts@.len() ==> (#[trigger] parts@[i]).x == area.x && parts@[i].width
                == area.width,
        least <= 32767 && fixed@.len() <= 2 && area.y + area.height <= 65535 ==> {
            &&& parts@[0] == rows_of(
                area,
                0,
                first_height(least as int, total_of(fixed@), area.height as int),
            )
            &&& forall|i: int|
                1 <= i < parts@.len() ==> (#[trigger] parts@[i]).y == parts@[i - 1].y
                    + parts@[i - 1].height
            &&& parts@.last().y + parts@.last().height == area.y + area.height
            &&& least + total_of(fixed@) <= area.height ==> forall|i: int|
                1 <= i < parts@.len() ==> (#[trigger] parts@[i]).height == fixed@[i - 1]
            &&& fixed@ == seq![1u16, 1u16] && area.height == least + 1 ==> parts@[1].height == 1
        },
{
    let first = std::iter::once(Constraint::Min(least));
    let rest = fixed.iter().map(|size| Constraint::Length(*size));
    let rect = Rect { x: area.x, y: area.y, width: area.width, height: area.height };
    let parts = Layout::vertical(first.chain(rest)).split(rect);
    parts.iter().map(|r| Area { x: r.x, y: r.y, width: r.width, height: r.height }).collect()
}

/// Where everything goes in a frame.
#[derive(Debug, Clone, Copy, PartialEq, Eq)]
pub struct FramePlan {
    pub list: Area,
    pub status: Area,
    /// There while searching, and as long as there is a query.
    pub search: Option<Area>,
    /// Width of the line numbers.
    pub gutter_w: usize,
    /// Width of the text beside them.
    pub content_w: usize,
    pub hscroll: usize,
    /// The view rows `top .. bottom` are shown.
    pub top: usize,
    pub bottom: usize,
}

/// The search bar is there while searching, and as long as there is a query.
pub open spec fn shows_search(app: AppView) -> bool {
    app.focus == Focus::Search || app.query.len() > 0
}

/// Wide enough for every line number, and at least four.
pub open spec fn gutter_width(app: AppView) -> int {
    crate::state::max(digits(app.total() as nat).len() as int, 4)
}

/// The state with a window of `height` rows that shows the selection.
pub open spec fn framed(app: AppView, height: int) -> AppView {
    (AppView { viewport: crate::state::max(height, 1), ..app }).made_visible()
}

/// The plan for a state that already fits its window.
pub open spec fn is_plan(
    plan: FramePlan,
    app: AppView,
    list: Area,
    status: Area,
    search: Option<Area>,
) -> bool {
    &&& plan.list == list
    &&& plan.status == status
    &&& plan.search == search
    &&& plan.gutter_w == gutter_width(app)
    &&& plan.content_w == crate::state::max(list.width - (plan.gutter_w + 1), 0)
    &&& plan.hscroll == app.hscroll
    &&& plan.top == app.scroll
    &&& plan.bottom == crate::state::min(app.scroll + list.height, app.view_len())
}

/// The rows of an area go to the list, the status and the search in turn, one
/// below the other: the bars have one row each, and the list has the rest, but
/// before the bars it has a row itself, and before the search the status has
/// one.
pub open spec fn divides(
    area: Area,
    list: Area,
    status: Area,
    search: Option<Area>,
) -> bool {
    let bars: int = if search is Some {
        2
    } else {
        1
    };
    let rows = first_height(1, bars, area.height as int);
    let below = crate::state::min(area.height - rows, 1);
    &&& list.x == area.x && list.width == area.width
    &&& status.x == area.x && status.width == area.width
    &&& search matches Some(bar) ==> bar.x == area.x && bar.width == area.width
    &&& area.y + area.height <= 65535 ==> {
        &&& list == rows_of(area, 0, rows)
        &&& status == rows_of(area, rows, below)
        &&& search matches Some(bar) ==> bar == rows_of(
            area,
            rows + below,
            area.height - rows - below,
        )
    }
}

proof fn lemma_digits_len(n: nat)
    requires
        n <= u64::MAX,
    ensures
        1 <= digits(n).len() <= 20,
{
    reveal_with_fuel(vstd::arithmetic::power::pow, 21);
    lemma_digits_len_below(n, 20);
}

proof fn lemma_digits_len_below(n: nat, k: nat)
    requires
        k >= 1,
        n < vstd::arithmetic::power::pow(10, k),
    ensures
        1 <= digits(n).len() <= k,
    decreases k,
{
    if n >= 10 {
        if k == 1 {
            vstd::arithmetic::power::lemma_pow1(10);
        } else {
            vstd::arithmetic::power::lemma_pow_adds(10, 1, (k - 1) as nat);
            vstd::arithmetic::power::lemma_pow1(10);
            lemma_digits_len_below(n / 10, (k - 1) as nat);
        }
    }
}

/// Fit the state to a list of the given size, and lay the frame out.
pub fn plan_frame(app: &mut App, list: Area, status: Area, search: Option<Area>) -> (plan:
    FramePlan)
    requires
        old(app).wf(),
    ensures
        final(app).wf(),
        final(app)@ == framed(old(app)@, list.height as int),
        is_plan(plan, final(app)@, list, status, search),
{
    app.set_viewport(list.height as usize);
    app.ensure_visible();
    proof {
        app.lemma_inv();
        lemma_digits_len(app@.total() as nat);
    }
    let number_w = decimal(app.total_lines()).as_str().unicode_len();
    let gutter_w: usize = if number_w > 4 {
        number_w
    } else {
        4
    };
    let content_w = list.width.saturating_sub(gutter_w as u16 + 1) as usize;
    let len = app.view_len();
    let top = app.scroll();
    let height = list.height as usize;
    let bottom: usize = if top < len && height < len - top {
        top + height
    } else {
        len
    };
    FramePlan {
        list,
        status,
        search,
        gutter_w,
        content_w,
        hscroll: app.hscroll() as usize,
        top,
        bottom,
    }
}

/// Lay a frame out in the given area. The text of the rows
/// `plan.top .. plan.bottom` is what [`draw`] needs next.
pub fn begin_frame(app: &mut App, area: Area) -> (plan: FramePlan)
    requires
        old(app).wf(),
    ensures
        final(app).wf(),
        final(app)@ == framed(old(app)@, plan.list.height as int),
        is_plan(plan, final(app)@, plan.list, plan.status, plan.search),
        plan.search is Some <==> shows_search(old(app)@),
        divides(area, plan.list, plan.status, plan.search),
{
    let show_search = match app.focus() {
        Focus::Search => true,
        Focus::Normal => !app.query().is_empty(),
    };
    let mut bars: Vec<u16> = Vec::new();
    bars.push(1);
    if show_search {
        bars.push(1);
    }
    proof {
        reveal_with_fuel(total_of, 3);
        assert(bars@.take(0) =~= Seq::<u16>::empty());
        assert(bars@.len() == 2 ==> bars@.take(1) =~= seq![1u16]);
        assert(bars@.drop_last().len() == 0 || bars@.drop_last() =~= seq![1u16]);
        assert(bars@.len() == 2 ==> bars@ =~= seq![1u16, 1u16]);
    }
    let parts = split_rows(area, 1, &bars);
    let search = if show_search {
        Some(parts[2])
    } else {
        None
    };
    plan_frame(app, parts[0], parts[1], search)
}

/// A row of the view, with some highlight that its filter allows.
pub open spec fn is_row(
    line: LineView,
    app: AppView,
    row: int,
    text: Seq<char>,
    gutter_w: int,
    width: int,
    hscroll: int,
) -> bool {
    exists|hits: Option<Seq<usize>>| #[trigger]
        app.may_highlight(text, hits) && line == row_line(
            (app.abs_at(row)->0 + 1) as nat,
            text,
            hits,
            row == app.selected,
            gutter_w,
            width,
            hscroll,
        )
}

/// Build one visible row of the view from the text of its line.
pub fn render_row(
    app: &App,
    row: usize,
    text: &str,
    gutter_w: usize,
    width: usize,
    hscroll: usize,
) -> (line: Option<Line>)
    requires
        app.wf(),
    ensures
        line is Some <==> app@.abs_at(row as int) is Some,
        line matches Some(l) ==> is_row(
            l@,
            app@,
            row as int,
            text@,
            gutter_w as int,
            width as int,
            hscroll as int,
        ),
{
    let abs = match app.abs_at(row) {
        Some(abs) => abs,
        None => {
            return None;
        },
    };
    proof {
        app.lemma_inv();
    }
    let hl = app.highlight_for_text(text);
    let selected = row == app.selected();
    assert(is_sorted(hits_view(hl)));
    Some(compose_row(abs + 1, text, &hl, selected, gutter_w, width, hscroll))
}

/// What an empty list says.
pub open spec fn empty_text(app: AppView) -> Seq<char> {
    if app.filter() is Some {
        "  no matches — edit the filter or press Esc to clear"@
    } else {
        match app.input_state {
            InputState::Live => "  waiting for input on stdin…"@,
            InputState::Eof => "  input is empty (EOF)"@,
            InputState::Error => "  reading stdin failed — see status bar"@,
        }
    }
}

fn empty_line(app: &App) -> (line: Line)
    requires
        app.wf(),
    ensures
        line@ == (LineView {
            spans: seq![span(empty_text(app@), colored(Color::DarkGray))],
            style: plain(),
        }),
{
    let text = if app.filter().is_some() {
        "  no matches — edit the filter or press Esc to clear"
    } else {
        match app.input_state() {
            InputState::Live => "  waiting for input on stdin…",
            InputState::Eof => "  input is empty (EOF)",
            InputState::Error => "  reading stdin failed — see status bar",
        }
    };
    let mut spans: Vec<Span> = Vec::new();
    push_span(&mut spans, text.to_owned(), color_style(Color::DarkGray));
    assert(span_views(spans@) =~= seq![span(empty_text(app@), colored(Color::DarkGray))]);
    Line { spans, style: plain_style() }
}

/// The rows among the first `n` from `top` on whose text is to be had. Rows
/// whose lines are gone are skipped.
pub open spec fn shown_rows(app: AppView, top: int, texts: Seq<Option<String>>, n: nat) -> Seq<int>
    decreases n,
{
    if n == 0 {
        Seq::empty()
    } else {
        let before = shown_rows(app, top, texts, (n - 1) as nat);
        if texts[n - 1] is Some && app.abs_at(top + n - 1) is Some {
            before.push(top + n - 1)
        } else {
            before
        }
    }
}

/// The list: one line for each row whose text is to be had, or a message where
/// there are no rows at all.
pub open spec fn is_list(
    lines: Seq<Line>,
    app: AppView,
    plan: FramePlan,
    texts: Seq<Option<String>>,
) -> bool {
    if app.view_len() == 0 {
        &&& lines.len() == 1
        &&& lines[0]@ == LineView {
            spans: seq![span(empty_text(app), colored(Color::DarkGray))],
            style: plain(),
        }
    } else {
        is_list_of(lines, app, plan, texts, shown_rows(app, plan.top as int, texts, texts.len()))
    }
}

pub open spec fn is_list_of(
    lines: Seq<Line>,
    app: AppView,
    plan: FramePlan,
    texts: Seq<Option<String>>,
    rows: Seq<int>,
) -> bool {
    &&& lines.len() == rows.len()
    &&& forall|i: int|
        0 <= i < lines.len() ==> is_row(
            (#[trigger] lines[i])@,
            app,
            rows[i],
            texts[rows[i] - plan.top]->0@,
            plan.gutter_w as int,
            plan.content_w as int,
            plan.hscroll as int,
        )
}

fn list_lines(app: &App, plan: &FramePlan, texts: &Vec<Option<String>>) -> (lines: Vec<Line>)
    requires
        app.wf(),
        plan.top + texts@.len() <= usize::MAX,
    ensures
        is_list(lines@, app@, *plan, texts@),
{
    let mut lines: Vec<Line> = Vec::new();
    if app.view_len() == 0 {
        lines.push(empty_line(app));
        return lines;
    }
    let mut k: usize = 0;
    while k < texts.len()
        invariant
            app.wf(),
            plan.top + texts@.len() <= usize::MAX,
            k <= texts@.len(),
            is_list_of(
                lines@,
                app@,
                *plan,
                texts@,
                shown_rows(app@, plan.top as int, texts@, k as nat),
            ),
        decreases texts@.len() - k,
    {
        let ghost before = lines@;
        let ghost rows = shown_rows(app@, plan.top as int, texts@, k as nat);
        if let Some(text) = &texts[k] {
            if let Some(line) = render_row(
                app,
                plan.top + k,
                text.as_str(),
                plan.gutter_w,
                plan.content_w,
                plan.hscroll,
            ) {
                lines.push(line);
            }
        }
        k += 1;
        proof {
            let next = shown_rows(app@, plan.top as int, texts@, k as nat);
            assert forall|i: int| 0 <= i < lines@.len() implies is_row(
                (#[trigger] lines@[i])@,
                app@,
                next[i],
                texts@[next[i] - plan.top]->0@,
                plan.gutter_w as int,
                plan.content_w as int,
                plan.hscroll as int,
            ) by {
                if i < before.len() {
                    assert(lines@[i] == before[i]);
                    assert(next[i] == rows[i]);
                }
            }
        }
    }
    lines
}

/// Everything that a frame shows.
pub struct Screen {
    /// The lines of the list, from its top.
    pub list: Vec<Line>,
    pub status: Line,
    /// What lies under the whole status bar.
    pub status_style: Style,
    pub search: Option<Line>,
    /// Where the text cursor is, if it is shown.
    pub cursor: Option<(u16, u16)>,
}

/// The cursor sits right after the part of the query that is before it, and
/// never leaves the search bar.
pub open spec fn cursor_cell(app: AppView, bar: Area) -> (u16, u16) {
    (crate::state::min(bar.x + 1 + app.cursor, bar.right() - 1) as u16, bar.y)
}

fn cursor_column(bar: Area, cursor: usize) -> (x: u16)
    requires
        bar.right() > 0,
    ensures
        x == crate::state::min(bar.x + 1 + cursor, bar.right() - 1),
{
    let right: u16 = if bar.width > 65535 - bar.x {
        65535
    } else {
        bar.x + bar.width
    };
    let last: u16 = right - 1;
    if last <= bar.x || cursor >= (last - bar.x) as usize {
        last
    } else {
        bar.x + 1 + cursor as u16
    }
}

/// Compose a frame. `texts` holds the text of each of the rows
/// `plan.top .. plan.bottom` that is to be had.
pub fn draw(app: &App, plan: &FramePlan, texts: &Vec<Option<String>>) -> (screen: Screen)
    requires
        app.wf(),
        texts@.len() == plan.bottom - plan.top,
        app@.focus == Focus::Search ==> (plan.search matches Some(bar) ==> bar.right() > 0),
    ensures
        is_list(screen.list@, app@, *plan, texts@),
        screen.status@ == (LineView { spans: status_spans(app@), style: plain() }),
        screen.status_style == status_background(),
        screen.search is Some <==> plan.search is Some,
        screen.search matches Some(line) ==> line@ == (LineView {
            spans: search_spans(app@),
            style: plain(),
        }),
        screen.cursor == (match plan.search {
            Some(bar) => if app@.focus == Focus::Search {
                Some(cursor_cell(app@, bar))
            } else {
                None
            },
            None => None,
        }),
{
    let list = list_lines(app, plan, texts);
    let status = status_bar(app);
    let status_style = Style { fg: None, bg: Some(Color::Rgb(24, 26, 36)), bold: false };
    match plan.search {
        Some(bar) => {
            let search = Some(search_bar(app));
            let cursor = match app.focus() {
                Focus::Search => {
                    let x = cursor_column(bar, app.cursor());
                    Some((x, bar.y))
                },
                Focus::Normal => None,
            };
            Screen { list, status, status_style, search, cursor }
        },
        None => Screen { list, status, status_style, search: None, cursor: None },
    }
}

// -------------------------------------------------------------------- laws

proof fn lemma_text_of_add(a: Seq<SpanView>, b: Seq<SpanView>)
    ensures
        text_of(a + b) == text_of(a) + text_of(b),
    decreases b.len(),
{
    if b.len() == 0 {
        assert(a + b =~= a);
        assert(text_of(a) + text_of(b) =~= text_of(a));
    } else {
        lemma_text_of_add(a, b.drop_last());
        assert((a + b).drop_last() =~= a + b.drop_last());
        assert(text_of(a + b) =~= text_of(a) + text_of(b));
    }
}

proof fn lemma_text_of_one(s: SpanView)
    ensures
        text_of(seq![s]) == s.text,
{
    reveal_with_fuel(text_of, 2);
    assert(text_of(seq![s]) =~= s.text);
}

proof fn lemma_text_of_pieces(text: Seq<char>, hits: Option<Seq<usize>>, lo: int, hi: int)
    requires
        0 <= lo <= hi <= text.len(),
    ensures
        text_of(pieces(text, hits, lo, hi)) == text.subrange(lo, hi),
    decreases hi - lo,
{
    if lo < hi {
        let start = run_start(hits, lo, hi);
        lemma_run_start(hits, lo, hi);
        lemma_text_of_pieces(text, hits, lo, start);
        assert(pieces(text, hits, lo, hi).drop_last() =~= pieces(text, hits, lo, start));
        assert(text.subrange(lo, start) + text.subrange(start, hi) =~= text.subrange(lo, hi));
    } else {
        assert(text.subrange(lo, hi) =~= Seq::empty());
    }
}

/// A row shows exactly the line number, the visible part of the line, and the
/// arrow where the line goes on; highlighting changes no character.
pub proof fn law_row_shows_the_line(
    number: nat,
    text: Seq<char>,
    hits: Option<Seq<usize>>,
    selected: bool,
    gutter_w: int,
    width: int,
    hscroll: int,
)
    requires
        0 <= width,
        0 <= hscroll,
    ensures
        ({
            let len = text.len() as int;
            let from = visible_from(len, hscroll);
            let to = visible_to(len, hscroll, width);
            text_of(
                row_line(number, text, hits, selected, gutter_w, width, hscroll).spans,
            ) == right_aligned(digits(number), gutter_w).push(' ') + text.subrange(from, to) + (if len
                > hscroll + width {
                "→"@
            } else {
                Seq::empty()
            })
        }),
{
    let len = text.len() as int;
    let from = visible_from(len, hscroll);
    let to = visible_to(len, hscroll, width);
    let left = seq![
        span(right_aligned(digits(number), gutter_w).push(' '), colored(Color::DarkGray)),
    ];
    let content = pieces(text, hits, from, to);
    let arrow = seq![span("→"@, colored(Color::DarkGray))];
    lemma_text_of_pieces(text, hits, from, to);
    lemma_text_of_one(left[0]);
    lemma_text_of_one(arrow[0]);
    lemma_text_of_add(left, content);
    lemma_text_of_add(left + content, arrow);
    lemma_text_of_add(left + content, Seq::empty());
}

proof fn lemma_run_is_even(hits: Option<Seq<usize>>, lo: int, hi: int)
    requires
        lo < hi,
    ensures
        lo <= run_start(hits, lo, hi) < hi,
        forall|i: int|
            run_start(hits, lo, hi) <= i < hi ==> #[trigger] is_lit(hits, i) == is_lit(
                hits,
                hi - 1,
            ),
        run_start(hits, lo, hi) > lo ==> is_lit(hits, run_start(hits, lo, hi) - 1) != is_lit(
            hits,
            hi - 1,
        ),
    decreases hi - lo,
{
    if lo < hi - 1 && is_lit(hits, hi - 2) == is_lit(hits, hi - 1) {
        lemma_run_is_even(hits, lo, hi - 1);
    }
}

/// Neighbouring pieces of a row differ in style, and no piece is empty: the
/// highlight is shown in as few pieces as possible.
pub proof fn law_pieces_are_maximal(
    text: Seq<char>,
    hits: Option<Seq<usize>>,
    lo: int,
    hi: int,
    i: int,
)
    requires
        0 <= lo <= hi <= text.len(),
        0 <= i < pieces(text, hits, lo, hi).len(),
    ensures
        pieces(text, hits, lo, hi)[i].text.len() > 0,
        i > 0 ==> pieces(text, hits, lo, hi)[i - 1].style != pieces(text, hits, lo, hi)[i].style,
    decreases hi - lo,
{
    let start = run_start(hits, lo, hi);
    lemma_run_is_even(hits, lo, hi);
    let before = pieces(text, hits, lo, start);
    if i < before.len() {
        law_pieces_are_maximal(text, hits, lo, start, i);
    } else if i > 0 {
        lemma_last_piece(text, hits, lo, start);
    }
}

proof fn lemma_last_piece(text: Seq<char>, hits: Option<Seq<usize>>, lo: int, hi: int)
    requires
        lo < hi,
    ensures
        pieces(text, hits, lo, hi).len() > 0,
        pieces(text, hits, lo, hi).last().style == char_style(is_lit(hits, hi - 1)),
{
}

/// The style in which some spans show their character number `n`.
pub open spec fn style_at(spans: Seq<SpanView>, n: int) -> Style
    decreases spans.len(),
{
    if spans.len() == 0 {
        plain()
    } else if n >= text_of(spans.drop_last()).len() {
        spans.last().style
    } else {
        style_at(spans.drop_last(), n)
    }
}

/// A character of a row is highlighted exactly when its index is among the
/// hits.
pub proof fn law_highlight_is_exact(
    text: Seq<char>,
    hits: Option<Seq<usize>>,
    lo: int,
    hi: int,
    i: int,
)
    requires
        0 <= lo <= i < hi <= text.len(),
    ensures
        style_at(pieces(text, hits, lo, hi), i - lo) == char_style(is_lit(hits, i)),
    decreases hi - lo,
{
    let start = run_start(hits, lo, hi);
    lemma_run_is_even(hits, lo, hi);
    lemma_text_of_pieces(text, hits, lo, start);
    assert(pieces(text, hits, lo, hi).drop_last() =~= pieces(text, hits, lo, start));
    if i < start {
        law_highlight_is_exact(text, hits, lo, start, i);
    }
}

/// Without the commas, a number with thousands separators is the number.
pub proof fn law_separators_only_add_commas(number: Seq<char>)
    requires
        !number.contains(','),
    ensures
        grouped(number).filter(|c: char| c != ',') == number,
    decreases number.len(),
{
    let keep = |c: char| c != ',';
    assert forall|i: int| 0 <= i < number.len() implies #[trigger] number[i] != ',' by {
        assert(number.contains(number[i]));
    }
    if number.len() <= 3 {
        lemma_filter_all(number, keep);
    } else {
        let head = number.take(number.len() - 3);
        let tail = number.skip(number.len() - 3);
        law_separators_only_add_commas(head);
        lemma_filter_all(tail, keep);
        Seq::filter_distributes_over_add(grouped(head).push(','), tail, keep);
        Seq::filter_distributes_over_add(grouped(head), seq![','], keep);
        assert(grouped(head).push(',') =~= grouped(head) + seq![',']);
        reveal_with_fuel(Seq::filter, 2);
        assert(seq![','].filter(keep) =~= Seq::empty());
        assert(grouped(number).filter(keep) =~= head + tail);
        assert(head + tail =~= number);
    }
}

proof fn lemma_filter_all(s: Seq<char>, keep: spec_fn(char) -> bool)
    requires
        forall|i: int| 0 <= i < s.len() ==> keep(#[trigger] s[i]),
    ensures
        s.filter(keep) == s,
    decreases s.len(),
{
    reveal(Seq::filter);
    if s.len() > 0 {
        lemma_filter_all(s.drop_last(), keep);
        assert(keep(s[s.len() - 1]));
        assert(s.drop_last().push(s.last()) =~= s);
    }
}

proof fn lemma_digits_len_grows(a: nat, b: nat)
    requires
        a <= b,
    ensures
        digits(a).len() <= digits(b).len(),
        digits(b).len() > 0,
    decreases b,
{
    if b >= 10 {
        lemma_digits_len_grows(a / 10, b / 10);
    }
}

/// Every line number fits into the gutter, so that the text of all rows starts
/// in the same column.
pub proof fn law_gutter_is_aligned(app: AppView, abs: int)
    requires
        0 <= abs < app.total(),
    ensures
        right_aligned(digits((abs + 1) as nat), gutter_width(app)).len() == gutter_width(app),
{
    lemma_digits_len_grows((abs + 1) as nat, app.total() as nat);
}

/// Laying a frame out shows the selected row whenever the list has a row at
/// all.
pub proof fn law_frame_shows_selection(
    app: AppView,
    plan: FramePlan,
    list: Area,
    status: Area,
    search: Option<Area>,
)
    requires
        app.inv(),
        app.view_len() > 0,
        list.height > 0,
        is_plan(plan, framed(app, list.height as int), list, status, search),
    ensures
        plan.top <= framed(app, list.height as int).selected < plan.bottom,
        plan.bottom - plan.top <= list.height,
{
}

// ------------------------------------------------------ laws on whole rows

proof fn lemma_style_at_add(a: Seq<SpanView>, b: Seq<SpanView>, n: int)
    requires
        0 <= n < text_of(a).len() + text_of(b).len(),
    ensures
        style_at(a + b, n) == if n < text_of(a).len() {
            style_at(a, n)
        } else {
            style_at(b, n - text_of(a).len())
        },
    decreases b.len(),
{
    if b.len() == 0 {
        assert(a + b =~= a);
    } else {
        let shorter = b.drop_last();
        assert((a + b).drop_last() =~= a + shorter);
        lemma_text_of_add(a, shorter);
        if n < text_of(a).len() + text_of(shorter).len() {
            lemma_style_at_add(a, shorter, n);
        }
    }
}

proof fn lemma_style_at_one(s: SpanView, n: int)
    requires
        0 <= n,
    ensures
        style_at(seq![s], n) == s.style,
{
    assert(seq![s].drop_last() =~= Seq::<SpanView>::empty());
    assert(text_of(Seq::<SpanView>::empty()).len() == 0);
}

/// As many blanks as bring a number of `len` digits to `width` characters.
pub open spec fn blanks(len: int, width: int) -> Seq<char> {
    Seq::new(
        (if len < width {
            width - len
        } else {
            0
        }) as nat,
        |i: int| ' ',
    )
}

/// The text of a row: the number right-aligned in the gutter, a blank, as much
/// of the line as the window shows, and an arrow where the line goes on beyond
/// it.
pub open spec fn row_text(
    number: nat,
    text: Seq<char>,
    gutter_w: int,
    width: int,
    hscroll: int,
) -> Seq<char> {
    let len = text.len() as int;
    let from = if hscroll < len {
        hscroll
    } else {
        len
    };
    let to = if hscroll + width < len {
        hscroll + width
    } else {
        len
    };
    let arrow = if len > hscroll + width {
        "→"@
    } else {
        Seq::empty()
    };
    blanks(digits(number).len() as int, gutter_w) + digits(number) + seq![' '] + text.subrange(
        from,
        to,
    ) + arrow
}

/// A row of the given text has the given style, its gutter and its arrow are
/// dimmed, and of the line each visible character is bold and yellow exactly
/// when it is among the hits, and gray otherwise.
pub open spec fn is_styled(
    line: LineView,
    number: nat,
    text: Seq<char>,
    hits: Option<Seq<usize>>,
    gutter_w: int,
    width: int,
    hscroll: int,
) -> bool {
    let len = text.len() as int;
    let gutter = blanks(digits(number).len() as int, gutter_w).len() + digits(number).len() + 1;
    let dim = Style { fg: Some(Color::DarkGray), bg: None, bold: false };
    &&& forall|k: int| 0 <= k < gutter ==> #[trigger] style_at(line.spans, k) == dim
    &&& forall|i: int|
        hscroll <= i < len && i < hscroll + width ==> #[trigger] style_at(
            line.spans,
            gutter + (i - hscroll),
        ) == if hits is Some && hits->0.contains(i as usize) {
            Style { fg: Some(Color::Yellow), bg: None, bold: true }
        } else {
            Style { fg: Some(Color::Gray), bg: None, bold: false }
        }
    &&& len > hscroll + width ==> style_at(line.spans, gutter + width) == dim
}

/// A whole row, selected or not: what it says, and how. Selecting it changes the
/// style under it and nothing else.
pub proof fn law_whole_row(
    number: nat,
    text: Seq<char>,
    hits: Option<Seq<usize>>,
    selected: bool,
    gutter_w: int,
    width: int,
    hscroll: int,
)
    requires
        0 <= width,
        0 <= hscroll,
    ensures
        ({
            let line = row_line(number, text, hits, selected, gutter_w, width, hscroll);
            &&& text_of(line.spans) == row_text(number, text, gutter_w, width, hscroll)
            &&& is_styled(line, number, text, hits, gutter_w, width, hscroll)
            &&& line.style == if selected {
                Style { fg: None, bg: Some(Color::Rgb(40, 44, 60)), bold: true }
            } else {
                Style { fg: None, bg: None, bold: false }
            }
            &&& line.spans == row_line(
                number,
                text,
                hits,
                !selected,
                gutter_w,
                width,
                hscroll,
            ).spans
        }),
{
    let line = row_line(number, text, hits, selected, gutter_w, width, hscroll);
    let len = text.len() as int;
    let from = visible_from(len, hscroll);
    let to = visible_to(len, hscroll, width);
    law_row_shows_the_line(number, text, hits, selected, gutter_w, width, hscroll);
    let dim = Style { fg: Some(Color::DarkGray), bg: None, bold: false };
    let head = right_aligned(digits(number), gutter_w).push(' ');
    assert(head =~= blanks(digits(number).len() as int, gutter_w) + digits(number) + seq![' ']);
    let left = seq![span(head, dim)];
    let content = pieces(text, hits, from, to);
    let arrow = if len > hscroll + width {
        seq![span("→"@, dim)]
    } else {
        Seq::empty()
    };
    assert(line.spans == left + content + arrow);
    lemma_text_of_one(left[0]);
    if from <= to {
        lemma_text_of_pieces(text, hits, from, to);
    }
    lemma_text_of_add(left, content);
    reveal_strlit("→");
    if len > hscroll + width {
        lemma_text_of_one(arrow[0]);
    }
    let g = head.len() as int;
    assert forall|k: int| 0 <= k < g implies #[trigger] style_at(line.spans, k) == dim by {
        lemma_style_at_add(left + content, arrow, k);
        lemma_style_at_add(left, content, k);
        lemma_style_at_one(left[0], k);
    }
    assert forall|i: int| hscroll <= i < len && i < hscroll + width implies #[trigger] style_at(
        line.spans,
        g + (i - hscroll),
    ) == if hits is Some && hits->0.contains(i as usize) {
        Style { fg: Some(Color::Yellow), bg: None, bold: true }
    } else {
        Style { fg: Some(Color::Gray), bg: None, bold: false }
    } by {
        lemma_style_at_add(left + content, arrow, g + (i - hscroll));
        lemma_style_at_add(left, content, g + (i - hscroll));
        law_highlight_is_exact(text, hits, from, to, i);
    }
    if len > hscroll + width {
        lemma_style_at_add(left + content, arrow, g + width);
        lemma_style_at_one(arrow[0], 0);
    }
}

/// A row of the view shows the line that the view has there, counted from one,
/// with a highlight that the filter allows; it is marked exactly when it is the
/// selected one.
pub proof fn law_row_of_the_view(
    line: LineView,
    app: AppView,
    row: int,
    abs: int,
    text: Seq<char>,
    gutter_w: int,
    width: int,
    hscroll: int,
)
    requires
        0 <= width,
        0 <= hscroll,
        0 <= abs,
        app.abs_at(row) == Some(abs),
        is_row(line, app, row, text, gutter_w, width, hscroll),
    ensures
        text_of(line.spans) == row_text((abs + 1) as nat, text, gutter_w, width, hscroll),
        exists|hits: Option<Seq<usize>>| #[trigger]
            app.may_highlight(text, hits) && is_styled(
                line,
                (abs + 1) as nat,
                text,
                hits,
                gutter_w,
                width,
                hscroll,
            ),
        line.style == (if row == app.selected {
            Style { fg: None, bg: Some(Color::Rgb(40, 44, 60)), bold: true }
        } else {
            Style { fg: None, bg: None, bold: false }
        }),
{
    let hits = choose|hits: Option<Seq<usize>>| #[trigger]
        app.may_highlight(text, hits) && line == row_line(
            (app.abs_at(row)->0 + 1) as nat,
            text,
            hits,
            row == app.selected,
            gutter_w,
            width,
            hscroll,
        );
    law_whole_row(
        (abs + 1) as nat,
        text,
        hits,
        row == app.selected,
        gutter_w,
        width,
        hscroll,
    );
}

proof fn lemma_shown_rows(app: AppView, top: int, texts: Seq<Option<String>>, n: nat)
    requires
        n <= texts.len(),
    ensures
        ({
            let rows = shown_rows(app, top, texts, n);
            &&& forall|i: int, j: int| 0 <= i < j < rows.len() ==> rows[i] < rows[j]
            &&& forall|i: int|
                0 <= i < rows.len() ==> top <= #[trigger] rows[i] && rows[i] < top + n && texts[rows[i]
                    - top] is Some && app.abs_at(rows[i]) is Some
            &&& forall|row: int|
                top <= row < top + n && texts[row - top] is Some && (#[trigger] app.abs_at(row))
                    is Some ==> rows.contains(row)
        }),
    decreases n,
{
    if n > 0 {
        lemma_shown_rows(app, top, texts, (n - 1) as nat);
        let before = shown_rows(app, top, texts, (n - 1) as nat);
        let rows = shown_rows(app, top, texts, n);
        assert forall|row: int|
            top <= row < top + n && texts[row - top] is Some && (#[trigger] app.abs_at(row))
                is Some implies rows.contains(row) by {
            if row < top + n - 1 {
                assert(before.contains(row));
                let k = choose|k: int| 0 <= k < before.len() && before[k] == row;
                assert(rows[k] == row);
            } else {
                assert(rows[rows.len() - 1] == row);
            }
        }
    }
}

/// The list shows, from the top row on and in their order, the rows of the view
/// whose text is to be had, each once, and no others; where the view is empty it
/// shows a single message.
pub proof fn law_list_shows_the_rows(
    lines: Seq<Line>,
    app: AppView,
    plan: FramePlan,
    texts: Seq<Option<String>>,
)
    requires
        is_list(lines, app, plan, texts),
    ensures
        app.view_len() == 0 ==> lines.len() == 1,
        app.view_len() != 0 ==> exists|rows: Seq<int>| #[trigger]
            is_choice(rows, app, plan.top as int, texts) && is_list_of(
                lines,
                app,
                plan,
                texts,
                rows,
            ),
{
    if app.view_len() != 0 {
        let rows = shown_rows(app, plan.top as int, texts, texts.len());
        lemma_shown_rows(app, plan.top as int, texts, texts.len());
        assert(is_choice(rows, app, plan.top as int, texts));
    }
}

/// Increasing rows: just those from `top` on that the view has and whose text
/// is to be had.
pub open spec fn is_choice(
    rows: Seq<int>,
    app: AppView,
    top: int,
    texts: Seq<Option<String>>,
) -> bool {
    &&& forall|i: int, j: int| 0 <= i < j < rows.len() ==> rows[i] < rows[j]
    &&& forall|i: int|
        0 <= i < rows.len() ==> top <= #[trigger] rows[i] && rows[i] < top + texts.len()
            && texts[rows[i] - top] is Some && app.abs_at(rows[i]) is Some
    &&& forall|row: int|
        top <= row < top + texts.len() && texts[row - top] is Some && (#[trigger] app.abs_at(row))
            is Some ==> rows.contains(row)
}

/// Line number `i` of a list shows the text of its row, under its number, as
/// the plan has it, and is marked exactly when its row is selected.
pub proof fn law_list_line(
    lines: Seq<Line>,
    app: AppView,
    plan: FramePlan,
    texts: Seq<Option<String>>,
    rows: Seq<int>,
    i: int,
)
    requires
        app.inv(),
        is_list_of(lines, app, plan, texts, rows),
        0 <= i < rows.len(),
        app.abs_at(rows[i]) is Some,
    ensures
        lines.len() == rows.len(),
        text_of(lines[i]@.spans) == row_text(
            (app.abs_at(rows[i])->0 + 1) as nat,
            texts[rows[i] - plan.top]->0@,
            plan.gutter_w as int,
            plan.content_w as int,
            plan.hscroll as int,
        ),
        lines[i]@.style.bold == (rows[i] == app.selected),
{
    if let Some(v) = app.view {
        assert(v[rows[i]] >= 0);
    }
    law_row_of_the_view(
        lines[i]@,
        app,
        rows[i],
        app.abs_at(rows[i])->0,
        texts[rows[i] - plan.top]->0@,
        plan.gutter_w as int,
        plan.content_w as int,
        plan.hscroll as int,
    );
}

// ---------------------------------------------------------- laws on frames

/// An empty list says that nothing matches where there is a filter, whatever
/// the input does, and otherwise how the input is doing; dimmed and plain.
pub proof fn law_empty_list_says_why(
    lines: Seq<Line>,
    app: AppView,
    plan: FramePlan,
    texts: Seq<Option<String>>,
)
    requires
        is_list(lines, app, plan, texts),
        app.view_len() == 0,
    ensures
        lines.len() == 1,
        lines[0]@.spans.len() == 1,
        lines[0]@.spans[0].style == (Style { fg: Some(Color::DarkGray), bg: None, bold: false }),
        lines[0]@.style == (Style { fg: None, bg: None, bold: false }),
        lines[0]@.spans[0].text == (if app.query.len() > 0 {
            "  no matches — edit the filter or press Esc to clear"@
        } else if app.input_state == InputState::Live {
            "  waiting for input on stdin…"@
        } else if app.input_state == InputState::Eof {
            "  input is empty (EOF)"@
        } else {
            "  reading stdin failed — see status bar"@
        }),
{
}

/// What a plan holds: the parts it was given; a gutter as wide as the number of
/// lines is long, and at least four; beside it, with a blank between, the rest
/// of the list's width; and from the top row on as many rows as fit and exist.
pub proof fn law_plan(
    plan: FramePlan,
    app: AppView,
    list: Area,
    status: Area,
    search: Option<Area>,
)
    requires
        app.inv(),
        is_plan(plan, app, list, status, search),
    ensures
        plan.list == list && plan.status == status && plan.search == search,
        plan.gutter_w >= 4,
        plan.gutter_w >= digits(app.ring.history.len()).len(),
        plan.gutter_w == 4 || plan.gutter_w == digits(app.ring.history.len()).len(),
        plan.gutter_w + 1 <= list.width ==> plan.gutter_w + 1 + plan.content_w == list.width,
        plan.gutter_w + 1 > list.width ==> plan.content_w == 0,
        plan.hscroll == app.hscroll,
        plan.top == app.scroll,
        plan.bottom <= app.view_len(),
        plan.bottom <= plan.top + list.height,
        plan.bottom == app.view_len() || plan.bottom == plan.top + list.height,
{
}

/// Fitting the state to a list of `height` rows makes it a window of as many
/// rows, of one at least, and then shows the selection in it.
pub proof fn law_framing(app: AppView, height: int)
    requires
        height >= 0,
    ensures
        framed(app, height).viewport == (if height == 0 {
            1
        } else {
            height
        }),
        framed(app, height) == (AppView { viewport: framed(app, height).viewport, ..app }).made_visible(),
{
}

/// The search bar is shown while the query is edited and as long as there is
/// one.
pub proof fn law_search_bar_is_shown(app: AppView)
    ensures
        app.focus == Focus::Search ==> shows_search(app),
        app.query.len() > 0 ==> shows_search(app),
        app.focus == Focus::Normal && app.query.len() == 0 ==> !shows_search(app),
{
}

/// The parts of an area cover it from top to bottom. The list has a row as soon
/// as there is one, then the status has one, then the search, and all further
/// rows are the list's.
pub proof fn law_parts_cover_the_area(
    area: Area,
    list: Area,
    status: Area,
    search: Option<Area>,
)
    requires
        divides(area, list, status, search),
        area.y + area.height <= 65535,
    ensures
        ({
            let last: int = match search {
                Some(bar) => bar.height as int,
                None => 0,
            };
            &&& list.x == area.x && status.x == area.x
            &&& list.width == area.width && status.width == area.width
            &&& list.y == area.y
            &&& status.y == list.y + list.height
            &&& list.height + status.height + last == area.height
            &&& status.height <= 1 && last <= 1
            &&& area.height >= 1 ==> list.height >= 1
            &&& area.height >= 2 ==> status.height == 1
            &&& area.height >= 3 && search is Some ==> last == 1
            &&& search matches Some(bar) ==> bar.x == area.x && bar.width == area.width && bar.y
                == status.y + status.height
        }),
{
}

/// The cursor is in the row of the search bar, one column after the slash for
/// each character before it, as long as that is in the bar, and in the last
/// column of the bar otherwise.
pub proof fn law_cursor_cell(app: AppView, bar: Area)
    requires
        0 <= app.cursor,
        bar.width > 0,
        bar.x + bar.width <= 65535,
    ensures
        cursor_cell(app, bar).1 == bar.y,
        1 + app.cursor < bar.width ==> cursor_cell(app, bar).0 == bar.x + 1 + app.cursor,
        1 + app.cursor >= bar.width ==> cursor_cell(app, bar).0 == bar.x + bar.width - 1,
{
}

/// Counted from the right, every fourth character of a grouped number is a
/// comma and no other is, and it never starts with one.
pub proof fn law_a_comma_after_every_three_digits(number: Seq<char>, k: int)
    requires
        !number.contains(','),
        0 <= k < grouped(number).len(),
    ensures
        grouped(number)[grouped(number).len() - 1 - k] == ',' <==> k % 4 == 3,
        grouped(number)[0] != ',',
    decreases number.len(),
{
    let all = grouped(number);
    assert forall|i: int| 0 <= i < number.len() implies #[trigger] number[i] != ',' by {
        assert(number.contains(number[i]));
    }
    if number.len() <= 3 {
    } else {
        let head = number.take(number.len() - 3);
        let tail = number.skip(number.len() - 3);
        let g = grouped(head);
        assert(!head.contains(','));
        lemma_grouped_len(head);
        law_a_comma_after_every_three_digits(head, 0);
        assert(all == g.push(',') + tail);
        assert(all[0] == g[0]);
        if k < 3 {
            assert(all[all.len() - 1 - k] == tail[2 - k]);
        } else if k == 3 {
            assert(all[all.len() - 4] == ',');
        } else {
            law_a_comma_after_every_three_digits(head, k - 4);
            assert(all[all.len() - 1 - k] == g[g.len() - 1 - (k - 4)]);
        }
    }
}

proof fn lemma_grouped_len(number: Seq<char>)
    ensures
        grouped(number).len() >= number.len(),
    decreases number.len(),
{
    if number.len() > 3 {
        lemma_grouped_len(number.take(number.len() - 3));
    }
}

// ------------------------------------------------------------ laws on bars

proof fn lemma_text_of_push(spans: Seq<SpanView>, s: SpanView)
    ensures
        text_of(spans.push(s)) == text_of(spans) + s.text,
{
    assert(spans.push(s).drop_last() =~= spans);
}

/// A text that is there or not.
pub open spec fn given(shown: bool, text: Seq<char>) -> Seq<char> {
    if shown {
        text
    } else {
        Seq::empty()
    }
}

proof fn lemma_text_of_when(spans: Seq<SpanView>, shown: bool, s: SpanView)
    ensures
        text_of(spans + when(shown, s)) == text_of(spans) + given(shown, s.text),
{
    lemma_text_of_add(spans, when(shown, s));
    if shown {
        lemma_text_of_one(s);
    } else {
        assert(text_of(Seq::<SpanView>::empty()) =~= Seq::<char>::empty());
    }
}

/// The status bar reads: the name; how many lines there are, and how many of
/// them the ring has dropped where there is no spill to have them from; the
/// error of the spill; the filter with the mode in use, its number of matches,
/// and whether it is a regex that does not compile; how the input is doing, and
/// why it failed; whether the selection follows; the selected row and how many
/// rows there are; and the keys.
pub proof fn law_status_bar_text(app: AppView)
    ensures
        ({
            let dropped = app.ring.history.len() - app.ring.cap;
            let rows: int = match app.view {
                Some(v) => v.len() as int,
                None => app.ring.history.len() as int,
            };
            let f = FilterView { query: app.query, requested: app.mode };
            text_of(status_spans(app)) == " logtui "@ + (" "@ + grouped(
                digits(app.ring.history.len()),
            ) + " lines"@ + given(
                app.spill is None && dropped > 0,
                " ("@ + grouped(digits(dropped as nat)) + " dropped)"@,
            )) + given(
                app.spill is Some && app.spill->0.error is Some,
                "  │  ⚠ spill failed: "@ + app.spill->0.error->0,
            ) + given(
                app.query.len() > 0,
                "  │  filter \""@ + app.query + "\" ["@ + mode_label(f.effective()) + "]  "@
                    + grouped(digits(rows as nat)) + " matches"@ + given(
                    f.effective() != app.mode,
                    " (invalid regex → substr)"@,
                ),
            ) + (if app.input_state == InputState::Live {
                "  │  ● LIVE"@
            } else if app.input_state == InputState::Eof {
                "  │  ■ EOF"@
            } else {
                "  │  ■ READ ERROR"@
            }) + given(app.read_error is Some, " ("@ + app.read_error->0 + ")"@) + given(
                app.follow,
                "  FOLLOW"@,
            ) + (if rows == 0 {
                "  │  0/0"@
            } else {
                "  │  "@ + digits((app.selected + 1) as nat) + "/"@ + grouped(digits(rows as nat))
            }) + "  /:filter n/N:match g/G:top/bottom r:mode q:quit"@
        }),
{
    let first = seq![span(" logtui "@, title())];
    let second = span(lines_text(app), colored(Color::White));
    let lines = seq![span(" logtui "@, title()), span(lines_text(app), colored(Color::White))];
    assert(lines =~= first.push(second));
    lemma_text_of_one(first[0]);
    lemma_text_of_push(first, second);
    let failed = span("  │  ⚠ spill failed: "@ + app.spill_error()->0, colored(Color::Red));
    lemma_text_of_when(lines, app.spill_error() is Some, failed);
    let a = lines + when(app.spill_error() is Some, failed);
    let filter = span(filter_text(app.filter()->0, app.view_len()), colored(Color::Yellow));
    lemma_text_of_when(a, app.filter() is Some, filter);
    let b = a + when(app.filter() is Some, filter);
    lemma_text_of_push(b, input_span(app.input_state));
    let c = b.push(input_span(app.input_state));
    let read = span(" ("@ + app.read_error->0 + ")"@, colored(Color::Red));
    lemma_text_of_when(c, app.read_error is Some, read);
    let d = c + when(app.read_error is Some, read);
    let follow = span("  FOLLOW"@, colored(Color::Green));
    lemma_text_of_when(d, app.follow, follow);
    let e = d + when(app.follow, follow);
    let position = span(position_text(app), colored(Color::DarkGray));
    lemma_text_of_push(e, position);
    lemma_text_of_push(
        e.push(position),
        span("  /:filter n/N:match g/G:top/bottom r:mode q:quit"@, colored(Color::DarkGray)),
    );
    let all = " "@ + count(app.total()) + " lines"@;
    assert(all + Seq::<char>::empty() =~= all);
    let f = FilterView { query: app.query, requested: app.mode };
    let told = "  │  filter \""@ + f.query + "\" ["@ + mode_label(f.effective()) + "]  "@ + count(
        app.view_len(),
    ) + " matches"@;
    assert(told + Seq::<char>::empty() =~= told);
}

/// A span of the given text stands among others in one text colour, and in
/// nothing else.
pub open spec fn has_colored(spans: Seq<SpanView>, text: Seq<char>, color: Color) -> bool {
    spans.contains(SpanView { text, style: Style { fg: Some(color), bg: None, bold: false } })
}

proof fn lemma_contains_add(a: Seq<SpanView>, b: Seq<SpanView>, s: SpanView)
    ensures
        a.contains(s) ==> (a + b).contains(s),
        b.contains(s) ==> (a + b).contains(s),
{
    if a.contains(s) {
        let k = choose|k: int| 0 <= k < a.len() && a[k] == s;
        assert((a + b)[k] == s);
    }
    if b.contains(s) {
        let k = choose|k: int| 0 <= k < b.len() && b[k] == s;
        assert((a + b)[a.len() + k] == s);
    }
}

/// The colours of the status bar: the name stands out; the number of lines is
/// white; errors are red; the filter is yellow; live input is green, input at
/// its end yellow and failed input red; following is green; the rest is dimmed.
pub proof fn law_status_bar_colors(app: AppView)
    ensures
        ({
            let spans = status_spans(app);
            &&& spans[0] == SpanView {
                text: " logtui "@,
                style: Style { fg: Some(Color::Black), bg: Some(Color::Cyan), bold: true },
            }
            &&& has_colored(spans, lines_text(app), Color::White)
            &&& app.spill is Some && app.spill->0.error is Some ==> has_colored(
                spans,
                "  │  ⚠ spill failed: "@ + app.spill->0.error->0,
                Color::Red,
            )
            &&& app.query.len() > 0 ==> has_colored(
                spans,
                filter_text(
                    FilterView { query: app.query, requested: app.mode },
                    app.view_len(),
                ),
                Color::Yellow,
            )
            &&& app.input_state == InputState::Live ==> has_colored(
                spans,
                "  │  ● LIVE"@,
                Color::Green,
            )
            &&& app.input_state == InputState::Eof ==> has_colored(
                spans,
                "  │  ■ EOF"@,
                Color::Yellow,
            )
            &&& app.input_state == InputState::Error ==> has_colored(
                spans,
                "  │  ■ READ ERROR"@,
                Color::Red,
            )
            &&& app.read_error is Some ==> has_colored(
                spans,
                " ("@ + app.read_error->0 + ")"@,
                Color::Red,
            )
            &&& app.follow ==> has_colored(spans, "  FOLLOW"@, Color::Green)
            &&& has_colored(spans, position_text(app), Color::DarkGray)
            &&& has_colored(
                spans,
                "  /:filter n/N:match g/G:top/bottom r:mode q:quit"@,
                Color::DarkGray,
            )
        }),
{
    let lines = seq![span(" logtui "@, title()), span(lines_text(app), colored(Color::White))];
    let failed = span("  │  ⚠ spill failed: "@ + app.spill_error()->0, colored(Color::Red));
    let a1 = when(app.spill_error() is Some, failed);
    let filter = span(filter_text(app.filter()->0, app.view_len()), colored(Color::Yellow));
    let a2 = when(app.filter() is Some, filter);
    let input = input_span(app.input_state);
    let read = span(" ("@ + app.read_error->0 + ")"@, colored(Color::Red));
    let a4 = when(app.read_error is Some, read);
    let follow = span("  FOLLOW"@, colored(Color::Green));
    let a5 = when(app.follow, follow);
    let position = span(position_text(app), colored(Color::DarkGray));
    let help = span(
        "  /:filter n/N:match g/G:top/bottom r:mode q:quit"@,
        colored(Color::DarkGray),
    );
    let rest5 = a5 + seq![position, help];
    let rest4 = a4 + rest5;
    let rest3 = seq![input] + rest4;
    let rest2 = a2 + rest3;
    let rest1 = a1 + rest2;
    let spans = status_spans(app);
    assert(spans =~= lines + rest1);
    let ends = seq![position, help];
    assert(ends[0] == position && ends[1] == help);
    assert(seq![input][0] == input);
    assert(lines[1] == span(lines_text(app), colored(Color::White)));
    assert(app.spill_error() is Some ==> a1[0] == failed);
    assert(app.filter() is Some ==> a2[0] == filter);
    assert(app.read_error is Some ==> a4[0] == read);
    assert(app.follow ==> a5[0] == follow);
    assert forall|s: SpanView|
        lines.contains(s) || a1.contains(s) || a2.contains(s) || seq![input].contains(s)
            || a4.contains(s) || a5.contains(s) || ends.contains(s) implies #[trigger] spans.contains(
        s,
    ) by {
        lemma_contains_add(a5, ends, s);
        lemma_contains_add(a4, rest5, s);
        lemma_contains_add(seq![input], rest4, s);
        lemma_contains_add(a2, rest3, s);
        lemma_contains_add(a1, rest2, s);
        lemma_contains_add(lines, rest1, s);
    }
}

/// The search bar reads: a slash, the query, the mode asked for, and whether the
/// query is a regex that does not compile.
pub proof fn law_search_bar_text(app: AppView)
    ensures
        text_of(search_spans(app)) == "/"@ + app.query + ("  ["@ + mode_label(app.mode) + "]"@)
            + given(
            app.query.len() > 0 && (FilterView {
                query: app.query,
                requested: app.mode,
            }).effective() != app.mode,
            "  invalid regex — substring fallback"@,
        ),
        search_spans(app)[0].style == (Style { fg: Some(Color::Cyan), bg: None, bold: false }),
        search_spans(app)[1].style == (Style { fg: None, bg: None, bold: false }),
        search_spans(app)[2].style == (Style { fg: Some(Color::DarkGray), bg: None, bold: false }),
        search_spans(app).len() == 4 ==> search_spans(app)[3].style == (Style {
            fg: Some(Color::Red),
            bg: None,
            bold: false,
        }),
        search_spans(app)[1].text == app.query,
{
    let one = seq![span("/"@, colored(Color::Cyan))];
    let two = span(app.query, plain());
    let three = span("  ["@ + mode_label(app.mode) + "]"@, colored(Color::DarkGray));
    let bar = seq![one[0], two, three];
    assert(bar =~= one.push(two).push(three));
    lemma_text_of_one(one[0]);
    lemma_text_of_push(one, two);
    lemma_text_of_push(one.push(two), three);
    lemma_text_of_when(
        bar,
        app.filter() is Some && is_fallback(app.filter()->0),
        span("  invalid regex — substring fallback"@, colored(Color::Red)),
    );
}

/// The status bar lies on its own background as a whole, which sets no text
/// colour.
pub proof fn law_status_background()
    ensures
        status_background() == (Style { fg: None, bg: Some(Color::Rgb(24, 26, 36)), bold: false }),
{
}

} // verus!
