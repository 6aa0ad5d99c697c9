//! From raw input records to clean display lines.
//!
//! Input is read as raw bytes, not as UTF-8 lines: real log streams routinely
//! contain invalid sequences, and one bad byte must not end the stream.

use crate::text::{decode_lossy, to_chars, utf8_lossy};
use vstd::prelude::*;
use vstd::slice::*;
use vstd::utf8::*;

verus! {

/// What the input hands to the viewer.
#[derive(Debug)]
pub enum Msg {
    /// One line of input (terminators stripped, control sequences removed).
    Line(String),
    /// The input reached its end: the stream is now "static".
    Eof,
    /// Reading the input failed; no more input will arrive.
    Failed(String),
}

// --------------------------------------------------------- control sequences

/// A C0 control, DEL, or a C1 control.
pub open spec fn is_control(c: char) -> bool {
    c <= '\u{1f}' || '\u{7f}' <= c <= '\u{9f}'
}

/// A character that may reach the terminal: a tab or no control at all.
pub open spec fn is_displayable(c: char) -> bool {
    c == '\t' || !is_control(c)
}

/// A character that ends a CSI sequence (0x40 to 0x7e).
pub open spec fn is_csi_final(c: char) -> bool {
    '\x40' <= c <= '\x7e'
}

/// A character that, after ESC, opens a string sequence: OSC, DCS, SOS, PM
/// or APC.
pub open spec fn opens_string(c: char) -> bool {
    c == ']' || c == 'P' || c == 'X' || c == '^' || c == '_'
}

/// Where a CSI sequence ends whose parameters are read from `i` on: after its
/// final character, or at the end of the text.
pub open spec fn csi_end(s: Seq<char>, i: int) -> int
    decreases s.len() - i,
{
    if i >= s.len() {
        s.len() as int
    } else if is_csi_final(s[i]) {
        i + 1
    } else {
        csi_end(s, i + 1)
    }
}

/// Where a string sequence opened by `opener` ends whose body is read from `i`
/// on: after ST (`ESC \`), after BEL if it is an OSC, or at the end of the
/// text. Nothing else ends it: an ESC that is no part of ST belongs to the body.
pub open spec fn string_end(s: Seq<char>, opener: char, i: int) -> int
    decreases s.len() - i,
{
    if i >= s.len() {
        s.len() as int
    } else if s[i] == '\x07' && opener == ']' {
        i + 1
    } else if s[i] == '\x1b' && i + 1 < s.len() && s[i + 1] == '\\' {
        i + 2
    } else {
        string_end(s, opener, i + 1)
    }
}

/// Where the escape sequence ends whose ESC stands at `i`.
pub open spec fn escape_end(s: Seq<char>, i: int) -> int {
    if i + 1 >= s.len() {
        i + 1
    } else if s[i + 1] == '[' {
        csi_end(s, i + 2)
    } else if opens_string(s[i + 1]) {
        string_end(s, s[i + 1], i + 2)
    } else {
        i + 2
    }
}

proof fn lemma_csi_end(s: Seq<char>, i: int)
    requires
        0 <= i <= s.len(),
    ensures
        i <= csi_end(s, i) <= s.len(),
        i < s.len() ==> i < csi_end(s, i),
    decreases s.len() - i,
{
    if i < s.len() && !is_csi_final(s[i]) {
        lemma_csi_end(s, i + 1);
    }
}

proof fn lemma_string_end(s: Seq<char>, opener: char, i: int)
    requires
        0 <= i <= s.len(),
    ensures
        i <= string_end(s, opener, i) <= s.len(),
        i < s.len() ==> i < string_end(s, opener, i),
    decreases s.len() - i,
{
    if i < s.len() {
        lemma_string_end(s, opener, i + 1);
    }
}

proof fn lemma_escape_end(s: Seq<char>, i: int)
    requires
        0 <= i < s.len(),
    ensures
        i < escape_end(s, i) <= s.len(),
{
    if i + 1 < s.len() {
        lemma_csi_end(s, i + 2);
        lemma_string_end(s, s[i + 1], i + 2);
    }
}

/// The text from `i` on without escape sequences and control characters.
pub open spec fn stripped_from(s: Seq<char>, i: int) -> Seq<char>
    decreases s.len() - i,
    via stripped_from_ends
{
    if i < 0 || i >= s.len() {
        Seq::empty()
    } else if s[i] == '\x1b' {
        stripped_from(s, escape_end(s, i))
    } else if is_displayable(s[i]) {
        seq![s[i]] + stripped_from(s, i + 1)
    } else {
        stripped_from(s, i + 1)
    }
}

#[via_fn]
proof fn stripped_from_ends(s: Seq<char>, i: int) {
    if 0 <= i < s.len() {
        lemma_escape_end(s, i);
    }
}

/// A text without escape sequences and control characters.
pub open spec fn stripped(s: Seq<char>) -> Seq<char> {
    stripped_from(s, 0)
}

fn skip_csi(s: &Vec<char>, from: usize) -> (end: usize)
    requires
        from <= s.len(),
    ensures
        end == csi_end(s@, from as int),
        from <= end <= s.len(),
{
    let mut i: usize = from;
    while i < s.len()
        invariant
            from <= i <= s.len(),
            csi_end(s@, from as int) == csi_end(s@, i as int),
        decreases s.len() - i,
    {
        let c = s[i];
        i += 1;
        if '\x40' <= c && c <= '\x7e' {
            return i;
        }
    }
    i
}

fn skip_string(s: &Vec<char>, opener: char, from: usize) -> (end: usize)
    requires
        from <= s.len(),
    ensures
        end == string_end(s@, opener, from as int),
        from <= end <= s.len(),
{
    let mut i: usize = from;
    while i < s.len()
        invariant
            from <= i <= s.len(),
            string_end(s@, opener, from as int) == string_end(s@, opener, i as int),
        decreases s.len() - i,
    {
        let c = s[i];
        i += 1;
        if c == '\x07' && opener == ']' {
            return i;
        }
        if c == '\x1b' && i < s.len() && s[i] == '\\' {
            return i + 1;
        }
    }
    i
}

fn skip_escape(s: &Vec<char>, at: usize) -> (end: usize)
    requires
        at < s.len(),
    ensures
        end == escape_end(s@, at as int),
        at < end <= s.len(),
{
    let next = at + 1;
    if next >= s.len() {
        // trailing bare ESC: drop it
        return next;
    }
    match s[next] {
        // CSI sequence: ESC [ <param bytes> <intermediate bytes> <final byte>
        '[' => skip_csi(s, next + 1),
        // OSC: terminated by BEL (0x07) or ST (ESC \); DCS / SOS / PM / APC:
        // terminated by ST.
        ']' | 'P' | 'X' | '^' | '_' => skip_string(s, s[next], next + 1),
        // Two-character Fe sequence (ESC + one character): skip both.
        _ => next + 1,
    }
}

/// Remove terminal escape sequences and control characters from a log line.
///
/// Sequences handled:
///   - CSI:  ESC `[` ... final-byte (0x40-0x7e)  e.g. color, cursor, erase
///   - OSC:  ESC `]` ... BEL or ST               e.g. window title, hyperlinks
///   - DCS/SOS/PM/APC: ESC `P`/`X`/`^`/`_` ... ST
///   - Fe two-char: ESC + single character       e.g. ESC M (reverse index)
///   - C0 controls (0x00-0x1f) except horizontal tab
///   - DEL (0x7f) and C1 controls (U+0080-U+009F)
///
/// Tab is preserved; all other control characters are silently dropped so that
/// no log content can manipulate the terminal emulator.
pub fn strip_controls(s: &str) -> (out: String)
    ensures
        out@ == stripped(s@),
{
    let chars = to_chars(s);
    let mut out = String::new();
    let mut i: usize = 0;
    assert(out@ + stripped_from(s@, 0) =~= stripped(s@));
    while i < chars.len()
        invariant
            chars@ == s@,
            i <= chars.len(),
            out@ + stripped_from(s@, i as int) == stripped(s@),
        decreases chars.len() - i,
    {
        let c = chars[i];
        if c == '\x1b' {
            i = skip_escape(&chars, i);
        } else {
            let ghost before = out@;
            // Keep tab; drop all other C0 controls, DEL, and C1 controls.
            let control = c <= '\u{1f}' || ('\u{7f}' <= c && c <= '\u{9f}');
            if c == '\t' || !control {
                out.push(c);
            }
            assert(out@ + stripped_from(s@, i + 1) =~= before + stripped_from(s@, i as int));
            i += 1;
        }
    }
    assert(out@ + stripped_from(s@, i as int) =~= out@);
    out
}

// ----------------------------------------------------------------- records

/// A byte that belongs to a line terminator.
pub open spec fn is_terminator(b: u8) -> bool {
    b == 10 || b == 13
}

/// A record without the line feeds and carriage returns at its end.
pub open spec fn without_terminator(raw: Seq<u8>) -> Seq<u8>
    decreases raw.len(),
{
    if raw.len() > 0 && is_terminator(raw.last()) {
        without_terminator(raw.drop_last())
    } else {
        raw
    }
}

/// The display line that a raw record stands for.
pub open spec fn sanitized(raw: Seq<u8>) -> Seq<char> {
    stripped(utf8_lossy(without_terminator(raw)))
}

/// One raw input record -> clean display line: strip the line terminator,
/// decode as UTF-8 (invalid bytes become U+FFFD), drop control sequences.
pub fn sanitize_line(raw: &[u8]) -> (line: String)
    ensures
        line@ == sanitized(raw@),
{
    let mut end: usize = raw.len();
    assert(raw@.take(end as int) =~= raw@);
    while end > 0 && (raw[end - 1] == 10 || raw[end - 1] == 13)
        invariant
            end <= raw@.len(),
            without_terminator(raw@.take(end as int)) == without_terminator(raw@),
        decreases end,
    {
        assert(raw@.take(end as int).drop_last() =~= raw@.take(end - 1));
        end -= 1;
    }
    let content = slice_subrange(raw, 0, end);
    assert(content@ =~= raw@.take(end as int));
    strip_controls(decode_lossy(content).as_str())
}

/// The message that follows from one attempt to read a record: `read` is the
/// number of bytes that arrived in `raw` (none at the end of the input), or
/// why the attempt failed.
pub fn message_for(read: Result<usize, String>, raw: &[u8]) -> (msg: Msg)
    ensures
        match read {
            Ok(n) => if n == 0 {
                msg is Eof
            } else {
                msg matches Msg::Line(line) && line@ == sanitized(raw@)
            },
            Err(why) => msg == Msg::Failed(why),
        },
{
    match read {
        Ok(n) => if n == 0 {
            Msg::Eof
        } else {
            Msg::Line(sanitize_line(raw))
        },
        Err(why) => Msg::Failed(why),
    }
}

/// Whether a message is the last one that its input sends.
pub fn ends_input(msg: &Msg) -> (last: bool)
    ensures
        last == !(msg is Line),
{
    match msg {
        Msg::Line(_) => false,
        _ => true,
    }
}

// -------------------------------------------------------------------- laws

proof fn lemma_only_displayable(s: Seq<char>, i: int)
    requires
        0 <= i,
    ensures
        forall|k: int|
            0 <= k < stripped_from(s, i).len() ==> is_displayable(#[trigger] stripped_from(s, i)[k]),
    decreases s.len() - i,
{
    if i < s.len() {
        if s[i] == '\x1b' {
            lemma_escape_end(s, i);
            lemma_only_displayable(s, escape_end(s, i));
            assert(stripped_from(s, i) == stripped_from(s, escape_end(s, i)));
        } else {
            lemma_only_displayable(s, i + 1);
            if is_displayable(s[i]) {
                let rest = stripped_from(s, i + 1);
                assert forall|k: int| 0 <= k < stripped_from(s, i).len() implies is_displayable(
                    #[trigger] stripped_from(s, i)[k],
                ) by {
                    if k > 0 {
                        assert(stripped_from(s, i)[k] == rest[k - 1]);
                    }
                }
            } else {
                assert(stripped_from(s, i) == stripped_from(s, i + 1));
            }
        }
    }
}

/// No control character but a tab survives, whatever the input.
pub proof fn law_stripped_has_no_controls(s: Seq<char>)
    ensures
        forall|k: int| 0 <= k < stripped(s).len() ==> is_displayable(#[trigger] stripped(s)[k]),
{
    lemma_only_displayable(s, 0);
}

/// A display line never holds a line break.
pub proof fn law_sanitized_is_one_line(raw: Seq<u8>)
    ensures
        !sanitized(raw).contains('\n'),
        !sanitized(raw).contains('\r'),
{
    law_stripped_has_no_controls(utf8_lossy(without_terminator(raw)));
}

proof fn lemma_plain_prefix(plain: Seq<char>, rest: Seq<char>, i: int)
    requires
        0 <= i <= plain.len(),
        forall|k: int| 0 <= k < plain.len() ==> is_displayable(#[trigger] plain[k]),
    ensures
        stripped_from(plain + rest, i) == plain.skip(i) + stripped_from(
            plain + rest,
            plain.len() as int,
        ),
    decreases plain.len() - i,
{
    let s = plain + rest;
    if i == plain.len() {
        assert(plain.skip(i) + stripped_from(s, i) =~= stripped_from(s, i));
    } else {
        lemma_plain_prefix(plain, rest, i + 1);
        assert(s[i] == plain[i]);
        assert(plain.skip(i) =~= seq![plain[i]] + plain.skip(i + 1));
        assert(stripped_from(s, i) =~= plain.skip(i) + stripped_from(s, plain.len() as int));
    }
}

/// Plain text passes unchanged.
pub proof fn law_plain_text_unchanged(s: Seq<char>)
    requires
        forall|k: int| 0 <= k < s.len() ==> is_displayable(#[trigger] s[k]),
    ensures
        stripped(s) == s,
{
    lemma_plain_prefix(s, Seq::empty(), 0);
    assert(s + Seq::<char>::empty() =~= s);
    assert(s.skip(0) + stripped_from(s, s.len() as int) =~= s);
}

/// Stripping twice is stripping once.
pub proof fn law_strip_idempotent(s: Seq<char>)
    ensures
        stripped(stripped(s)) == stripped(s),
{
    law_stripped_has_no_controls(s);
    law_plain_text_unchanged(stripped(s));
}

proof fn lemma_shift_csi(head: Seq<char>, s: Seq<char>, i: int)
    requires
        0 <= i,
    ensures
        csi_end(head + s, head.len() + i) == head.len() + csi_end(s, i),
    decreases s.len() - i,
{
    if i < s.len() {
        assert((head + s)[head.len() + i] == s[i]);
        if !is_csi_final(s[i]) {
            lemma_shift_csi(head, s, i + 1);
            assert(head.len() + i + 1 == head.len() + (i + 1));
        }
    }
}

proof fn lemma_shift_string(head: Seq<char>, s: Seq<char>, opener: char, i: int)
    requires
        0 <= i,
    ensures
        string_end(head + s, opener, head.len() + i) == head.len() + string_end(s, opener, i),
    decreases s.len() - i,
{
    if i < s.len() {
        assert((head + s)[head.len() + i] == s[i]);
        if i + 1 < s.len() {
            assert((head + s)[head.len() + i + 1] == s[i + 1]);
        }
        lemma_shift_string(head, s, opener, i + 1);
        assert(head.len() + i + 1 == head.len() + (i + 1));
    }
}

/// What is stripped from a position on depends only on the text from there on.
proof fn lemma_shift(head: Seq<char>, s: Seq<char>, i: int)
    requires
        0 <= i,
    ensures
        stripped_from(head + s, head.len() + i) == stripped_from(s, i),
    decreases s.len() - i,
{
    let all = head + s;
    let n = head.len() as int;
    if i < s.len() {
        assert(all[n + i] == s[i]);
        if s[i] == '\x1b' {
            lemma_escape_end(s, i);
            lemma_shift_csi(head, s, i + 2);
            if i + 1 < s.len() {
                lemma_shift_string(head, s, s[i + 1], i + 2);
                assert(all[n + i + 1] == s[i + 1]);
                assert(n + i + 2 == n + (i + 2));
            }
            assert(escape_end(all, n + i) == n + escape_end(s, i));
            lemma_shift(head, s, escape_end(s, i));
        } else {
            lemma_shift(head, s, i + 1);
            assert(n + i + 1 == n + (i + 1));
        }
    }
}

/// Plain text in front of anything is kept, and what follows it is stripped
/// as if it stood alone.
pub proof fn law_plain_prefix_kept(plain: Seq<char>, rest: Seq<char>)
    requires
        forall|k: int| 0 <= k < plain.len() ==> is_displayable(#[trigger] plain[k]),
    ensures
        stripped(plain + rest) == plain + stripped(rest),
{
    lemma_plain_prefix(plain, rest, 0);
    lemma_shift(plain, rest, 0);
    assert(plain.skip(0) =~= plain);
}

proof fn lemma_escape_vanishes(escape: Seq<char>, rest: Seq<char>)
    requires
        escape.len() > 0,
        escape[0] == '\x1b',
        escape_end(escape + rest, 0) == escape.len(),
    ensures
        stripped(escape + rest) == stripped(rest),
{
    lemma_shift(escape, rest, 0);
}

proof fn lemma_csi_run(s: Seq<char>, i: int, end: int)
    requires
        0 <= i <= end < s.len(),
        forall|k: int| i <= k < end ==> !is_csi_final(#[trigger] s[k]),
        is_csi_final(s[end]),
    ensures
        csi_end(s, i) == end + 1,
    decreases end - i,
{
    if i < end {
        lemma_csi_run(s, i + 1, end);
    }
}

/// A complete CSI sequence (`ESC [`, parameters, final character) leaves no
/// trace, and the text after it is not touched by it.
pub proof fn law_csi_vanishes(params: Seq<char>, last: char, rest: Seq<char>)
    requires
        forall|k: int| 0 <= k < params.len() ==> !is_csi_final(#[trigger] params[k]),
        is_csi_final(last),
    ensures
        stripped(seq!['\x1b', '['] + params.push(last) + rest) == stripped(rest),
{
    let escape = seq!['\x1b', '['] + params.push(last);
    let s = escape + rest;
    let end = params.len() + 2int;
    assert(s[1] == '[');
    assert forall|k: int| 2 <= k < end implies !is_csi_final(#[trigger] s[k]) by {
        assert(s[k] == params[k - 2]);
    }
    assert(s[end] == last);
    lemma_csi_run(s, 2, end);
    lemma_escape_vanishes(escape, rest);
}

proof fn lemma_string_run(s: Seq<char>, opener: char, i: int, end: int)
    requires
        0 <= i <= end <= s.len(),
        opener == ']' ==> forall|k: int| i <= k < end ==> #[trigger] s[k] != '\x07',
        forall|k: int|
            i <= k < end && #[trigger] s[k] == '\x1b' && k + 1 < s.len() ==> s[k + 1] != '\\',
    ensures
        string_end(s, opener, i) == string_end(s, opener, end),
    decreases end - i,
{
    if i < end {
        lemma_string_run(s, opener, i + 1, end);
    }
}

/// A text in which a string sequence does not end: it holds no ST, and no BEL
/// where that ends the sequence, which it does for OSC only.
pub open spec fn is_string_body(opener: char, body: Seq<char>) -> bool {
    &&& opener == ']' ==> !body.contains('\x07')
    &&& forall|k: int|
        0 <= k < body.len() - 1 && #[trigger] body[k] == '\x1b' ==> body[k + 1] != '\\'
}

/// A complete string sequence leaves no trace, and the text after it is not
/// touched by it: an OSC ended by BEL or by ST; a DCS, SOS, PM or APC ended by
/// ST.
pub proof fn law_string_sequence_vanishes(
    opener: char,
    body: Seq<char>,
    terminator: Seq<char>,
    rest: Seq<char>,
)
    requires
        opens_string(opener),
        is_string_body(opener, body),
        terminator == seq!['\x07'] || terminator == seq!['\x1b', '\\'],
        terminator == seq!['\x07'] ==> opener == ']',
    ensures
        stripped(seq!['\x1b', opener] + body + terminator + rest) == stripped(rest),
{
    let escape = seq!['\x1b', opener] + body + terminator;
    let s = escape + rest;
    let end = body.len() + 2int;
    assert(s[1] == opener);
    assert(s[end] == terminator[0]);
    if terminator.len() == 2 {
        assert(s[end + 1] == terminator[1]);
    }
    assert forall|k: int| 2 <= k < end implies #[trigger] s[k] == body[k - 2] by {}
    assert forall|k: int| opener == ']' && 2 <= k < end implies #[trigger] s[k] != '\x07' by {
        assert(s[k] == body[k - 2]);
        assert(body.contains(body[k - 2]));
    }
    assert forall|k: int|
        2 <= k < end && #[trigger] s[k] == '\x1b' && k + 1 < s.len() implies s[k + 1] != '\\' by {
        assert(body[k - 2] == '\x1b');
        if k + 1 < end {
            assert(s[k + 1] == body[k - 1]);
        }
    }
    lemma_string_run(s, opener, 2, end);
    lemma_escape_vanishes(escape, rest);
}

/// A BEL stands for itself in the body of a DCS, SOS, PM or APC: only ST ends
/// the sequence.
pub proof fn law_bel_does_not_end_other_strings(
    opener: char,
    before: Seq<char>,
    after: Seq<char>,
    rest: Seq<char>,
)
    requires
        opens_string(opener),
        opener != ']',
        is_string_body(opener, before),
        is_string_body(opener, after),
    ensures
        stripped(seq!['\x1b', opener] + (before.push('\x07') + after) + seq!['\x1b', '\\'] + rest)
            == stripped(rest),
{
    let body = before.push('\x07') + after;
    let n = before.len() as int;
    assert forall|k: int| 0 <= k < body.len() - 1 && #[trigger] body[k] == '\x1b' implies body[k
        + 1] != '\\' by {
        if k < n {
            assert(before[k] == body[k]);
            if k + 1 < n {
                assert(before[k + 1] == body[k + 1]);
            }
        } else if k > n {
            assert(after[k - n - 1] == body[k]);
            assert(after[k - n] == body[k + 1]);
        }
    }
    law_string_sequence_vanishes(opener, body, seq!['\x1b', '\\'], rest);
}

/// A string sequence that is never ended swallows the rest of the line.
pub proof fn law_unended_string_swallows_the_rest(opener: char, body: Seq<char>)
    requires
        opens_string(opener),
        is_string_body(opener, body),
    ensures
        stripped(seq!['\x1b', opener] + body) == Seq::<char>::empty(),
{
    let s = seq!['\x1b', opener] + body;
    assert(s[1] == opener);
    assert forall|k: int| 2 <= k < s.len() implies #[trigger] s[k] == body[k - 2] by {}
    assert forall|k: int| opener == ']' && 2 <= k < s.len() implies #[trigger] s[k] != '\x07' by {
        assert(body.contains(body[k - 2]));
    }
    assert forall|k: int|
        2 <= k < s.len() && #[trigger] s[k] == '\x1b' && k + 1 < s.len() implies s[k + 1]
        != '\\' by {
        assert(body[k - 2] == '\x1b');
        assert(s[k + 1] == body[k - 1]);
    }
    lemma_string_run(s, opener, 2, s.len() as int);
    assert(stripped(s) == stripped_from(s, s.len() as int));
}

/// A two-character sequence (ESC and one character that opens nothing longer)
/// leaves no trace.
pub proof fn law_two_char_sequence_vanishes(c: char, rest: Seq<char>)
    requires
        c != '[',
        !opens_string(c),
    ensures
        stripped(seq!['\x1b', c] + rest) == stripped(rest),
{
    let escape = seq!['\x1b', c];
    assert((escape + rest)[1] == c);
    lemma_escape_vanishes(escape, rest);
}

// ------------------------------------------------------ laws on terminators

/// A text of line feeds and carriage returns only.
pub open spec fn is_line_end(t: Seq<char>) -> bool {
    forall|k: int| 0 <= k < t.len() ==> #[trigger] t[k] == '\n' || t[k] == '\r'
}

proof fn lemma_line_end_vanishes(s: Seq<char>, t: Seq<char>, j: int)
    requires
        is_line_end(t),
        s.len() <= j,
    ensures
        stripped_from(s + t, j) == Seq::<char>::empty(),
    decreases s.len() + t.len() - j,
{
    if j < s.len() + t.len() {
        assert((s + t)[j] == t[j - s.len()]);
        lemma_line_end_vanishes(s, t, j + 1);
    }
}

proof fn lemma_csi_end_extended(s: Seq<char>, t: Seq<char>, i: int)
    requires
        0 <= i <= s.len(),
    ensures
        csi_end(s + t, i) == csi_end(s, i) || (csi_end(s, i) == s.len() && csi_end(s + t, i)
            >= s.len()),
    decreases s.len() - i,
{
    if i < s.len() {
        assert((s + t)[i] == s[i]);
        if !is_csi_final(s[i]) {
            lemma_csi_end_extended(s, t, i + 1);
        }
    } else {
        lemma_csi_end(s + t, i);
    }
}

proof fn lemma_string_end_extended(s: Seq<char>, t: Seq<char>, opener: char, i: int)
    requires
        0 <= i <= s.len(),
        is_line_end(t),
    ensures
        string_end(s + t, opener, i) == string_end(s, opener, i) || (string_end(s, opener, i)
            == s.len() && string_end(s + t, opener, i) >= s.len()),
    decreases s.len() - i,
{
    if i < s.len() {
        assert((s + t)[i] == s[i]);
        if i + 1 < s.len() {
            assert((s + t)[i + 1] == s[i + 1]);
        } else if t.len() > 0 {
            assert((s + t)[i + 1] == t[0]);
        }
        lemma_string_end_extended(s, t, opener, i + 1);
    } else {
        lemma_string_end(s + t, opener, i);
    }
}

proof fn lemma_stripped_extended(s: Seq<char>, t: Seq<char>, i: int)
    requires
        0 <= i <= s.len(),
        is_line_end(t),
    ensures
        stripped_from(s + t, i) == stripped_from(s, i),
    decreases s.len() - i,
{
    let all = s + t;
    if i == s.len() {
        lemma_line_end_vanishes(s, t, i);
    } else {
        assert(all[i] == s[i]);
        if s[i] == '\x1b' {
            lemma_escape_end(s, i);
            lemma_escape_end(all, i);
            if i + 1 < s.len() {
                assert(all[i + 1] == s[i + 1]);
                lemma_csi_end_extended(s, t, i + 2);
                lemma_string_end_extended(s, t, s[i + 1], i + 2);
            }
            let end = escape_end(s, i);
            if escape_end(all, i) == end {
                lemma_stripped_extended(s, t, end);
            } else {
                assert(end == s.len() && escape_end(all, i) >= s.len());
                lemma_line_end_vanishes(s, t, escape_end(all, i));
                assert(stripped_from(s, end) == Seq::<char>::empty());
                assert(stripped_from(all, i) == stripped_from(all, escape_end(all, i)));
            }
        } else {
            lemma_stripped_extended(s, t, i + 1);
        }
    }
}

/// Line feeds and carriage returns at the end of a text never show, not even
/// behind an escape sequence that is cut off there.
pub proof fn law_line_end_never_shows(text: Seq<char>, t: Seq<char>)
    requires
        is_line_end(t),
    ensures
        stripped(text + t) == stripped(text),
{
    lemma_stripped_extended(text, t, 0);
}

/// Terminators behind a record never change its line, however many there are.
pub proof fn law_terminators_never_matter(raw: Seq<u8>, t: Seq<u8>)
    requires
        forall|k: int| 0 <= k < t.len() ==> #[trigger] t[k] == 10 || t[k] == 13,
    ensures
        without_terminator(raw + t) == without_terminator(raw),
        sanitized(raw + t) == sanitized(raw),
    decreases t.len(),
{
    if t.len() == 0 {
        assert(raw + t =~= raw);
    } else {
        assert((raw + t).drop_last() =~= raw + t.drop_last());
        assert((raw + t).last() == t[t.len() - 1]);
        law_terminators_never_matter(raw, t.drop_last());
    }
}

/// The text of valid UTF-8 that ends in an ASCII byte.
proof fn lemma_decode_last(raw: Seq<u8>)
    requires
        valid_utf8(raw),
        raw.len() > 0,
        raw.last() < 128,
    ensures
        valid_utf8(raw.drop_last()),
        decode_utf8(raw) == decode_utf8(raw.drop_last()).push(raw.last() as char),
{
    let n = raw.len() - 1;
    let last = raw.subrange(n, raw.len() as int);
    is_char_boundary_iff_not_is_continuation_byte(raw, n);
    valid_utf8_split(raw, n);
    decode_utf8_split(raw, n);
    assert(raw.subrange(0, n) =~= raw.drop_last());
    assert(last =~= seq![raw.last()]);
    let text = seq![raw.last() as char];
    is_ascii_chars_encode_utf8(text);
    encode_utf8_decode_utf8(text);
    assert(encode_utf8(text) =~= last);
    assert(decode_utf8(raw) =~= decode_utf8(raw.drop_last()).push(raw.last() as char));
}

/// Taking the terminators off first makes no difference: of valid UTF-8 the
/// line is the whole record, decoded and stripped.
pub proof fn law_sanitized_is_stripped_text(raw: Seq<u8>)
    requires
        valid_utf8(raw),
    ensures
        sanitized(raw) == stripped(decode_utf8(raw)),
    decreases raw.len(),
{
    if raw.len() > 0 && is_terminator(raw.last()) {
        lemma_decode_last(raw);
        law_sanitized_is_stripped_text(raw.drop_last());
        let t = seq![raw.last() as char];
        assert(decode_utf8(raw) =~= decode_utf8(raw.drop_last()) + t);
        law_line_end_never_shows(decode_utf8(raw.drop_last()), t);
    }
}

// --------------------------------------------------- laws, head by head

/// A tab, and every character from the blank on that is neither DEL nor a C1
/// control, is kept, and what follows it is stripped as if it stood alone.
pub proof fn law_text_is_kept(c: char, rest: Seq<char>)
    requires
        c == '\t' || (c as u32 >= 0x20 && !(0x7f <= c as u32 <= 0x9f)),
    ensures
        stripped(seq![c] + rest) == seq![c] + stripped(rest),
{
    law_plain_prefix_kept(seq![c], rest);
}

/// Any other control character but ESC is dropped, and takes nothing else with
/// it, whatever stands before it as plain text and whatever follows.
pub proof fn law_control_is_dropped_alone(c: char, rest: Seq<char>)
    requires
        c as u32 <= 0x1f || 0x7f <= c as u32 <= 0x9f,
        c != '\t',
        c as u32 != 0x1b,
    ensures
        stripped(seq![c] + rest) == stripped(rest),
{
    assert((seq![c] + rest)[0] == c);
    lemma_shift(seq![c], rest, 0);
}

/// Dropping a control character in the middle of plain text joins the two
/// sides.
pub proof fn law_control_in_text_joins_the_sides(before: Seq<char>, c: char, rest: Seq<char>)
    requires
        forall|k: int|
            0 <= k < before.len() ==> #[trigger] before[k] == '\t' || (before[k] >= ' ' && !('\u{7f}'
                <= before[k] <= '\u{9f}')),
        c as u32 <= 0x1f || 0x7f <= c as u32 <= 0x9f,
        c != '\t',
        c as u32 != 0x1b,
    ensures
        stripped(before + (seq![c] + rest)) == before + stripped(rest),
{
    law_plain_prefix_kept(before, seq![c] + rest);
    law_control_is_dropped_alone(c, rest);
}

/// A CSI sequence ends at the first character from `@` to `~` and swallows the
/// rest of the text where there is none.
pub proof fn law_csi_is_dropped(params: Seq<char>, last: char, rest: Seq<char>)
    requires
        forall|k: int|
            0 <= k < params.len() ==> !(0x40 <= #[trigger] params[k] as u32 && params[k] as u32
                <= 0x7e),
        0x40 <= last as u32 <= 0x7e,
    ensures
        stripped(seq!['\x1b', '['] + params.push(last) + rest) == stripped(rest),
        stripped(seq!['\x1b', '['] + params) == Seq::<char>::empty(),
{
    law_csi_vanishes(params, last, rest);
    let s = seq!['\x1b', '['] + params;
    assert(s[1] == '[');
    lemma_csi_unended(s, 2);
    assert(stripped(s) == stripped_from(s, s.len() as int));
}

proof fn lemma_csi_unended(s: Seq<char>, i: int)
    requires
        0 <= i <= s.len(),
        forall|k: int| i <= k < s.len() ==> !is_csi_final(#[trigger] s[k]),
    ensures
        csi_end(s, i) == s.len(),
    decreases s.len() - i,
{
    if i < s.len() {
        lemma_csi_unended(s, i + 1);
    }
}

/// An OSC (opened by `]`) is dropped up to the first BEL or ST.
pub proof fn law_osc_is_dropped(body: Seq<char>, terminator: Seq<char>, rest: Seq<char>)
    requires
        forall|k: int| 0 <= k < body.len() ==> #[trigger] body[k] as u32 != 7,
        forall|k: int|
            0 <= k < body.len() - 1 && #[trigger] body[k] as u32 == 0x1b ==> body[k + 1] != '\\',
        terminator == seq!['\x07'] || terminator == seq!['\x1b', '\\'],
    ensures
        stripped(seq!['\x1b', ']'] + body + terminator + rest) == stripped(rest),
        stripped(seq!['\x1b', ']'] + body) == Seq::<char>::empty(),
{
    law_string_sequence_vanishes(']', body, terminator, rest);
    law_unended_string_swallows_the_rest(']', body);
}

/// A DCS, SOS, PM or APC (opened by `P`, `X`, `^` or `_`) is dropped up to the
/// first ST, whatever else it holds.
pub proof fn law_other_strings_are_dropped(opener: char, body: Seq<char>, rest: Seq<char>)
    requires
        opener == 'P' || opener == 'X' || opener == '^' || opener == '_',
        forall|k: int|
            0 <= k < body.len() - 1 && #[trigger] body[k] as u32 == 0x1b ==> body[k + 1] != '\\',
    ensures
        stripped(seq!['\x1b', opener] + body + seq!['\x1b', '\\'] + rest) == stripped(rest),
        stripped(seq!['\x1b', opener] + body) == Seq::<char>::empty(),
{
    law_string_sequence_vanishes(opener, body, seq!['\x1b', '\\'], rest);
    law_unended_string_swallows_the_rest(opener, body);
}

/// ESC and any other character are dropped together, and nothing else with
/// them; so is an ESC at the very end.
pub proof fn law_other_escapes_take_one_character(c: char, rest: Seq<char>)
    requires
        c != '[' && c != ']' && c != 'P' && c != 'X' && c != '^' && c != '_',
    ensures
        stripped(seq!['\x1b', c] + rest) == stripped(rest),
        stripped(seq!['\x1b']) == Seq::<char>::empty(),
        stripped(Seq::empty()) == Seq::<char>::empty(),
{
    law_two_char_sequence_vanishes(c, rest);
    let s = seq!['\x1b'];
    assert(stripped(s) == stripped_from(s, 1));
}

/// The line of a record that does not end in a terminator is the whole record,
/// decoded and stripped.
pub proof fn law_record_is_decoded_whole(raw: Seq<u8>)
    requires
        raw.len() > 0 ==> raw.last() != 10 && raw.last() != 13,
    ensures
        sanitized(raw) == stripped(
            if valid_utf8(raw) {
                decode_utf8(raw)
            } else {
                crate::text::invalid_utf8_lossy(raw)
            },
        ),
{
}

} // verus!
