//! Disk spill: the bookkeeping of an append-only file that holds every line
//! ever received, with a sparse offset index so any line can be fetched by
//! absolute number.
//!
//! The ring buffer stays the hot cache for the tail; the spill is the source
//! of truth for full-history scrollback and filtering. RAM cost is one `u64`
//! per [`STRIDE`] lines; everything else lives in the file.
//!
//! A [`Spill`] decides what is written and where is read; whoever owns the
//! file performs the writes and reads and reports how they went.

use crate::text::{decode_lossy, utf8_lossy};
use vstd::prelude::*;
use vstd::slice::*;
use vstd::string::*;
use vstd::utf8::*;

verus! {

/// One byte offset is indexed every `STRIDE` lines; fetching a line reads at
/// most `STRIDE - 1` lines past the indexed seek point.
pub const STRIDE: u64 = 64;

// ------------------------------------------------------------- file format

/// How a line is stored: its UTF-8 encoding and a line feed.
pub open spec fn record(line: Seq<char>) -> Seq<u8> {
    encode_utf8(line).push(10u8)
}

/// The file that holds the given lines.
pub open spec fn file_of(lines: Seq<Seq<char>>) -> Seq<u8>
    decreases lines.len(),
{
    if lines.len() == 0 {
        Seq::empty()
    } else {
        file_of(lines.drop_last()) + record(lines.last())
    }
}

/// The byte offset at which line number `n` starts.
pub open spec fn offset_of(lines: Seq<Seq<char>>, n: int) -> int {
    file_of(lines.take(n)).len() as int
}

/// Where a read that starts at `from` and stops after a line feed ends: after
/// the first line feed, or at the end of the file.
pub open spec fn record_end(file: Seq<u8>, from: int) -> int
    decreases file.len() - from,
{
    if from >= file.len() {
        file.len() as int
    } else if file[from] == 10 {
        from + 1
    } else {
        record_end(file, from + 1)
    }
}

/// The position after `n` such reads, one after the other.
pub open spec fn skip_records(file: Seq<u8>, from: int, n: nat) -> int
    decreases n,
{
    if n == 0 {
        from
    } else {
        record_end(file, skip_records(file, from, (n - 1) as nat))
    }
}

/// The last of `n + 1` such reads.
pub open spec fn nth_record(file: Seq<u8>, from: int, n: nat) -> Seq<u8> {
    let start = skip_records(file, from, n);
    file.subrange(start, record_end(file, start))
}

/// The line that a stored record stands for.
pub open spec fn decoded(raw: Seq<u8>) -> Seq<char> {
    if raw.len() > 0 && raw.last() == 10 {
        utf8_lossy(raw.drop_last())
    } else {
        utf8_lossy(raw)
    }
}

// ------------------------------------------------------------------- state

/// What a spill stands for.
pub struct SpillView {
    /// The lines in the file; a line's absolute number is its index.
    pub lines: Seq<Seq<char>>,
    /// Why writing stopped, once a write has failed.
    pub error: Option<Seq<char>>,
    /// Something was appended since the last flush.
    pub dirty: bool,
}

impl SpillView {
    /// The state after an attempt to store a line: once a write has failed
    /// nothing more is stored.
    pub open spec fn appended(self, line: Seq<char>, written: Result<(), String>) -> SpillView {
        if self.error is Some {
            self
        } else {
            match written {
                Ok(_) => SpillView { lines: self.lines.push(line), dirty: true, ..self },
                Err(why) => SpillView { error: Some(why@), ..self },
            }
        }
    }

    /// The state after an attempt to write out what was only buffered: a failed
    /// one counts as a failed write, and leaves it to be tried again.
    pub open spec fn flushed(self, done: Result<(), String>) -> SpillView {
        match done {
            Ok(_) => SpillView { dirty: false, ..self },
            Err(why) => if self.error is Some {
                self
            } else {
                SpillView { error: Some(why@), ..self }
            },
        }
    }

    /// The file grown by one more line has a length that can be counted.
    pub open spec fn has_room(self, line: Seq<char>) -> bool {
        self.error is Some || file_of(self.lines).len() + record(line).len() <= u64::MAX
    }

    /// How to read line number `abs` back.
    pub open spec fn read_of(self, abs: int) -> Option<SpillRead> {
        if 0 <= abs < self.lines.len() {
            Some(
                SpillRead {
                    flush: self.dirty,
                    offset: offset_of(self.lines, abs - abs % 64) as u64,
                    records: (abs % 64 + 1) as u64,
                },
            )
        } else {
            None
        }
    }

    /// How to read every line, in order.
    pub open spec fn scan_read(self) -> Option<SpillRead> {
        if self.lines.len() == 0 {
            None
        } else {
            Some(
                SpillRead { flush: self.dirty, offset: 0, records: self.lines.len() as u64 },
            )
        }
    }
}

/// A read from the spill file: flush pending writes if asked to, go to
/// `offset`, and read `records` records from there, one after the other.
#[derive(Debug, Clone, Copy, PartialEq, Eq, Structural)]
pub struct SpillRead {
    pub flush: bool,
    pub offset: u64,
    pub records: u64,
}

pub struct Spill {
    /// Byte offset of every `STRIDE`-th line (lines 0, 64, 128, ...).
    index: Vec<u64>,
    total: u64,
    /// File length including buffered-but-unflushed bytes.
    pos: u64,
    dirty: bool,
    error: Option<String>,
    lines: Ghost<Seq<Seq<char>>>,
}

/// A message that may be there, as characters.
pub open spec fn message_view(message: Option<String>) -> Option<Seq<char>> {
    match message {
        Some(text) => Some(text@),
        None => None,
    }
}

impl View for Spill {
    type V = SpillView;

    closed spec fn view(&self) -> SpillView {
        SpillView { lines: self.lines@, error: message_view(self.error), dirty: self.dirty }
    }
}

impl Spill {
    /// The counters fit the stored lines, and the index holds the offset of
    /// every `STRIDE`-th of them. A failed write can leave one entry more, for
    /// the line that was not stored.
    pub closed spec fn wf(&self) -> bool {
        &&& self.total == self.lines@.len()
        &&& self.pos == file_of(self.lines@).len()
        &&& self.index@.len() * 64 >= self.total
        &&& (self.index@.len() - 1) * 64 < self.total || (self.error is Some && (self.index@.len()
            - 1) * 64 == self.total)
        &&& forall|k: int|
            0 <= k < self.index@.len() ==> #[trigger] self.index@[k] == offset_of(
                self.lines@,
                k * 64,
            )
    }

    /// Index entries held in memory.
    pub closed spec fn index_len(&self) -> nat {
        self.index@.len()
    }

    /// An empty spill.
    pub fn new() -> (spill: Spill)
        ensures
            spill.wf(),
            spill@ == (SpillView { lines: Seq::empty(), error: None, dirty: false }),
    {
        Spill {
            index: Vec::new(),
            total: 0,
            pos: 0,
            dirty: false,
            error: None,
            lines: Ghost(Seq::empty()),
        }
    }

    /// Set once a write has failed: the spill stops growing, so history older
    /// than the ring buffer is truncated at that point.
    pub fn error(&self) -> (why: Option<&str>)
        ensures
            why is Some <==> self@.error is Some,
            why matches Some(text) ==> Some(text@) == self@.error,
    {
        match &self.error {
            Some(text) => Some(text.as_str()),
            None => None,
        }
    }

    /// Lines stored so far.
    pub fn total(&self) -> (n: u64)
        requires
            self.wf(),
        ensures
            n == self@.lines.len(),
    {
        self.total
    }

    /// Whether the file can take one more line without its length running out
    /// of numbers.
    pub fn has_room(&self, line: &str) -> (yes: bool)
        requires
            self.wf(),
        ensures
            yes == self@.has_room(line@),
    {
        let bytes: u64 = line.as_bytes().len() as u64;
        self.error.is_some() || (self.pos < u64::MAX && bytes <= u64::MAX - 1 - self.pos)
    }

    /// The bytes to write for one line (which must not contain `\n`: lines are
    /// newline-delimited), or nothing once a write has failed.
    pub fn record_for(&self, line: &str) -> (bytes: Option<Vec<u8>>)
        ensures
            bytes is Some <==> self@.error is None,
            bytes matches Some(b) ==> b@ == record(line@),
    {
        if self.error.is_some() {
            return None;
        }
        let mut bytes = line.as_bytes_vec();
        bytes.push(10);
        Some(bytes)
    }

    /// Append one line; `written` is how writing its record went.
    /// On write failure the error is remembered and the spill stops growing;
    /// the viewer keeps running on the ring buffer alone.
    pub fn append(&mut self, line: &str, written: Result<(), String>)
        requires
            old(self).wf(),
            old(self)@.has_room(line@),
        ensures
            final(self).wf(),
            final(self)@ == old(self)@.appended(line@, written),
    {
        if self.error.is_some() {
            return;
        }
        let ghost before = self.lines@;
        proof {
            lemma_count_le_bytes(before);
            assert(before.take(before.len() as int) =~= before);
        }
        if self.total.is_multiple_of(STRIDE) {
            self.index.push(self.pos);
        }
        match written {
            Err(why) => {
                self.error = Some(why);
            },
            Ok(_) => {
                let bytes: u64 = line.as_bytes().len() as u64;
                self.pos = self.pos + (bytes + 1);
                self.dirty = true;
                self.total = self.total + 1;
                self.lines = Ghost(before.push(line@));
                proof {
                    let after = self.lines@;
                    assert(after.drop_last() =~= before);
                    assert forall|k: int| 0 <= k < self.index@.len() implies #[trigger] self.index@[k]
                        == offset_of(after, k * 64) by {
                        assert(after.take(k * 64) =~= before.take(k * 64));
                    }
                }
            },
        }
    }

    /// Writing out everything appended so far, so that reads see it, was tried
    /// with the given outcome. A failure is remembered like that of an append.
    pub fn flushed(&mut self, done: Result<(), String>)
        requires
            old(self).wf(),
        ensures
            final(self).wf(),
            final(self)@ == old(self)@.flushed(done),
    {
        match done {
            Ok(_) => {
                self.dirty = false;
            },
            Err(why) => {
                if self.error.is_none() {
                    self.error = Some(why);
                }
            },
        }
    }

    /// How to fetch one line by absolute number: the last record of the read
    /// is the line.
    pub fn read_line(&self, abs: u64) -> (read: Option<SpillRead>)
        requires
            self.wf(),
        ensures
            read == self@.read_of(abs as int),
    {
        if abs >= self.total {
            return None;
        }
        assert(abs / 64 < self.index.len() && (abs / 64) * 64 == abs - abs % 64);
        let slot = (abs / STRIDE) as usize;
        let offset = self.index[slot];
        Some(SpillRead { flush: self.dirty, offset, records: abs % STRIDE + 1 })
    }

    /// How to stream every stored line in order (used to rebuild the filter
    /// view): each record of the read is one line.
    pub fn scan(&self) -> (read: Option<SpillRead>)
        requires
            self.wf(),
        ensures
            read == self@.scan_read(),
    {
        if self.total == 0 {
            return None;
        }
        Some(SpillRead { flush: self.dirty, offset: 0, records: self.total })
    }
}

/// The line in a record that was read back: without the line feed, decoded.
pub fn decode_record(raw: &[u8]) -> (line: String)
    ensures
        line@ == decoded(raw@),
{
    let n = raw.len();
    if n > 0 && raw[n - 1] == 10 {
        let content = slice_subrange(raw, 0, n - 1);
        assert(content@ =~= raw@.drop_last());
        decode_lossy(content)
    } else {
        decode_lossy(raw)
    }
}

// -------------------------------------------------------------------- laws

proof fn lemma_count_le_bytes(lines: Seq<Seq<char>>)
    ensures
        lines.len() <= file_of(lines).len(),
    decreases lines.len(),
{
    if lines.len() > 0 {
        lemma_count_le_bytes(lines.drop_last());
    }
}

/// The file begins with the given lines; whatever follows (the rest of a write
/// that failed) does not matter.
pub open spec fn file_holds(file: Seq<u8>, lines: Seq<Seq<char>>) -> bool {
    file_of(lines).is_prefix_of(file)
}

/// A line that can be stored: it holds no line feed.
pub open spec fn is_single_line(line: Seq<char>) -> bool {
    !line.contains('\n')
}

proof fn lemma_scalar_bytes(c: char)
    requires
        c != '\n',
    ensures
        forall|i: int|
            0 <= i < encode_scalar(c as u32).len() ==> #[trigger] encode_scalar(c as u32)[i] != 10,
{
    let v = c as u32;
    assert(v <= 0x7f && v != 10 ==> (v & 0x7F) as u8 != 10) by (bit_vector);
    assert(0xC0u8 | ((v >> 6) & 0x1F) as u8 >= 0xC0) by (bit_vector);
    assert(0xE0u8 | ((v >> 12) & 0x0F) as u8 >= 0xE0) by (bit_vector);
    assert(0xF0u8 | ((v >> 18) & 0x7) as u8 >= 0xF0) by (bit_vector);
    assert(0x80u8 | (v & 0x3F) as u8 >= 0x80) by (bit_vector);
    assert(0x80u8 | ((v >> 6) & 0x3F) as u8 >= 0x80) by (bit_vector);
    assert(0x80u8 | ((v >> 12) & 0x3F) as u8 >= 0x80) by (bit_vector);
}

proof fn lemma_encoding_has_no_line_feed(line: Seq<char>)
    requires
        is_single_line(line),
    ensures
        forall|i: int|
            0 <= i < encode_utf8(line).len() ==> #[trigger] encode_utf8(line)[i] != 10,
    decreases line.len(),
{
    if line.len() > 0 {
        let rest = line.drop_first();
        assert(is_single_line(rest)) by {
            assert forall|i: int| 0 <= i < rest.len() implies rest[i] != '\n' by {
                assert(rest[i] == line[i + 1]);
            }
        }
        lemma_encoding_has_no_line_feed(rest);
        assert(line.contains(line[0]));
        lemma_scalar_bytes(line[0]);
        let first = encode_scalar(line[0] as u32);
        assert forall|i: int| 0 <= i < encode_utf8(line).len() implies #[trigger] encode_utf8(
            line,
        )[i] != 10 by {
            if i < first.len() {
                assert(encode_utf8(line)[i] == first[i]);
            } else {
                assert(encode_utf8(line)[i] == encode_utf8(rest)[i - first.len()]);
            }
        }
    }
}

proof fn lemma_offset_step(lines: Seq<Seq<char>>, n: int)
    requires
        0 <= n < lines.len(),
    ensures
        file_of(lines.take(n + 1)) == file_of(lines.take(n)) + record(lines[n]),
        offset_of(lines, n + 1) == offset_of(lines, n) + record(lines[n]).len(),
{
    assert(lines.take(n + 1).drop_last() =~= lines.take(n));
}

proof fn lemma_prefix(lines: Seq<Seq<char>>, n: int)
    requires
        0 <= n <= lines.len(),
    ensures
        file_of(lines.take(n)).is_prefix_of(file_of(lines)),
    decreases lines.len() - n,
{
    if n < lines.len() {
        lemma_prefix(lines, n + 1);
        lemma_offset_step(lines, n);
    } else {
        assert(lines.take(n) =~= lines);
    }
}

proof fn lemma_record_run(file: Seq<u8>, from: int, end: int)
    requires
        0 <= from <= end < file.len(),
        forall|k: int| from <= k < end ==> file[k] != 10,
        file[end] == 10,
    ensures
        record_end(file, from) == end + 1,
    decreases end - from,
{
    if from < end {
        lemma_record_run(file, from + 1, end);
    }
}

/// Line `n` of the file lies between its offset and the next one, and a read
/// that starts at its offset stops right after it.
proof fn lemma_record_in_file(file: Seq<u8>, lines: Seq<Seq<char>>, n: int)
    requires
        file_holds(file, lines),
        0 <= n < lines.len(),
        is_single_line(lines[n]),
    ensures
        0 <= offset_of(lines, n) <= offset_of(lines, n + 1) <= file.len(),
        record_end(file, offset_of(lines, n)) == offset_of(lines, n + 1),
        file.subrange(offset_of(lines, n), offset_of(lines, n + 1)) == record(lines[n]),
{
    lemma_prefix(lines, n + 1);
    lemma_offset_step(lines, n);
    lemma_encoding_has_no_line_feed(lines[n]);
    let from = offset_of(lines, n);
    let next = offset_of(lines, n + 1);
    let head = file_of(lines.take(n + 1));
    let rec = record(lines[n]);
    assert(head.is_prefix_of(file));
    assert forall|k: int| 0 <= k < rec.len() implies #[trigger] rec[k] == file[from + k] by {
        assert(head[from + k] == rec[k]);
        assert(file[from + k] == head[from + k]);
    }
    assert(file.subrange(from, next) =~= rec);
    assert forall|k: int| from <= k < next - 1 implies file[k] != 10 by {
        assert(rec[k - from] == file[from + (k - from)]);
    }
    assert(rec[rec.len() - 1] == file[from + (rec.len() - 1)]);
    lemma_record_run(file, from, next - 1);
}

proof fn lemma_skip(file: Seq<u8>, lines: Seq<Seq<char>>, from: int, n: nat)
    requires
        file_holds(file, lines),
        0 <= from,
        from + n <= lines.len(),
        forall|i: int| 0 <= i < lines.len() ==> is_single_line(#[trigger] lines[i]),
    ensures
        skip_records(file, offset_of(lines, from), n) == offset_of(lines, from + n),
    decreases n,
{
    if n > 0 {
        lemma_skip(file, lines, from, (n - 1) as nat);
        lemma_record_in_file(file, lines, from + n - 1);
    }
}

proof fn lemma_decode_record(line: Seq<char>)
    ensures
        decoded(record(line)) == line,
{
    assert(record(line).drop_last() =~= encode_utf8(line));
    encode_utf8_valid_utf8(line);
    encode_utf8_decode_utf8(line);
}

/// Reading gives back what was written: for every stored line, carrying out
/// the read that the spill asks for on the file that its writes made, and
/// decoding the last record, yields that very line. This also holds after a
/// write has failed, for the lines stored before.
pub proof fn law_read_back(spill: SpillView, file: Seq<u8>, abs: int)
    requires
        file_holds(file, spill.lines),
        file.len() <= u64::MAX,
        forall|i: int| 0 <= i < spill.lines.len() ==> is_single_line(#[trigger] spill.lines[i]),
        0 <= abs < spill.lines.len(),
    ensures
        spill.read_of(abs) is Some,
        ({
            let read = spill.read_of(abs)->0;
            decoded(nth_record(file, read.offset as int, (read.records - 1) as nat))
                == spill.lines[abs]
        }),
{
    let base = abs - abs % 64;
    lemma_prefix(spill.lines, base);
    lemma_skip(file, spill.lines, base, (abs % 64) as nat);
    lemma_record_in_file(file, spill.lines, abs);
    lemma_decode_record(spill.lines[abs]);
}

/// Scanning streams every stored line in order: record number `n` of the scan
/// decodes to line number `n`, and there are as many records as lines.
pub proof fn law_scan_streams_all(spill: SpillView, file: Seq<u8>, n: int)
    requires
        file_holds(file, spill.lines),
        file.len() <= u64::MAX,
        forall|i: int| 0 <= i < spill.lines.len() ==> is_single_line(#[trigger] spill.lines[i]),
        0 <= n < spill.lines.len(),
    ensures
        spill.scan_read() is Some,
        spill.scan_read()->0.records == spill.lines.len(),
        decoded(nth_record(file, spill.scan_read()->0.offset as int, n as nat)) == spill.lines[n],
{
    lemma_count_le_bytes(spill.lines);
    assert(spill.lines.take(0) =~= Seq::empty());
    lemma_skip(file, spill.lines, 0, n as nat);
    lemma_record_in_file(file, spill.lines, n);
    lemma_decode_record(spill.lines[n]);
}

/// Writing keeps the file and the spill in step: when the record of a line has
/// been written behind the stored lines, the file holds the stored lines with
/// the new one.
pub proof fn law_write_extends_file(spill: SpillView, line: Seq<char>)
    requires
        spill.error is None,
    ensures
        file_of(spill.appended(line, Ok(())).lines) == file_of(spill.lines) + record(line),
{
    assert(spill.lines.push(line).drop_last() =~= spill.lines);
}

/// Fetching a line reads at most `STRIDE - 1` lines before it, and starts no
/// later than at the line itself.
pub proof fn law_read_is_short(spill: SpillView, abs: int)
    requires
        0 <= abs < spill.lines.len(),
    ensures
        spill.read_of(abs) is Some,
        1 <= spill.read_of(abs)->0.records <= STRIDE,
{
}

/// Memory stays sparse: one index entry per `STRIDE` lines, plus one.
pub proof fn law_index_is_sparse(spill: &Spill)
    requires
        spill.wf(),
    ensures
        spill.index_len() <= spill@.lines.len() / 64 + 1,
{
}

/// Whatever is tried to be stored, one line after the other.
pub open spec fn appended_all(
    spill: SpillView,
    lines: Seq<Seq<char>>,
    written: Seq<Result<(), String>>,
    n: nat,
) -> SpillView
    decreases n,
{
    if n == 0 {
        spill
    } else {
        appended_all(spill, lines, written, (n - 1) as nat).appended(lines[n - 1], written[n - 1])
    }
}

proof fn lemma_frozen(
    spill: SpillView,
    lines: Seq<Seq<char>>,
    written: Seq<Result<(), String>>,
    n: nat,
)
    requires
        spill.error is Some,
    ensures
        appended_all(spill, lines, written, n) == spill,
    decreases n,
{
    if n > 0 {
        lemma_frozen(spill, lines, written, (n - 1) as nat);
    }
}

/// Once a write has failed its error is remembered and the spill stops growing
/// for good: whatever is appended later, the error and the lines stored before
/// stay as they are, and no read or scan goes beyond those lines.
pub proof fn law_failed_spill_is_frozen(
    spill: SpillView,
    line: Seq<char>,
    why: String,
    later: Seq<Seq<char>>,
    written: Seq<Result<(), String>>,
    n: nat,
    abs: int,
)
    requires
        spill.error is None,
        spill.lines.len() <= u64::MAX,
        spill.lines.len() <= abs,
    ensures
        ({
            let after = appended_all(spill.appended(line, Err(why)), later, written, n);
            &&& after.error == Some(why@)
            &&& after.lines == spill.lines
            &&& after.read_of(abs) is None
            &&& after.scan_read() matches Some(read) ==> read.records == spill.lines.len()
        }),
{
    lemma_frozen(spill.appended(line, Err(why)), later, written, n);
}

/// A write that fails only when the buffer is written out is a failed write
/// too: it sets the error, unless there is one already, and freezes the spill.
pub proof fn law_failed_flush_is_a_failed_write(
    spill: SpillView,
    why: String,
    later: Seq<Seq<char>>,
    written: Seq<Result<(), String>>,
    n: nat,
)
    ensures
        ({
            let after = appended_all(spill.flushed(Err(why)), later, written, n);
            &&& after.error is Some
            &&& spill.error is None ==> after.error == Some(why@)
            &&& spill.error is Some ==> after.error == spill.error
            &&& after.lines == spill.lines
            &&& after.dirty == spill.dirty
        }),
{
    lemma_frozen(spill.flushed(Err(why)), later, written, n);
}

/// The file holds nothing at first, and each line adds its UTF-8 encoding and a
/// line feed at the end.
pub proof fn law_file_format(lines: Seq<Seq<char>>, line: Seq<char>)
    ensures
        file_of(Seq::empty()) == Seq::<u8>::empty(),
        file_of(lines.push(line)) == file_of(lines) + encode_utf8(line) + seq![10u8],
        record(line) == encode_utf8(line) + seq![10u8],
{
    assert(lines.push(line).drop_last() =~= lines);
    assert(record(line) =~= encode_utf8(line) + seq![10u8]);
    assert(file_of(lines.push(line)) =~= file_of(lines) + encode_utf8(line) + seq![10u8]);
}

/// A record ends right after the next line feed, or at the end of the file.
pub proof fn law_record_ends_after_line_feed(file: Seq<u8>, from: int)
    requires
        0 <= from < file.len(),
    ensures
        from < record_end(file, from) <= file.len(),
        forall|k: int| from <= k < record_end(file, from) - 1 ==> #[trigger] file[k] != 10,
        file[record_end(file, from) - 1] == 10 || record_end(file, from) == file.len(),
    decreases file.len() - from,
{
    reveal_with_fuel(record_end, 2);
    if file[from] != 10 && from + 1 < file.len() {
        law_record_ends_after_line_feed(file, from + 1);
    }
}

/// Records follow one another: the first starts where the read starts, and each
/// other one where the one before it ends.
pub proof fn law_records_follow_one_another(file: Seq<u8>, from: int, n: nat)
    ensures
        nth_record(file, from, 0) == file.subrange(from, record_end(file, from)),
        nth_record(file, from, n + 1) == nth_record(file, record_end(file, from), n),
{
    lemma_skip_first(file, from, n);
    assert(skip_records(file, from, n + 1) == skip_records(file, record_end(file, from), n));
}

proof fn lemma_skip_first(file: Seq<u8>, from: int, n: nat)
    ensures
        skip_records(file, from, n + 1) == skip_records(file, record_end(file, from), n),
    decreases n,
{
    if n > 0 {
        lemma_skip_first(file, from, (n - 1) as nat);
    } else {
        assert(skip_records(file, from, 0) == from);
    }
}

/// A record stands for the text that it encodes; the line feed that ends it,
/// where it has one, is no part of the text, and no other line feed goes.
pub proof fn law_record_decodes_to_its_line(line: Seq<char>)
    ensures
        decoded(encode_utf8(line).push(10u8)) == line,
        is_single_line(line) ==> decoded(encode_utf8(line)) == line,
{
    assert(encode_utf8(line).push(10u8).drop_last() =~= encode_utf8(line));
    crate::text::law_decoding_undoes_encoding(line);
    if is_single_line(line) {
        lemma_encoding_has_no_line_feed(line);
    }
}

/// A record that is not valid UTF-8 decodes as all of its bytes but the line
/// feed at its end.
pub proof fn law_invalid_record_decodes_whole(raw: Seq<u8>)
    requires
        !valid_utf8(raw),
    ensures
        raw.last() != 10 ==> decoded(raw) == crate::text::invalid_utf8_lossy(raw),
        decoded(raw.push(10u8)) == crate::text::invalid_utf8_lossy(raw),
{
    assert(raw.push(10u8).drop_last() =~= raw);
}

/// A line that was written is stored last and has still to be flushed; it can
/// be read from then on, and the lines stored before it as before.
pub proof fn law_append_stores_the_line(spill: SpillView, line: Seq<char>, abs: int)
    requires
        spill.error is None,
    ensures
        ({
            let after = spill.appended(line, Ok(()));
            &&& after.lines.len() == spill.lines.len() + 1
            &&& after.lines.last() == line
            &&& after.lines.drop_last() == spill.lines
            &&& after.error is None
            &&& after.read_of(spill.lines.len() as int) is Some
            &&& after.read_of(abs) is Some <==> 0 <= abs <= spill.lines.len()
            &&& after.read_of(abs) matches Some(read) ==> read.flush
            &&& after.scan_read() matches Some(read) ==> read.flush
            &&& 0 <= abs < spill.lines.len() ==> after.read_of(abs)->0.offset
                == spill.read_of(abs)->0.offset
        }),
{
    assert(spill.lines.push(line).drop_last() =~= spill.lines);
    if 0 <= abs < spill.lines.len() {
        let base = abs - abs % 64;
        assert(spill.lines.push(line).take(base) =~= spill.lines.take(base));
    }
}

/// After a flush that went well nothing has to be flushed until the next line
/// is appended, and nothing else changes.
pub proof fn law_flush_is_asked_for_once(spill: SpillView, abs: int)
    ensures
        ({
            let after = spill.flushed(Ok(()));
            &&& after.lines == spill.lines
            &&& after.error == spill.error
            &&& after.read_of(abs) matches Some(read) ==> !read.flush
            &&& after.scan_read() matches Some(read) ==> !read.flush
            &&& after.read_of(abs) is Some <==> spill.read_of(abs) is Some
        }),
{
}

/// A read starts at the last line before or at the wanted one whose number is a
/// multiple of 64, at the byte where the lines before that end, and takes as
/// many records as lead to the wanted line. A scan starts at the first byte and
/// takes a record for each line.
pub proof fn law_reads_start_at_indexed_lines(spill: SpillView, abs: int)
    requires
        0 <= abs < spill.lines.len(),
        file_of(spill.lines).len() <= u64::MAX,
    ensures
        ({
            let read = spill.read_of(abs)->0;
            let base = abs + 1 - read.records;
            &&& spill.read_of(abs) is Some
            &&& base % 64 == 0
            &&& 0 <= base <= abs < base + 64
            &&& read.offset == file_of(spill.lines.take(base)).len()
            &&& spill.scan_read() is Some
            &&& spill.scan_read()->0.offset == 0
            &&& spill.scan_read()->0.records == spill.lines.len()
        }),
{
    lemma_count_le_bytes(spill.lines);
    lemma_prefix(spill.lines, abs - abs % 64);
}

/// There is nothing to read beyond the stored lines, and nothing to scan where
/// there are none.
pub proof fn law_nothing_to_read_beyond_the_end(spill: SpillView, abs: int)
    requires
        abs < 0 || abs >= spill.lines.len(),
    ensures
        spill.read_of(abs) is None,
        spill.lines.len() == 0 ==> spill.scan_read() is None,
{
}

/// There is room for a line as long as the length of the file with its encoding
/// and a line feed can be counted, and always where nothing is written any more.
pub proof fn law_room(spill: SpillView, line: Seq<char>)
    ensures
        spill.has_room(line) <==> spill.error is Some || file_of(spill.lines).len()
            + encode_utf8(line).len() + 1 <= u64::MAX,
{
}

} // verus!
