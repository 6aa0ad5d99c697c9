//! The spill, with a file that is kept in memory.

use std::io::{BufRead, Cursor};

use logtui::spill::{decode_record, Spill, SpillRead, STRIDE};

/// A spill together with its file; writes go through a buffer, as they do on
/// disk.
struct Stored {
    spill: Spill,
    file: Vec<u8>,
    buffered: Vec<u8>,
}

impl Stored {
    fn new() -> Stored {
        Stored { spill: Spill::new(), file: Vec::new(), buffered: Vec::new() }
    }

    fn append(&mut self, line: &str) {
        assert!(self.spill.has_room(line));
        if let Some(record) = self.spill.record_for(line) {
            self.buffered.extend(record);
        }
        self.spill.append(line, Ok(()));
    }

    fn records(&mut self, read: SpillRead) -> Vec<String> {
        if read.flush {
            self.file.append(&mut self.buffered);
            self.spill.flushed(Ok(()));
        }
        let mut reader = Cursor::new(&self.file);
        reader.set_position(read.offset);
        let mut lines = Vec::new();
        for _ in 0..read.records {
            let mut raw = Vec::new();
            reader.read_until(b'\n', &mut raw).unwrap();
            lines.push(decode_record(&raw));
        }
        lines
    }

    fn read_line(&mut self, abs: u64) -> Option<String> {
        let read = self.spill.read_line(abs)?;
        self.records(read).pop()
    }

    fn scan(&mut self) -> Vec<(u64, String)> {
        match self.spill.scan() {
            Some(read) => (0..).zip(self.records(read)).collect(),
            None => Vec::new(),
        }
    }
}

#[test]
fn roundtrip_across_stride_boundaries() {
    let mut sp = Stored::new();
    for i in 0..200 {
        sp.append(&format!("line-{i}"));
    }
    for abs in [0, 1, 63, 64, 65, 127, 128, 199] {
        assert_eq!(sp.read_line(abs).as_deref(), Some(format!("line-{abs}").as_str()));
    }
    assert_eq!(sp.read_line(200), None);
}

#[test]
fn scan_streams_all_lines_and_interleaves_with_appends() {
    let mut sp = Stored::new();
    sp.append("a");
    sp.append("b");
    let mut got = sp.scan();
    assert_eq!(got, vec![(0, "a".into()), (1, "b".into())]);
    sp.append("c");
    got.clear();
    got.extend(sp.scan());
    assert_eq!(got.len(), 3);
    assert_eq!(got[2], (2, "c".to_string()));
    // reads still work after a scan repositioned the reader
    assert_eq!(sp.read_line(0).as_deref(), Some("a"));
}

#[test]
fn empty_and_unicode_lines() {
    let mut sp = Stored::new();
    sp.append("");
    sp.append("grüße — ünïcode");
    assert_eq!(sp.read_line(0).as_deref(), Some(""));
    assert_eq!(sp.read_line(1).as_deref(), Some("grüße — ünïcode"));
}

#[test]
fn nothing_to_read_in_an_empty_spill() {
    let mut sp = Stored::new();
    assert_eq!(sp.read_line(0), None);
    assert_eq!(sp.scan(), vec![]);
    assert_eq!(sp.spill.total(), 0);
    assert_eq!(sp.spill.error(), None);
}

#[test]
fn reads_start_at_an_indexed_line() {
    let mut sp = Stored::new();
    for _ in 0..130 {
        sp.append("abc"); // four bytes each
    }
    let read = sp.spill.read_line(0).unwrap();
    assert_eq!(read, SpillRead { flush: true, offset: 0, records: 1 });
    assert_eq!(sp.spill.read_line(63).unwrap().records, STRIDE);
    assert_eq!(
        sp.spill.read_line(64).unwrap(),
        SpillRead { flush: true, offset: 64 * 4, records: 1 }
    );
    assert_eq!(
        sp.spill.read_line(129).unwrap(),
        SpillRead { flush: true, offset: 128 * 4, records: 2 }
    );
    assert_eq!(
        sp.spill.scan().unwrap(),
        SpillRead { flush: true, offset: 0, records: 130 }
    );
    for abs in 0..130 {
        assert!(sp.spill.read_line(abs).unwrap().records <= STRIDE);
    }
}

#[test]
fn flushing_is_asked_for_once() {
    let mut sp = Stored::new();
    sp.append("x");
    assert!(sp.spill.read_line(0).unwrap().flush);
    assert_eq!(sp.read_line(0).as_deref(), Some("x"));
    assert!(!sp.spill.read_line(0).unwrap().flush);
    sp.append("y");
    assert!(sp.spill.scan().unwrap().flush);
}

#[test]
fn a_failed_write_freezes_the_spill() {
    let mut sp = Stored::new();
    sp.append("kept");
    sp.spill.append("lost", Err("disk full".into()));
    assert_eq!(sp.spill.error(), Some("disk full"));
    assert_eq!(sp.spill.record_for("more"), None);
    sp.spill.append("more", Ok(()));
    sp.spill.append("more", Err("again".into()));
    assert_eq!(sp.spill.error(), Some("disk full"));
    assert_eq!(sp.spill.total(), 1);
    assert_eq!(sp.read_line(0).as_deref(), Some("kept"));
    assert_eq!(sp.read_line(1), None);
    assert_eq!(sp.scan(), vec![(0, "kept".into())]);
}

#[test]
fn a_write_may_fail_where_an_index_entry_is_due() {
    let mut sp = Stored::new();
    for i in 0..64 {
        sp.append(&format!("{i}"));
    }
    sp.spill.append("lost", Err("full".into()));
    assert_eq!(sp.read_line(63).as_deref(), Some("63"));
    assert_eq!(sp.read_line(64), None);
}

#[test]
fn a_failed_flush_is_a_failed_write() {
    let mut sp = Stored::new();
    sp.append("a");
    assert_eq!(sp.spill.error(), None); // only buffered
    assert!(sp.spill.read_line(0).unwrap().flush);
    sp.spill.flushed(Err("disk full".into()));
    assert_eq!(sp.spill.error(), Some("disk full"));
    assert_eq!(sp.spill.record_for("b"), None);
    sp.spill.append("b", Ok(()));
    assert_eq!(sp.spill.total(), 1);
    assert_eq!(sp.spill.read_line(1), None);
    // It is tried again; the first error stays.
    assert!(sp.spill.read_line(0).unwrap().flush);
    sp.spill.flushed(Err("again".into()));
    assert_eq!(sp.spill.error(), Some("disk full"));
    assert_eq!(sp.read_line(0).as_deref(), Some("a"));
    assert!(!sp.spill.read_line(0).unwrap().flush);
    assert_eq!(sp.spill.error(), Some("disk full"));
}

#[test]
fn records_decode_to_lines() {
    assert_eq!(Spill::new().record_for("ab"), Some(b"ab\n".to_vec()));
    assert_eq!(decode_record(b"ab\n"), "ab");
    assert_eq!(decode_record(b"ab"), "ab");
    assert_eq!(decode_record(b"ab\n\n"), "ab\n");
    assert_eq!(decode_record(b""), "");
    assert_eq!(decode_record(b"\xff\n"), "\u{fffd}");
}
