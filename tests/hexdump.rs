use std::io::{Read, Write};

use flate2::write::ZlibEncoder;
use flate2::Compression;
use unzlib::{
    gen_info, is_printable, print_hexdump, zlib_source, DumpError, MyError, ReadSource, WriteSink,
};

fn lines_of(sink: WriteSink<Vec<u8>>) -> Vec<String> {
    let text = String::from_utf8(sink.into_inner()).unwrap();
    text.split_inclusive('\n').map(|l| l.to_string()).collect()
}

fn dump<R: Read>(reader: R) -> (Result<(), DumpError>, Vec<String>) {
    let mut source = ReadSource::new(reader);
    let mut sink = WriteSink::new(Vec::new());
    let r = print_hexdump(&mut source, &mut sink);
    (r, lines_of(sink))
}

fn run_over(data: &[u8]) -> (Result<(), DumpError>, Vec<String>) {
    dump(data)
}

fn hex_pairs(s: &str) -> Vec<u8> {
    s.split(' ').map(|p| u8::from_str_radix(p, 16).unwrap()).collect()
}

#[test]
fn test_gen_info() {
    let input = "abc".as_bytes();
    let out = gen_info(input, 0);
    assert_eq!(out, "00000000 61 62 63                                         |abc|".to_string() + "\n");
}

#[test]
fn full_line_of_zero_bytes() {
    let out = gen_info(&[0u8; 16], 0);
    let hex = vec!["00"; 16].join(" ");
    assert_eq!(out, format!("00000000 {}  |................|\n", hex));
}

#[test]
fn offset_is_eight_lowercase_digits() {
    let out = gen_info(&[0xff], 0xdeadbeef);
    assert_eq!(out, format!("deadbeef ff{}  |.|\n", " ".repeat(45)));
    let out = gen_info(&[0x41], 0x10);
    assert!(out.starts_with("00000010 41 "));
}

#[test]
fn preview_marks_unprintable_bytes() {
    let out = gen_info(&[0x1f, 0x20, 0x2e, 0x7e, 0x7f, 0x80, 0x00], 0);
    assert!(out.ends_with("  |. .~...|\n"));
}

#[test]
fn printable_range_edges() {
    assert!(!is_printable(0x1f));
    assert!(is_printable(0x20));
    assert!(is_printable(0x7e));
    assert!(!is_printable(0x7f));
    assert!(!is_printable(0xff));
    for b in 0..=255u8 {
        assert_eq!(is_printable(b), (0x20..=0x7e).contains(&b));
    }
}

#[test]
fn preview_column_is_fixed() {
    for n in 1..=16usize {
        let bytes: Vec<u8> = (0..n as u8).map(|b| b.wrapping_mul(37)).collect();
        let out = gen_info(&bytes, 0x1234);
        assert_eq!(out.len(), 61 + n);
        assert_eq!(out.find('|'), Some(58));
        assert!(out.ends_with("|\n"));
        assert_eq!(&out[..9], "00001234 ");
    }
}

#[test]
fn hex_group_reads_back() {
    let bytes: Vec<u8> = vec![0x00, 0x0f, 0x10, 0x7f, 0x80, 0xab, 0xff];
    let out = gen_info(&bytes, 0);
    let group = &out[9..9 + 3 * bytes.len() - 1];
    assert_eq!(hex_pairs(group), bytes);
}

#[test]
fn twenty_bytes_make_two_lines() {
    let data: Vec<u8> = (0..20u8).collect();
    let (r, lines) = run_over(&data);
    assert!(r.is_ok());
    assert_eq!(lines.len(), 2);
    assert_eq!(lines[0], gen_info(&data[..16], 0));
    assert_eq!(lines[1], gen_info(&data[16..], 16));
    assert!(lines[1].starts_with("00000010 10 11 12 13 "));
}

#[test]
fn empty_stream_writes_nothing() {
    let (r, lines) = run_over(&[]);
    assert!(r.is_ok());
    assert!(lines.is_empty());
}

#[test]
fn offsets_step_by_sixteen() {
    let data = vec![0x41u8; 40];
    let (r, lines) = run_over(&data);
    assert!(r.is_ok());
    let offsets: Vec<&str> = lines.iter().map(|l| &l[..8]).collect();
    assert_eq!(offsets, vec!["00000000", "00000010", "00000020"]);
    assert!(lines[2].contains(&format!("41 41 41 41 41 41 41 41{}  |", " ".repeat(24))));
}

struct ShortReads {
    sizes: Vec<usize>,
    next: usize,
}

impl Read for ShortReads {
    fn read(&mut self, buf: &mut [u8]) -> Result<usize, std::io::Error> {
        if self.next >= self.sizes.len() {
            return Ok(0);
        }
        let n = self.sizes[self.next];
        self.next += 1;
        for b in buf.iter_mut().take(n) {
            *b = 0x2a;
        }
        Ok(n)
    }
}

#[test]
fn offset_ignores_chunk_length() {
    let (r, lines) = dump(ShortReads { sizes: vec![3, 5, 16], next: 0 });
    assert!(r.is_ok());
    assert_eq!(lines.len(), 3);
    assert!(lines[0].starts_with("00000000 2a 2a 2a "));
    assert!(lines[1].starts_with("00000010 2a 2a 2a 2a 2a "));
    assert!(lines[2].starts_with("00000020 "));
}

struct FailingSource {
    good: usize,
}

impl Read for FailingSource {
    fn read(&mut self, buf: &mut [u8]) -> Result<usize, std::io::Error> {
        if self.good == 0 {
            return Err(std::io::Error::new(std::io::ErrorKind::Other, "broken source"));
        }
        self.good -= 1;
        for b in buf.iter_mut() {
            *b = 0x61;
        }
        Ok(buf.len())
    }
}

#[test]
fn read_error_stops_run() {
    let (r, lines) = dump(FailingSource { good: 2 });
    match r {
        Err(DumpError::Read(e)) => assert_eq!(e.to_string(), "broken source"),
        other => panic!("unexpected result {:?}", other),
    }
    assert_eq!(lines.len(), 2);
    assert!(lines[1].starts_with("00000010 "));
}

struct FailingSink {
    bytes: Vec<u8>,
    capacity: usize,
}

impl Write for FailingSink {
    fn write(&mut self, buf: &[u8]) -> Result<usize, std::io::Error> {
        if self.bytes.len() + buf.len() > self.capacity {
            return Err(std::io::Error::new(std::io::ErrorKind::Other, "sink full"));
        }
        self.bytes.extend_from_slice(buf);
        Ok(buf.len())
    }

    fn flush(&mut self) -> Result<(), std::io::Error> {
        Ok(())
    }
}

#[test]
fn write_error_stops_run() {
    let data = vec![0u8; 64];
    let mut source = ReadSource::new(&data[..]);
    let mut sink = WriteSink::new(FailingSink { bytes: Vec::new(), capacity: 2 * 77 + 10 });
    match print_hexdump(&mut source, &mut sink) {
        Err(DumpError::Write(e)) => assert_eq!(e.to_string(), "sink full"),
        other => panic!("unexpected result {:?}", other),
    }
    let written = sink.into_inner().bytes;
    assert_eq!(written.len(), 2 * 77);
    assert_eq!(written.iter().filter(|b| **b == b'\n').count(), 2);
}

fn compress(data: &[u8]) -> Vec<u8> {
    let mut e = ZlibEncoder::new(Vec::new(), Compression::default());
    e.write_all(data).unwrap();
    e.finish().unwrap()
}

#[test]
fn zlib_stream_is_inflated() {
    let compressed = compress(b"hello, zlib world!");
    let mut source = zlib_source(compressed);
    let mut sink = WriteSink::new(Vec::new());
    assert!(print_hexdump(&mut source, &mut sink).is_ok());
    let lines = lines_of(sink);
    assert_eq!(lines.len(), 2);
    assert_eq!(
        lines[0],
        "00000000 68 65 6c 6c 6f 2c 20 7a 6c 69 62 20 77 6f 72 6c  |hello, zlib worl|\n"
    );
    assert_eq!(lines[1], format!("00000010 64 21{}  |d!|\n", " ".repeat(42)));
}

#[test]
fn corrupt_zlib_stream_reports_read_error() {
    let mut source = zlib_source(vec![0x78, 0x9c, 0xff, 0xff, 0xff, 0xff]);
    let mut sink = WriteSink::new(Vec::new());
    let r = print_hexdump(&mut source, &mut sink);
    assert!(matches!(r, Err(DumpError::Read(_))));
    assert!(lines_of(sink).is_empty());
}

#[test]
fn truncated_zlib_stream_reports_read_error() {
    let compressed = compress(&[7u8; 100]);
    let mut source = zlib_source(compressed[..compressed.len() - 4].to_vec());
    let mut sink = WriteSink::new(Vec::new());
    let r = print_hexdump(&mut source, &mut sink);
    assert!(matches!(r, Err(DumpError::Read(_))));
}

#[test]
fn error_keeps_its_message() {
    let e = MyError::new("file path required".to_string());
    assert_eq!(e.0, "file path required");
}

#[test]
fn zero_read_ends_run_early() {
    let mut source = ReadSource::new(ShortReads { sizes: vec![4, 0, 16], next: 0 });
    let mut sink = WriteSink::new(Vec::new());
    assert!(print_hexdump(&mut source, &mut sink).is_ok());
    assert_eq!(source.into_inner().next, 2);
    let lines = lines_of(sink);
    assert_eq!(lines, vec![format!("00000000 2a 2a 2a 2a{}  |****|\n", " ".repeat(36))]);
}

struct TracedReader {
    data: Vec<u8>,
    pos: usize,
    trace: std::rc::Rc<std::cell::RefCell<Vec<String>>>,
}

impl Read for TracedReader {
    fn read(&mut self, buf: &mut [u8]) -> Result<usize, std::io::Error> {
        let n = buf.len().min(self.data.len() - self.pos);
        buf[..n].copy_from_slice(&self.data[self.pos..self.pos + n]);
        self.pos += n;
        self.trace.borrow_mut().push(format!("read {} of {}", n, buf.len()));
        Ok(n)
    }
}

struct TracedWriter {
    trace: std::rc::Rc<std::cell::RefCell<Vec<String>>>,
}

impl Write for TracedWriter {
    fn write(&mut self, buf: &[u8]) -> Result<usize, std::io::Error> {
        self.trace.borrow_mut().push(format!("write {}", buf.len()));
        Ok(buf.len())
    }

    fn flush(&mut self) -> Result<(), std::io::Error> {
        Ok(())
    }
}

#[test]
fn reads_and_writes_alternate() {
    let trace = std::rc::Rc::new(std::cell::RefCell::new(Vec::new()));
    let reader = TracedReader { data: (0..20u8).collect(), pos: 0, trace: trace.clone() };
    let mut source = ReadSource::new(reader);
    let mut sink = WriteSink::new(TracedWriter { trace: trace.clone() });
    assert!(print_hexdump(&mut source, &mut sink).is_ok());
    let events = trace.borrow().clone();
    assert_eq!(
        events,
        vec!["read 16 of 16", "write 77", "read 4 of 16", "write 65", "read 0 of 16"]
    );
}
