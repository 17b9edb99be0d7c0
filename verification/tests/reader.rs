use printio::{MemoryReader, PrintReader, Readable, Writable};
use std::io;

/// A sink that counts the calls made on it and fails from a given call on.
struct FlakySink {
    kept: Vec<u8>,
    calls: usize,
    fail_from: usize,
}

impl FlakySink {
    fn reliable() -> Self {
        FlakySink::failing_from(usize::MAX)
    }

    fn failing_from(fail_from: usize) -> Self {
        FlakySink { kept: Vec::new(), calls: 0, fail_from }
    }

    fn step(&mut self) -> io::Result<()> {
        self.calls += 1;
        if self.calls >= self.fail_from {
            Err(io::Error::new(
                io::ErrorKind::BrokenPipe,
                format!("sink closed at call {}", self.calls),
            ))
        } else {
            Ok(())
        }
    }
}

impl Writable for FlakySink {
    fn write(&mut self, buf: &[u8]) -> io::Result<usize> {
        self.step()?;
        self.kept.extend_from_slice(buf);
        Ok(buf.len())
    }

    fn write_all(&mut self, buf: &[u8]) -> io::Result<()> {
        self.step()?;
        self.kept.extend_from_slice(buf);
        Ok(())
    }

    fn flush(&mut self) -> io::Result<()> {
        self.step()
    }
}

/// A source that always fails.
struct BrokenSource;

impl Readable for BrokenSource {
    fn read(&mut self, _buf: &mut [u8]) -> io::Result<usize> {
        Err(io::Error::new(io::ErrorKind::UnexpectedEof, "source broke"))
    }
}

#[test]
fn labelled_reader_mirrors_each_chunk_with_its_label() {
    let source = MemoryReader::new(vec![1, 2, 3, 4, 5]);
    let mut reader = PrintReader::new_with_label(source, Vec::new(), "R:".to_string());
    let mut buf = [0u8; 3];

    assert_eq!(reader.read(&mut buf).unwrap(), 3);
    assert_eq!(buf, [1, 2, 3]);
    assert_eq!(reader.read(&mut buf).unwrap(), 2);
    assert_eq!(&buf[..2], &[4, 5]);

    let (_, sink) = reader.into_inner();
    assert_eq!(sink, vec![b'R', b':', 1, 2, 3, b'R', b':', 4, 5]);
}

#[test]
fn labelled_reader_sink_after_first_read() {
    let source = MemoryReader::new(vec![1, 2, 3, 4, 5]);
    let mut reader = PrintReader::new_with_label(source, Vec::new(), "R:".to_string());
    let mut buf = [0u8; 3];

    assert_eq!(reader.read(&mut buf).unwrap(), 3);
    let (mut source, sink) = reader.into_inner();
    assert_eq!(sink, vec![b'R', b':', 1, 2, 3]);

    // the source has moved on by exactly what was delivered
    let mut rest = [0u8; 8];
    assert_eq!(source.read(&mut rest).unwrap(), 2);
    assert_eq!(&rest[..2], &[4, 5]);
}

#[test]
fn labelled_reader_writes_label_and_chunk_separately() {
    let source = MemoryReader::new(vec![1, 2, 3, 4, 5]);
    let mut reader = PrintReader::new_with_label(source, FlakySink::reliable(), "R:".to_string());
    let mut buf = [0u8; 3];
    reader.read(&mut buf).unwrap();
    reader.read(&mut buf).unwrap();
    let (_, sink) = reader.into_inner();
    assert_eq!(sink.calls, 4);
    assert_eq!(sink.kept, vec![b'R', b':', 1, 2, 3, b'R', b':', 4, 5]);
}

#[test]
fn unlabelled_reader_adds_no_bytes() {
    let data: Vec<u8> = (0u8..=99).collect();
    let mut reader = PrintReader::new(MemoryReader::new(data.clone()), FlakySink::reliable());
    let mut seen = Vec::new();
    let mut buf = [0u8; 7];
    let mut calls = 0;
    loop {
        let n = reader.read(&mut buf).unwrap();
        calls += 1;
        if n == 0 {
            break;
        }
        seen.extend_from_slice(&buf[..n]);
    }
    let (_, sink) = reader.into_inner();
    assert_eq!(seen, data);
    assert_eq!(sink.kept, data);
    // one write per read and no label write
    assert_eq!(sink.calls, calls);
    assert_eq!(calls, 16);
}

#[test]
fn empty_label_given_explicitly_is_no_label() {
    let source = MemoryReader::new(vec![9, 8, 7]);
    let mut reader = PrintReader::new_with_label(source, FlakySink::reliable(), String::new());
    let mut buf = [0u8; 2];
    assert_eq!(reader.read(&mut buf).unwrap(), 2);
    assert_eq!(reader.read(&mut buf).unwrap(), 1);
    let (_, sink) = reader.into_inner();
    assert_eq!(sink.kept, vec![9, 8, 7]);
    assert_eq!(sink.calls, 2);
}

#[test]
fn reader_returns_what_the_bare_source_returns() {
    let data = vec![10u8, 20, 30, 40, 50, 60, 70];
    let mut bare = MemoryReader::new(data.clone());
    let mut reader =
        PrintReader::new_with_label(MemoryReader::new(data), Vec::new(), "x".to_string());
    for size in [3usize, 0, 1, 5, 2] {
        let mut a = vec![0xAAu8; size];
        let mut b = vec![0xAAu8; size];
        let expect = bare.read(&mut a).unwrap();
        let got = reader.read(&mut b).unwrap();
        assert_eq!(got, expect);
        assert_eq!(a, b);
    }
}

#[test]
fn end_of_stream_is_still_mirrored() {
    let source = MemoryReader::new(vec![1, 2]);
    let mut reader = PrintReader::new_with_label(source, FlakySink::reliable(), "R:".to_string());
    let mut buf = [0u8; 4];
    assert_eq!(reader.read(&mut buf).unwrap(), 2);
    assert_eq!(reader.read(&mut buf).unwrap(), 0);
    assert_eq!(reader.read(&mut buf).unwrap(), 0);
    let (_, sink) = reader.into_inner();
    // label and chunk for each of the three reads, the last two chunks empty
    assert_eq!(sink.calls, 6);
    assert_eq!(sink.kept, vec![b'R', b':', 1, 2, b'R', b':', b'R', b':']);
}

#[test]
fn end_of_stream_without_label_writes_an_empty_chunk() {
    let source = MemoryReader::new(Vec::new());
    let mut reader = PrintReader::new(source, FlakySink::reliable());
    let mut buf = [0u8; 4];
    assert_eq!(reader.read(&mut buf).unwrap(), 0);
    let (_, sink) = reader.into_inner();
    assert_eq!(sink.calls, 1);
    assert!(sink.kept.is_empty());
}

#[test]
fn empty_buffer_reads_nothing_and_is_mirrored() {
    let source = MemoryReader::new(vec![1, 2, 3]);
    let mut reader = PrintReader::new_with_label(source, Vec::new(), "R:".to_string());
    let mut none: [u8; 0] = [];
    assert_eq!(reader.read(&mut none).unwrap(), 0);
    let mut buf = [0u8; 3];
    assert_eq!(reader.read(&mut buf).unwrap(), 3);
    let (_, sink) = reader.into_inner();
    assert_eq!(sink, vec![b'R', b':', b'R', b':', 1, 2, 3]);
}

#[test]
fn reader_reports_source_failure_and_leaves_sink_alone() {
    let mut reader =
        PrintReader::new_with_label(BrokenSource, FlakySink::reliable(), "R:".to_string());
    let mut buf = [0u8; 4];
    let err = reader.read(&mut buf).unwrap_err();
    assert_eq!(err.kind(), io::ErrorKind::UnexpectedEof);
    assert_eq!(err.to_string(), "source broke");
    let (_, sink) = reader.into_inner();
    assert_eq!(sink.calls, 0);
    assert!(sink.kept.is_empty());
}

#[test]
fn reader_fails_when_label_write_fails() {
    let source = MemoryReader::new(vec![1, 2, 3, 4, 5]);
    let mut reader =
        PrintReader::new_with_label(source, FlakySink::failing_from(1), "R:".to_string());
    let mut buf = [0u8; 3];
    let err = reader.read(&mut buf).unwrap_err();
    assert_eq!(err.kind(), io::ErrorKind::BrokenPipe);
    assert_eq!(err.to_string(), "sink closed at call 1");
    // the source was read all the same: the bytes are in the buffer and gone from the source
    assert_eq!(buf, [1, 2, 3]);
    let (mut source, sink) = reader.into_inner();
    // the chunk was not attempted after the label failed
    assert_eq!(sink.calls, 1);
    assert!(sink.kept.is_empty());
    let mut rest = [0u8; 8];
    assert_eq!(source.read(&mut rest).unwrap(), 2);
    assert_eq!(&rest[..2], &[4, 5]);
}

#[test]
fn reader_fails_when_chunk_write_fails() {
    let source = MemoryReader::new(vec![1, 2, 3, 4, 5]);
    let mut reader =
        PrintReader::new_with_label(source, FlakySink::failing_from(2), "R:".to_string());
    let mut buf = [0u8; 3];
    let err = reader.read(&mut buf).unwrap_err();
    assert_eq!(err.to_string(), "sink closed at call 2");
    let (mut source, sink) = reader.into_inner();
    assert_eq!(sink.calls, 2);
    assert_eq!(sink.kept, vec![b'R', b':']);
    let mut rest = [0u8; 8];
    assert_eq!(source.read(&mut rest).unwrap(), 2);
}

#[test]
fn unlabelled_reader_fails_when_chunk_write_fails() {
    let source = MemoryReader::new(vec![1, 2, 3]);
    let mut reader = PrintReader::new(source, FlakySink::failing_from(2));
    let mut buf = [0u8; 2];
    assert_eq!(reader.read(&mut buf).unwrap(), 2);
    let err = reader.read(&mut buf).unwrap_err();
    assert_eq!(err.to_string(), "sink closed at call 2");
    let (_, sink) = reader.into_inner();
    assert_eq!(sink.kept, vec![1, 2]);
}

#[test]
fn label_is_written_as_its_raw_bytes() {
    let source = MemoryReader::new(vec![0x41]);
    let mut reader = PrintReader::new_with_label(source, Vec::new(), "é→".to_string());
    let mut buf = [0u8; 1];
    assert_eq!(reader.read(&mut buf).unwrap(), 1);
    let (_, sink) = reader.into_inner();
    assert_eq!(sink, vec![0xC3, 0xA9, 0xE2, 0x86, 0x92, 0x41]);
}

#[test]
fn sink_that_already_holds_bytes_keeps_them() {
    let source = MemoryReader::new(vec![5, 6]);
    let mut reader = PrintReader::new_with_label(source, vec![1u8, 2], "-".to_string());
    let mut buf = [0u8; 8];
    assert_eq!(reader.read(&mut buf).unwrap(), 2);
    let (_, sink) = reader.into_inner();
    assert_eq!(sink, vec![1, 2, b'-', 5, 6]);
}

#[test]
fn unlabelled_reader_three_reads_of_five_bytes() {
    let mut reader = PrintReader::new(MemoryReader::new(vec![1, 2, 3, 4, 5]), Vec::new());
    let mut buf = [0u8; 3];
    assert_eq!(reader.read(&mut buf).unwrap(), 3);
    assert_eq!(reader.read(&mut buf).unwrap(), 2);
    assert_eq!(reader.read(&mut buf).unwrap(), 0);
    let (_, sink) = reader.into_inner();
    assert_eq!(sink, vec![1, 2, 3, 4, 5]);
}

#[test]
fn end_of_stream_leaves_the_buffer_and_writes_the_label() {
    let mut reader =
        PrintReader::new_with_label(MemoryReader::new(Vec::new()), Vec::new(), "R:".to_string());
    let mut buf = [7u8; 3];
    assert_eq!(reader.read(&mut buf).unwrap(), 0);
    assert_eq!(buf, [7, 7, 7]);
    let (_, sink) = reader.into_inner();
    assert_eq!(sink, vec![82, 58]);
}
