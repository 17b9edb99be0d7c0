use printio::{BoundedWriter, MemoryReader, Readable, RecordedReader, RecordedWriter, Writable};
use std::io;

#[test]
fn memory_reader_delivers_in_order_and_then_nothing() {
    let mut source = MemoryReader::new(vec![1, 2, 3, 4, 5]);
    let mut buf = [0u8; 3];
    assert_eq!(source.read(&mut buf).unwrap(), 3);
    assert_eq!(buf, [1, 2, 3]);
    assert_eq!(source.read(&mut buf).unwrap(), 2);
    assert_eq!(buf, [4, 5, 3]);
    assert_eq!(source.read(&mut buf).unwrap(), 0);
    assert_eq!(buf, [4, 5, 3]);
}

#[test]
fn memory_reader_leaves_the_rest_of_the_buffer_alone() {
    let mut source = MemoryReader::new(vec![9]);
    let mut buf = [7u8; 4];
    assert_eq!(source.read(&mut buf).unwrap(), 1);
    assert_eq!(buf, [9, 7, 7, 7]);
}

#[test]
fn memory_reader_with_empty_buffer() {
    let mut source = MemoryReader::new(vec![9]);
    let mut none: [u8; 0] = [];
    assert_eq!(source.read(&mut none).unwrap(), 0);
    let mut buf = [0u8; 1];
    assert_eq!(source.read(&mut buf).unwrap(), 1);
    assert_eq!(buf, [9]);
}

#[test]
fn vector_accepts_everything() {
    let mut sink: Vec<u8> = vec![1];
    assert_eq!(Writable::write(&mut sink, &[2, 3]).unwrap(), 2);
    Writable::write_all(&mut sink, &[4]).unwrap();
    assert_eq!(Writable::write(&mut sink, &[]).unwrap(), 0);
    Writable::flush(&mut sink).unwrap();
    assert_eq!(sink, vec![1, 2, 3, 4]);
}

#[test]
fn recorded_streams_pass_calls_through() {
    let mut source = RecordedReader::new(MemoryReader::new(vec![1, 2, 3]));
    let mut buf = [0u8; 2];
    assert_eq!(source.read(&mut buf).unwrap(), 2);
    assert_eq!(buf, [1, 2]);
    let mut inner = source.into_inner();
    assert_eq!(inner.read(&mut buf).unwrap(), 1);
    assert_eq!(buf[0], 3);

    let mut sink = RecordedWriter::new(Vec::new());
    assert_eq!(sink.write(&[1, 2]).unwrap(), 2);
    sink.write_all(&[3]).unwrap();
    sink.flush().unwrap();
    assert_eq!(sink.into_inner(), vec![1, 2, 3]);
}

#[test]
fn bounded_writer_takes_what_fits() {
    let mut w = BoundedWriter::new(3);
    assert_eq!(w.write(&[1, 2]).unwrap(), 2);
    assert_eq!(w.write(&[3, 4, 5]).unwrap(), 1);
    assert_eq!(w.write(&[6]).unwrap(), 0);
    assert_eq!(w.write(&[]).unwrap(), 0);
    w.flush().unwrap();
    assert_eq!(w.into_bytes(), vec![1, 2, 3]);
}

#[test]
fn bounded_writer_write_all_fails_when_not_all_fits() {
    let mut w = BoundedWriter::new(3);
    w.write_all(&[1, 2]).unwrap();
    let err = w.write_all(&[3, 4]).unwrap_err();
    assert_eq!(err.kind(), io::ErrorKind::WriteZero);
    // what fitted was kept
    let err = w.write_all(&[9]).unwrap_err();
    assert_eq!(err.kind(), io::ErrorKind::WriteZero);
    w.write_all(&[]).unwrap();
    assert_eq!(w.into_bytes(), vec![1, 2, 3]);
}

#[test]
fn bounded_writer_of_no_capacity() {
    let mut w = BoundedWriter::new(0);
    assert_eq!(w.write(&[1]).unwrap(), 0);
    assert!(w.write_all(&[1]).is_err());
    assert!(w.into_bytes().is_empty());
}
