//! Tests for the interrupt-tolerant reader.

use durduff::io::read_int_mitigator::InterruptingReader;
use durduff::io::read_int_mitigator::ReadIntMitigator;

fn content_bytes() -> Vec<u8> {
    (0..128).map(|b| b as u8).collect()
}

#[test]
fn single_interrupt() {
    let content = content_bytes();

    let reader = InterruptingReader {
        content: content.clone(),
        pos: 0,
        max_len: content.len(),
        interrupt_no: 1,
    };

    let mut mitigator = ReadIntMitigator(reader);

    let mut buf = vec![0; content.len()];

    let read_no = mitigator.read(&mut buf).unwrap();

    assert_eq!(read_no, content.len());
    assert_eq!(buf, content);
}

#[test]
fn two_interrupts() {
    let content = content_bytes();

    let reader = InterruptingReader {
        content: content.clone(),
        pos: 0,
        max_len: content.len(),
        interrupt_no: 2,
    };

    let mut mitigator = ReadIntMitigator(reader);

    let mut buf = vec![0; content.len()];

    let read_no = mitigator.read(&mut buf).unwrap();

    assert_eq!(read_no, content.len());
    assert_eq!(buf, content);
}

#[test]
fn incomplete_reads() {
    let content = content_bytes();

    assert!(40 < content.len());

    let reader = InterruptingReader {
        content: content.clone(),
        pos: 0,
        max_len: 40,
        interrupt_no: 0,
    };

    let mut mitigator = ReadIntMitigator(reader);

    let mut buf = vec![0; content.len()];

    let read_no = mitigator.read(&mut buf).unwrap();

    assert_eq!(read_no, content.len());
    assert_eq!(buf, content);
}

#[test]
fn incomplete_reads_with_single_interrupt() {
    let content = content_bytes();

    assert!(40 < content.len());

    let reader = InterruptingReader {
        content: content.clone(),
        pos: 0,
        max_len: 40,
        interrupt_no: 1,
    };

    let mut mitigator = ReadIntMitigator(reader);

    let mut buf = vec![0; content.len()];

    let read_no = mitigator.read(&mut buf).unwrap();

    assert_eq!(read_no, content.len());
    assert_eq!(buf, content);
}

#[test]
fn incomplete_reads_with_two_interrupts() {
    let content = content_bytes();

    assert!(40 < content.len());

    let reader = InterruptingReader {
        content: content.clone(),
        pos: 0,
        max_len: 40,
        interrupt_no: 2,
    };

    let mut mitigator = ReadIntMitigator(reader);

    let mut buf = vec![0; content.len()];

    let read_no = mitigator.read(&mut buf).unwrap();

    assert_eq!(read_no, content.len());
    assert_eq!(buf, content);
}

#[test]
fn short_source_stops_at_end_of_stream() {
    let content = b"abc".to_vec();

    let reader = InterruptingReader {
        content: content.clone(),
        pos: 0,
        max_len: 2,
        interrupt_no: 3,
    };

    let mut mitigator = ReadIntMitigator(reader);

    let mut buf = vec![0; 10];

    let read_no = mitigator.read(&mut buf).unwrap();

    assert_eq!(read_no, 3);
    assert_eq!(&buf[..3], b"abc");
}
