use wavetk::utils::{Buffer, ByteSource};

fn buffer_over(bytes: &[u8]) -> Buffer {
    Buffer::with_capacity(8, ByteSource::new(bytes.to_vec()))
}

#[test]
fn a_new_buffer_is_empty() {
    let buffer = buffer_over(b"abc");
    assert_eq!(buffer.len(), 0);
    assert_eq!(buffer.data(), b"");
    assert_eq!(buffer.capacity(), 0);
    assert_eq!(buffer.available(), 0);
}

#[test]
fn a_source_is_read_front_to_back() {
    let mut source = ByteSource::new(b"hello world".to_vec());
    let mut dst = vec![b'.'; 8];
    assert_eq!(source.remaining(), 11);
    assert_eq!(source.read(&mut dst, 2, 5), 5);
    assert_eq!(dst, b"..hello.");
    assert_eq!(source.remaining(), 6);
    assert_eq!(source.read(&mut dst, 0, 8), 6);
    assert_eq!(dst, b" worldo.");
    assert_eq!(source.read(&mut dst, 0, 8), 0);
    assert_eq!(dst, b" worldo.");
}

#[test]
fn refill_reads_up_to_the_size_asked_for() {
    let mut buffer = buffer_over(b"0123456789");
    assert_eq!(buffer.refill(4), 4);
    assert_eq!(buffer.data(), b"0123");
    assert_eq!(buffer.available(), 0);
    assert_eq!(buffer.refill(4), 4);
    assert_eq!(buffer.data(), b"01234567");
    assert_eq!(buffer.refill(4), 2);
    assert_eq!(buffer.data(), b"0123456789");
    assert_eq!(buffer.available(), 2);
    assert_eq!(buffer.capacity(), 12);
    assert_eq!(buffer.refill(4), 0);
    assert_eq!(buffer.data(), b"0123456789");
    assert_eq!(buffer.available(), 4);
    assert_eq!(buffer.refill(0), 0);
}

#[test]
fn consume_takes_from_the_front() {
    let mut buffer = buffer_over(b"0123456789");
    buffer.refill(10);
    buffer.consume(3);
    assert_eq!(buffer.data(), b"3456789");
    assert_eq!(buffer.len(), 7);
    assert_eq!(buffer.capacity(), 10);
    buffer.consume(0);
    assert_eq!(buffer.data(), b"3456789");
    buffer.consume(7);
    assert_eq!(buffer.data(), b"");
    assert_eq!(buffer.available(), 10);
    buffer.refill(5);
    assert_eq!(buffer.data(), b"");
    let mut other = buffer_over(b"abcdef");
    other.refill(6);
    other.consume(100);
    assert_eq!(other.len(), 0);
    assert_eq!(other.available(), 6);
}

#[test]
fn push_appends_one_byte() {
    let mut buffer = buffer_over(b"ab");
    buffer.push(b'x');
    assert_eq!(buffer.data(), b"x");
    assert_eq!(buffer.available(), 0);
    assert_eq!(buffer.refill(4), 2);
    assert_eq!(buffer.data(), b"xab");
    assert_eq!(buffer.available(), 2);
    buffer.push(b'\n');
    assert_eq!(buffer.data(), b"xab\n");
    assert_eq!(buffer.available(), 1);
    buffer.push(b'1');
    buffer.push(b'2');
    assert_eq!(buffer.data(), b"xab\n12");
    assert_eq!(buffer.available(), 0);
    assert_eq!(buffer.len(), 6);
}

#[test]
fn shift_drops_the_dead_bytes() {
    let mut buffer = buffer_over(b"0123456789");
    buffer.refill(10);
    buffer.consume(4);
    assert_eq!(buffer.capacity(), 10);
    buffer.shift();
    assert_eq!(buffer.data(), b"456789");
    assert_eq!(buffer.capacity(), 6);
    assert_eq!(buffer.available(), 0);
    buffer.shift();
    assert_eq!(buffer.data(), b"456789");
    buffer.push(b'!');
    assert_eq!(buffer.data(), b"456789!");
}

#[test]
fn trim_consumes_leading_padding() {
    let mut buffer = buffer_over(b" \t\r\n\x0c#5 \n");
    buffer.refill(32);
    assert_eq!(buffer.trim(), 5);
    assert_eq!(buffer.data(), b"#5 \n");
    assert_eq!(buffer.trim(), 0);
    let mut other = buffer_over(b"\x0bx");
    other.refill(2);
    assert_eq!(other.trim(), 0);
    let mut blank = buffer_over(b"  \n");
    blank.refill(3);
    assert_eq!(blank.trim(), 3);
    assert_eq!(blank.len(), 0);
}
