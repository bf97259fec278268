use io_arrays::{
    Array, ArrayEditor, ArrayReader, ArrayWriter, ByteArray, ErrorKind, ReadAt, WriteAt,
};

#[test]
fn test_small_copy() {
    let input = ArrayReader::bytes(b"XYZHello, world!XYZ");
    let mut output = ArrayEditor::file(ByteArray::anonymous(), false).unwrap();
    let meta = input.metadata().unwrap();
    let len = meta.len();
    assert_eq!(len, 19);
    let mut buf = vec![0_u8; 13];
    output.set_len(13).unwrap();
    assert_eq!(output.metadata().unwrap().len(), 13);
    input.read_exact_at(&mut buf, 3).unwrap();
    output.write_all_at(&buf, 3).unwrap();
    let mut s = vec![0_u8; 16];
    output.read_exact_at(&mut s, 0).unwrap();
    assert_eq!(s, b"\0\0\0Hello, world!");
}

#[test]
fn test_streaming_read() {
    let input = ArrayReader::bytes(b"XYZHello, world!");

    let mut stream = io_arrays::BorrowStreamer::new(&input, 3);
    let mut buf = Vec::new();
    loop {
        let mut chunk = vec![0_u8; 4];
        let n = stream.read(&mut chunk).unwrap();
        if n == 0 {
            break;
        }
        buf.extend_from_slice(&chunk[..n]);
    }
    assert_eq!(&buf, b"Hello, world!");

    let mut stream = io_arrays::BorrowStreamer::new(&input, 3);
    let mut buf = Vec::new();
    loop {
        let mut chunk = vec![0_u8; 4];
        let n = stream.read(&mut chunk).unwrap();
        if n == 0 {
            break;
        }
        buf.extend_from_slice(&chunk[..n]);
    }
    assert_eq!(&buf, b"Hello, world!");
}

#[test]
fn test_bytes() {
    let reader = ArrayReader::bytes(b"abcdefghij");
    let mut buf = vec![0_u8; 4];
    reader.read_exact_at(&mut buf, 3).unwrap();
    assert_eq!(buf, b"defg");
}

#[test]
fn test_anonymous() {
    let mut editor = ArrayEditor::anonymous();
    editor.write_all_at(b"0123456789", 5).unwrap();
    let mut buf = vec![0_u8; 4];
    editor.read_exact_at(&mut buf, 8).unwrap();
    assert_eq!(buf, b"3456");
}

// Test that writing past the end of a device extends it with zeros.
#[test]
fn test_write_past_end() {
    let mut editor = ArrayEditor::file(ByteArray::anonymous(), false).unwrap();
    let message = b"Greetings, world!";
    editor.write_all_at(message, 8192).unwrap();
    let mut buf = vec![0xa0_u8; 8192 + message.len()];
    editor.read_exact_at(&mut buf, 0).unwrap();

    let mut cmp = vec![0_u8; 8192];
    cmp.extend_from_slice(message);
    assert_eq!(buf, cmp);
    assert_eq!(editor.metadata().unwrap().len(), 8192 + message.len() as u64);
}

// Test that reading past the end of a device fails gracefully.
#[test]
fn test_read_past_end() {
    let mut editor = ArrayEditor::file(ByteArray::anonymous(), false).unwrap();
    let message = b"Greetings, world!";
    editor.write_all_at(message, 0).unwrap();
    let mut buf = vec![0xa0_u8; 32];
    assert_eq!(editor.read_at(&mut buf, 8192).unwrap(), 0);
    assert_eq!(
        editor.read_exact_at(&mut buf, 8192).unwrap_err(),
        ErrorKind::UnexpectedEof
    );
}

// Test that an empty write past the end doesn't resize the device.
#[test]
fn test_write_nothing_past_end() {
    let mut editor = ArrayEditor::file(ByteArray::anonymous(), false).unwrap();
    editor.write_all_at(b"", 8192).unwrap();
    assert_eq!(editor.metadata().unwrap().len(), 0);
}

// Test that truncating the device and re-extending it zero-fills.
#[test]
fn test_various_edits() {
    let mut editor = ArrayEditor::file(ByteArray::anonymous(), false).unwrap();
    editor.write_all_at(b"hello, ", 6).unwrap();
    editor.write_all_at(b"world!", 13).unwrap();
    editor.set_len(0).unwrap();
    editor.write_all_at(b"greetings!", 19).unwrap();
    assert_eq!(editor.metadata().unwrap().len(), 29);
    let mut buf = vec![0xa0_u8; 29];
    editor.read_exact_at(&mut buf, 0).unwrap();
    assert_eq!(buf, b"\0\0\0\0\0\0\0\0\0\0\0\0\0\0\0\0\0\0\0greetings!");
    editor.set_len(0).unwrap();
    editor.write_all_at(b"greetings!", 4096).unwrap();
    editor.read_exact_at(&mut buf, 0).unwrap();
    assert_eq!(
        buf,
        b"\0\0\0\0\0\0\0\0\0\0\0\0\0\0\0\0\0\0\0\0\0\0\0\0\0\0\0\0\0"
    );
}

// The append-mode invariant: a write-capable wrapper over an append-mode
// handle must fail construction, never silently succeed.
#[test]
fn test_append_mode_refused() {
    assert!(ArrayWriter::file(ByteArray::anonymous(), true).is_none());
    assert!(ArrayEditor::file(ByteArray::anonymous(), true).is_none());
    assert!(ArrayWriter::file(ByteArray::anonymous(), false).is_some());
    assert!(ArrayEditor::file(ByteArray::anonymous(), false).is_some());
}

// The scenario: a device seeded with "123hello world456"; reading 11 bytes
// at offset 3 yields "hello world"; a stream over that result at offset 0
// drains to the same 11 bytes unchanged.
#[test]
fn test_stream_scenario() {
    let reader = ArrayReader::bytes(b"123hello world456");
    let mut buf = vec![0_u8; 11];
    reader.read_exact_at(&mut buf, 3).unwrap();
    assert_eq!(buf, b"hello world");

    let second = ArrayReader::bytes(&buf);
    let mut stream = io_arrays::BorrowStreamer::new(&second, 0);
    let mut drained = Vec::new();
    loop {
        let mut chunk = vec![0_u8; 3];
        let n = stream.read(&mut chunk).unwrap();
        if n == 0 {
            break;
        }
        drained.extend_from_slice(&chunk[..n]);
    }
    assert_eq!(drained, b"hello world");
}
