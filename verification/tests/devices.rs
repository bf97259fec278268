use io_arrays::{Array, ByteArray, ErrorKind, FixedArray, ReadAt, WriteAt};

// A write followed by a read of the same length at the same offset gives
// the data back, at any offset.
#[test]
fn round_trip_at_offsets() {
    for offset in [0_u64, 1, 7, 100, 4096] {
        let mut dev = ByteArray::anonymous();
        dev.write_all_at(b"payload", offset).unwrap();
        let mut buf = vec![0xff_u8; 7];
        dev.read_exact_at(&mut buf, offset).unwrap();
        assert_eq!(buf, b"payload");
    }
}

// Short reads at the end of the device: read_at transfers what is there
// and reports the count.
#[test]
fn short_read_at_end() {
    let dev = ByteArray::bytes(b"abcde");
    let mut buf = vec![0_u8; 8];
    let n = dev.read_at(&mut buf, 2).unwrap();
    assert_eq!(n, 3);
    assert_eq!(&buf[..3], b"cde");
}

// A plain Vec<u8> is a fixed-size device: writes are clipped at its end,
// the count reports the bytes actually stored, and the buffer never grows
// under writes, while set_len resizes it explicitly.
#[test]
fn vec_device_clips() {
    let mut dev: Vec<u8> = b"0123456789".to_vec();
    let n = dev.write_at(b"XYZ", 8).unwrap();
    assert_eq!(n, 2);
    assert_eq!(dev.as_slice(), b"01234567XY");
    assert_eq!(
        dev.write_all_at(b"XYZ", 8).unwrap_err(),
        ErrorKind::UnexpectedEof
    );
    WriteAt::set_len(&mut dev, 12).unwrap();
    assert_eq!(dev.as_slice(), b"01234567XY\0\0");
    WriteAt::set_len(&mut dev, 4).unwrap();
    assert_eq!(dev.as_slice(), b"0123");
}

// A fixed in-memory device cannot be resized at all.
#[test]
fn fixed_device_refuses_resize() {
    let mut dev = FixedArray::bytes(b"0123456789");
    assert_eq!(dev.set_len(0).unwrap_err(), ErrorKind::PermissionDenied);
    let n = dev.write_at(b"ab", 9).unwrap();
    assert_eq!(n, 1);
    let mut buf = vec![0_u8; 10];
    dev.read_exact_at(&mut buf, 0).unwrap();
    assert_eq!(buf, b"012345678a");
}

// Offset arithmetic overflow is rejected before anything is written.
#[test]
fn write_overflow_rejected() {
    let mut dev = ByteArray::anonymous();
    assert_eq!(
        dev.write_all_at(b"abc", u64::MAX - 1).unwrap_err(),
        ErrorKind::Overflow
    );
    assert_eq!(dev.metadata().unwrap().len(), 0);
}

// Metadata reports the current length and the system page size as the
// I/O block size.
#[test]
fn metadata_reports_length_and_blksize() {
    let dev = ByteArray::bytes(b"abcdef");
    let m = dev.metadata().unwrap();
    assert_eq!(m.len(), 6);
    assert_eq!(m.blksize(), page_size::get() as u64);
    assert!(dev.is_read_vectored_at());
}

// Vectored exact reads and writes are equivalent, byte for byte, to one
// non-vectored exact call of the flattened length at the same offset.
#[test]
fn vectored_equivalent_to_flat() {
    let dev = ByteArray::bytes(b"The quick brown fox jumps over the lazy dog");

    let mut bufs = vec![vec![0_u8; 4], vec![], vec![0_u8; 6], vec![0_u8; 1]];
    dev.read_exact_vectored_at(&mut bufs, 4).unwrap();
    let gathered: Vec<u8> = bufs.concat();
    let mut flat = vec![0_u8; 11];
    dev.read_exact_at(&mut flat, 4).unwrap();
    assert_eq!(gathered, flat);
    assert_eq!(flat, b"quick brown");

    let mut dev_a = ByteArray::bytes(b"0123456789");
    let mut dev_b = ByteArray::bytes(b"0123456789");
    let parts = vec![b"AB".to_vec(), vec![], b"CDE".to_vec()];
    dev_a.write_all_vectored_at(&parts, 6).unwrap();
    dev_b.write_all_at(b"ABCDE", 6).unwrap();
    let mut a = vec![0_u8; 11];
    let mut b = vec![0_u8; 11];
    dev_a.read_exact_at(&mut a, 0).unwrap();
    dev_b.read_exact_at(&mut b, 0).unwrap();
    assert_eq!(a, b);
    assert_eq!(a, b"012345ABCDE");
}

// The same equivalence holds on the emulated single-buffer-per-call
// backend path.
#[test]
fn vectored_equivalent_on_emulated_path() {
    let mut dev_serial = ByteArray::bytes(b"0123456789");
    let parts = vec![b"AB".to_vec(), vec![], b"CDE".to_vec()];
    io_arrays::write_all_vectored_serial(&mut dev_serial, parts, 6).unwrap();
    let mut out = vec![0_u8; 11];
    dev_serial.read_exact_at(&mut out, 0).unwrap();
    assert_eq!(out, b"012345ABCDE");
}

// A scatter read distributes the window across the buffers in order.
#[test]
fn scatter_read_fills_in_order() {
    let dev = ByteArray::bytes(b"abcdefgh");
    let mut bufs = vec![vec![0_u8; 3], vec![0_u8; 10]];
    let n = dev.read_vectored_at(&mut bufs, 2).unwrap();
    assert_eq!(n, 6);
    assert_eq!(bufs[0], b"cde");
    assert_eq!(&bufs[1][..3], b"fgh");
}

// Bulk positional copy between two devices.
#[test]
fn copy_between_devices() {
    let input = ByteArray::bytes(b"123hello world456");
    let mut output = ByteArray::anonymous();
    let copied = io_arrays::copy_from(&mut output, 2, &input, 3, 11).unwrap();
    assert_eq!(copied, 11);
    let mut buf = vec![0_u8; 13];
    output.read_exact_at(&mut buf, 0).unwrap();
    assert_eq!(buf, b"\0\0hello world");

    // the copy stops early when the input is exhausted
    let mut short = ByteArray::anonymous();
    let copied = io_arrays::copy_from(&mut short, 0, &input, 14, 100).unwrap();
    assert_eq!(copied, 3);
    let mut buf = vec![0_u8; 3];
    short.read_exact_at(&mut buf, 0).unwrap();
    assert_eq!(buf, b"456");
}

// The serial emulation of exact reads, built on the single-buffer
// primitive alone, agrees with the native exact reads.
#[test]
fn serial_read_emulation_matches_native() {
    let dev = ByteArray::bytes(b"The quick brown fox");
    let mut buf = vec![0_u8; 9];
    io_arrays::read_exact_at_serial(&dev, &mut buf, 4).unwrap();
    assert_eq!(buf, b"quick bro");

    let mut big = vec![0_u8; 30];
    assert_eq!(
        io_arrays::read_exact_at_serial(&dev, &mut big, 4).unwrap_err(),
        ErrorKind::UnexpectedEof
    );

    let mut bufs = vec![vec![0_u8; 3], vec![], vec![0_u8; 6]];
    io_arrays::read_exact_vectored_serial(&dev, &mut bufs, 4).unwrap();
    assert_eq!(bufs.concat(), b"quick bro");
}

// A copy whose end would leave the addressable range fails with an
// overflow error before anything is transferred.
#[test]
fn copy_overflow_rejected() {
    let input = ByteArray::bytes(b"abc");
    let mut output = ByteArray::anonymous();
    assert_eq!(
        io_arrays::copy_from(&mut output, u64::MAX - 1, &input, 0, 3).unwrap_err(),
        ErrorKind::Overflow
    );
    assert_eq!(output.metadata().unwrap().len(), 0);
}
