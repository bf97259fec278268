use io_arrays::{
    advance, read_exact_step, write_all_step, BorrowStreamer, BorrowStreamerMut, ByteArray,
    ErrorKind, FileStreamer, LoopStep, OwnStreamer, ReadAt, SeekFrom, WriteAt,
};

// Two streams over the same device advance independently: reading from
// one does not move the other's cursor.
#[test]
fn streams_independent() {
    let dev = ByteArray::bytes(b"abcdefghij");
    let mut one = BorrowStreamer::new(&dev, 0);
    let mut two = BorrowStreamer::new(&dev, 5);

    let mut buf = vec![0_u8; 3];
    one.read(&mut buf).unwrap();
    assert_eq!(buf, b"abc");

    let mut buf = vec![0_u8; 3];
    two.read(&mut buf).unwrap();
    assert_eq!(buf, b"fgh");

    let mut buf = vec![0_u8; 2];
    one.read(&mut buf).unwrap();
    assert_eq!(buf, b"de");

    let mut buf = vec![0_u8; 2];
    two.read(&mut buf).unwrap();
    assert_eq!(buf, b"ij");
}

// The cursor advances only by what was read; a peek does not advance it.
#[test]
fn peek_does_not_advance() {
    let dev = ByteArray::bytes(b"abcdef");
    let mut s = BorrowStreamer::new(&dev, 2);
    let mut buf = vec![0_u8; 2];
    s.peek(&mut buf).unwrap();
    assert_eq!(buf, b"cd");
    let mut buf = vec![0_u8; 2];
    s.read(&mut buf).unwrap();
    assert_eq!(buf, b"cd");
}

// A sequential write through the exclusive adapter lands at the cursor
// and advances it.
#[test]
fn sequential_writes_advance() {
    let mut dev = ByteArray::anonymous();
    {
        let mut s = BorrowStreamerMut::new(&mut dev, 3);
        s.write_all(b"one").unwrap();
        s.write_all(b"two").unwrap();
        s.flush().unwrap();
    }
    let mut buf = vec![0_u8; 9];
    dev.read_exact_at(&mut buf, 0).unwrap();
    assert_eq!(buf, b"\0\0\0onetwo");
}

// An owning stream works the same as the borrowing one, and seeking
// interprets absolute, end-relative, and current-relative targets, with
// out-of-range results clamped.
#[test]
fn own_stream_seek() {
    let mut s = OwnStreamer::new(ByteArray::bytes(b"abcdefgh"), 0);
    assert_eq!(s.seek(SeekFrom::End(-3)).unwrap(), 5);
    let mut buf = vec![0_u8; 3];
    s.read(&mut buf).unwrap();
    assert_eq!(buf, b"fgh");
    assert_eq!(s.seek(SeekFrom::Current(-4)).unwrap(), 4);
    assert_eq!(s.seek(SeekFrom::End(-100)).unwrap(), 0);
    assert_eq!(s.seek(SeekFrom::Start(2)).unwrap(), 2);
    let mut buf = vec![0_u8; 2];
    s.read(&mut buf).unwrap();
    assert_eq!(buf, b"cd");
}

#[test]
fn file_stream_reads_and_writes() {
    let mut s = FileStreamer::new(ByteArray::bytes(b"abcdef"), 1);
    let mut buf = vec![0_u8; 2];
    s.read(&mut buf).unwrap();
    assert_eq!(buf, b"bc");
    s.write_all(b"XY").unwrap();
    s.seek(SeekFrom::Start(0)).unwrap();
    let mut buf = vec![0_u8; 6];
    s.read_exact(&mut buf).unwrap();
    assert_eq!(buf, b"abcXYf");
}

// A cursor near the top of the range fails with an overflow error before
// touching the device.
#[test]
fn stream_overflow_rejected() {
    let dev = ByteArray::bytes(b"abc");
    let mut s = BorrowStreamer::new(&dev, u64::MAX);
    let mut buf = vec![0_u8; 2];
    assert_eq!(s.read(&mut buf).unwrap_err(), ErrorKind::Overflow);
}

// The buffer-advance operation: dropping consumed buffers and trimming
// the first remaining one, never copying the rest.
#[test]
fn advance_cases() {
    let bufs = vec![b"ab".to_vec(), b"cde".to_vec(), b"fg".to_vec()];
    // a cut inside the second buffer
    let r = advance(bufs.clone(), 3);
    assert_eq!(r, vec![b"de".to_vec(), b"fg".to_vec()]);
    // a cut exactly on a buffer boundary
    let r = advance(bufs.clone(), 2);
    assert_eq!(r, vec![b"cde".to_vec(), b"fg".to_vec()]);
    // nothing consumed: leading empties are still dropped
    let r = advance(vec![vec![], b"xy".to_vec()], 0);
    assert_eq!(r, vec![b"xy".to_vec()]);
    // everything consumed
    let r = advance(bufs.clone(), 7);
    assert!(r.is_empty());
    // more than everything
    let r = advance(bufs, 100);
    assert!(r.is_empty());
}

// The decision table of the exact-read retry loop.
#[test]
fn read_step_decisions() {
    assert_eq!(
        read_exact_step(10, 4, &Ok(0)),
        LoopStep::Fail(ErrorKind::UnexpectedEof)
    );
    assert_eq!(
        read_exact_step(10, 4, &Ok(2)),
        LoopStep::Advance {
            offset: 12,
            consumed: 2
        }
    );
    assert_eq!(read_exact_step(10, 4, &Ok(4)), LoopStep::Done);
    assert_eq!(read_exact_step(10, 0, &Ok(0)), LoopStep::Done);
    assert_eq!(
        read_exact_step(u64::MAX, 4, &Ok(2)),
        LoopStep::Fail(ErrorKind::Overflow)
    );
    assert_eq!(
        read_exact_step(10, 4, &Err(ErrorKind::Interrupted)),
        LoopStep::Retry
    );
    assert_eq!(
        read_exact_step(10, 4, &Err(ErrorKind::Other)),
        LoopStep::Fail(ErrorKind::Other)
    );
}

// The decision table of the write-all retry loop: a zero-length result is
// repeated, not an error.
#[test]
fn write_step_decisions() {
    assert_eq!(
        write_all_step(10, 4, &Ok(0)),
        LoopStep::Advance {
            offset: 10,
            consumed: 0
        }
    );
    assert_eq!(write_all_step(10, 4, &Ok(4)), LoopStep::Done);
    assert_eq!(
        write_all_step(u64::MAX, 4, &Ok(1)),
        LoopStep::Fail(ErrorKind::Overflow)
    );
    assert_eq!(
        write_all_step(10, 4, &Err(ErrorKind::Interrupted)),
        LoopStep::Retry
    );
}

// Draining an owned stream from its cursor to the end of the device.
#[test]
fn file_stream_read_to_end() {
    let mut s = FileStreamer::new(ByteArray::bytes(b"XYZHello, world!"), 3);
    let mut buf = Vec::new();
    let n = s.read_to_end(&mut buf).unwrap();
    assert_eq!(n, 13);
    assert_eq!(buf, b"Hello, world!");
    assert_eq!(s.read_to_end(&mut buf).unwrap(), 0);
    assert_eq!(buf, b"Hello, world!");
}

// Scatter reads on the adapters: the count is pinned to what the device
// holds at the cursor, and the cursor advances by it.
#[test]
fn stream_scatter_reads() {
    let mut dev = ByteArray::bytes(b"abcdefgh");
    {
        let mut s = BorrowStreamerMut::new(&mut dev, 2);
        let mut bufs = vec![vec![0_u8; 2], vec![0_u8; 3]];
        assert_eq!(s.read_vectored(&mut bufs).unwrap(), 5);
        assert_eq!(bufs[0], b"cd");
        assert_eq!(bufs[1], b"efg");
    }

    let mut s = OwnStreamer::new(ByteArray::bytes(b"abcdefgh"), 5);
    let mut bufs = vec![vec![0_u8; 4], vec![0_u8; 4]];
    // only three bytes remain at the cursor
    assert_eq!(s.read_vectored(&mut bufs).unwrap(), 3);
    assert_eq!(&bufs[0][..3], b"fgh");
    assert_eq!(s.read_vectored(&mut bufs).unwrap(), 0);

    let mut s = FileStreamer::new(ByteArray::bytes(b"abcd"), 0);
    let mut bufs = vec![vec![0_u8; 2], vec![0_u8; 2]];
    assert_eq!(s.read_vectored(&mut bufs).unwrap(), 4);
    assert_eq!(bufs.concat(), b"abcd");
}

// Gather writes on the adapters transfer the whole span on a growable
// device and report exactly that count.
#[test]
fn stream_gather_write_counts() {
    let mut s = OwnStreamer::new(ByteArray::anonymous(), 1);
    let parts = vec![b"ab".to_vec(), vec![], b"cd".to_vec()];
    assert_eq!(s.write_vectored(&parts).unwrap(), 4);
    let mut check = FileStreamer::new(ByteArray::anonymous(), 0);
    let mut dev = ByteArray::anonymous();
    {
        let mut m = BorrowStreamerMut::new(&mut dev, 0);
        assert_eq!(m.write_vectored(&parts).unwrap(), 4);
    }
    let mut buf = vec![0xff_u8; 4];
    dev.read_exact_at(&mut buf, 0).unwrap();
    assert_eq!(buf, b"abcd");
    assert_eq!(check.write_vectored(&parts).unwrap(), 4);
}
