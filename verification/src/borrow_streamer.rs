//! Stream adapters that borrow a device and pair it with a private cursor:
//! sequential reads (and, for the exclusive variant, writes) are translated
//! into positional calls at the cursor, which advances by what was actually
//! transferred. Every advance is checked for unsigned overflow before the
//! positional call is issued.

use vstd::prelude::*;

use crate::arrays::{exact_vectored_write_len, read_at_post, read_exact_at_post, same_kind, write_all_at_post, write_at_post, Array, ReadAt, WriteAt};
use crate::bufops::checked_span;
use crate::emulate::checked_cursor_end;
use crate::errors::ErrorKind;
use crate::model::{avail, flatten_bufs, lemma_deep_of_slice, lemma_deep_of_vec, scatter, window, write_content};
use vstd::math::min;
use crate::seek::{resolve_seek, seek_target, SeekFrom};

verus! {

/// A sequential reader that streams through a device it borrows.
pub struct BorrowStreamer<'a, A> {
    array: &'a A,
    pos: u64,
}

/// A sequential reader and writer that streams through a device it borrows
/// exclusively.
pub struct BorrowStreamerMut<'a, A> {
    array: &'a mut A,
    pos: u64,
}

impl<'a, A> BorrowStreamer<'a, A> {
    /// The private cursor of this stream.
    pub closed spec fn cursor(&self) -> u64 {
        self.pos
    }

    /// The device this stream reads.
    pub closed spec fn device(&self) -> A {
        *self.array
    }

    /// Borrows `inner` as a stream whose cursor starts at `pos`.
    pub fn new(inner: &'a A, pos: u64) -> (r: Self)
        ensures
            r.device() == *inner,
            r.cursor() == pos,
    {
        BorrowStreamer { array: inner, pos }
    }
}

impl<'a, A: ReadAt> BorrowStreamer<'a, A> {
    /// Reads at the cursor and advances it by the bytes actually read.
    /// Fails with an overflow error, before touching the device, if the
    /// buffer could carry the cursor beyond the addressable range.
    pub fn read(&mut self, buf: &mut Vec<u8>) -> (r: Result<usize, ErrorKind>)
        ensures
            final(self).device() == old(self).device(),
            old(self).cursor() + old(buf)@.len() > u64::MAX ==> r == Err::<usize, ErrorKind>(
                ErrorKind::Overflow,
            ) && final(self).cursor() == old(self).cursor() && final(buf)@ == old(buf)@,
            old(self).cursor() + old(buf)@.len() <= u64::MAX ==> {
                &&& read_at_post(
                    old(self).device().content(),
                    old(buf)@,
                    final(buf)@,
                    old(self).cursor(),
                    r,
                    old(self).device().exact(),
                )
                &&& match r {
                    Ok(n) => final(self).cursor() == old(self).cursor() + n,
                    Err(_) => final(self).cursor() == old(self).cursor(),
                }
                &&& old(self).device().infallible() ==> r is Ok
            },
    {
        if checked_cursor_end(self.pos, buf.len()).is_none() {
            return Err(ErrorKind::Overflow);
        }
        match self.array.read_at(buf, self.pos) {
            Ok(n) => {
                self.pos = self.pos + n as u64;
                Ok(n)
            },
            Err(e) => Err(e),
        }
    }

    /// Fills `buf` exactly at the cursor and advances it by the whole
    /// buffer length, after checking that the advance cannot overflow.
    pub fn read_exact(&mut self, buf: &mut Vec<u8>) -> (r: Result<(), ErrorKind>)
        ensures
            final(self).device() == old(self).device(),
            old(self).cursor() + old(buf)@.len() > u64::MAX ==> r == Err::<(), ErrorKind>(
                ErrorKind::Overflow,
            ) && final(self).cursor() == old(self).cursor() && final(buf)@ == old(buf)@,
            old(self).cursor() + old(buf)@.len() <= u64::MAX ==> {
                &&& read_exact_at_post(
                    old(self).device().content(),
                    old(buf)@,
                    final(buf)@,
                    old(self).cursor(),
                    r,
                    old(self).device().infallible(),
                )
                &&& match r {
                    Ok(_) => final(self).cursor() == old(self).cursor() + old(buf)@.len(),
                    Err(_) => final(self).cursor() == old(self).cursor(),
                }
            },
    {
        let new_pos = match checked_cursor_end(self.pos, buf.len()) {
            None => {
                return Err(ErrorKind::Overflow);
            },
            Some(p) => p,
        };
        match self.array.read_exact_at(buf, self.pos) {
            Ok(_) => {
                self.pos = new_pos;
                Ok(())
            },
            Err(e) => Err(e),
        }
    }

    /// Scatter-reads at the cursor and advances it by the bytes actually
    /// read, after checking that the whole span cannot overflow.
    pub fn read_vectored(&mut self, bufs: &mut Vec<Vec<u8>>) -> (r: Result<usize, ErrorKind>)
        ensures
            final(self).device() == old(self).device(),
            old(self).cursor() + flatten_bufs(old(bufs).deep_view()).len() > u64::MAX ==> r
                == Err::<usize, ErrorKind>(ErrorKind::Overflow) && final(self).cursor() == old(
                self,
            ).cursor() && final(bufs)@ == old(bufs)@,
            old(self).cursor() + flatten_bufs(old(bufs).deep_view()).len() <= u64::MAX ==> {
                &&& match r {
                    Ok(n) => {
                        &&& n <= flatten_bufs(old(bufs).deep_view()).len()
                        &&& n <= avail(old(self).device().content(), old(self).cursor() as int)
                        &&& final(bufs).deep_view() == scatter(
                            old(bufs).deep_view(),
                            window(
                                old(self).device().content(),
                                old(self).cursor() as int,
                                n as int,
                            ),
                        )
                        &&& final(self).cursor() == old(self).cursor() + n
                        &&& flatten_bufs(old(bufs).deep_view()).len() > 0 && (old(self).cursor()
                            as int) < old(self).device().content().len() ==> n > 0
                        &&& old(self).device().exact() && old(self).device().vectored() ==> n
                            == min(
                            flatten_bufs(old(bufs).deep_view()).len() as int,
                            avail(old(self).device().content(), old(self).cursor() as int),
                        )
                    },
                    Err(_) => final(bufs).deep_view() == old(bufs).deep_view()
                        && final(self).cursor() == old(self).cursor(),
                }
                &&& old(self).device().infallible() ==> r is Ok
            },
    {
        proof {
            lemma_deep_of_vec(bufs);
        }
        let span = checked_span(self.pos, bufs.as_slice());
        if span.is_none() {
            return Err(ErrorKind::Overflow);
        }
        match self.array.read_vectored_at(bufs, self.pos) {
            Ok(n) => {
                self.pos = self.pos + n as u64;
                Ok(n)
            },
            Err(e) => Err(e),
        }
    }

    /// Reads at the cursor without advancing it: a non-consuming
    /// lookahead.
    pub fn peek(&mut self, buf: &mut Vec<u8>) -> (r: Result<usize, ErrorKind>)
        ensures
            final(self).device() == old(self).device(),
            final(self).cursor() == old(self).cursor(),
            read_at_post(
                old(self).device().content(),
                old(buf)@,
                final(buf)@,
                old(self).cursor(),
                r,
                old(self).device().exact(),
            ),
            old(self).device().infallible() ==> r is Ok,
    {
        self.array.read_at(buf, self.pos)
    }

    /// Repositions the cursor: absolute, end-relative, or
    /// current-relative, clamped into the valid unsigned range.
    pub fn seek(&mut self, from: SeekFrom) -> (r: Result<u64, ErrorKind>)
        ensures
            final(self).device() == old(self).device(),
            match r {
                Ok(p) => {
                    &&& p == seek_target(
                        old(self).cursor(),
                        old(self).device().content().len() as u64,
                        from,
                    )
                    &&& final(self).cursor() == p
                },
                Err(_) => final(self).cursor() == old(self).cursor(),
            },
            old(self).device().infallible() ==> r is Ok,
    {
        match from {
            SeekFrom::Start(n) => {
                self.pos = n;
                Ok(n)
            },
            from => {
                match self.array.metadata() {
                    Ok(m) => {
                        proof {
                            self.array.lemma_content_bounded();
                        }
                        let len = m.len();
                        let p = resolve_seek(self.pos, len, from);
                        self.pos = p;
                        Ok(p)
                    },
                    Err(e) => Err(e),
                }
            },
        }
    }
}

} // verus!

verus! {

impl<'a, A> BorrowStreamerMut<'a, A> {
    /// The private cursor of this stream.
    pub closed spec fn cursor(&self) -> u64 {
        self.pos
    }

    /// The device this stream reads and writes.
    pub closed spec fn device(&self) -> A {
        *self.array
    }

    /// Borrows `inner` exclusively as a stream whose cursor starts at
    /// `pos`.
    pub fn new(inner: &'a mut A, pos: u64) -> (r: Self)
        ensures
            r.device() == *old(inner),
            r.cursor() == pos,
    {
        BorrowStreamerMut { array: inner, pos }
    }
}

impl<'a, A: ReadAt> BorrowStreamerMut<'a, A> {
    /// Reads at the cursor and advances it by the bytes actually read.
    pub fn read(&mut self, buf: &mut Vec<u8>) -> (r: Result<usize, ErrorKind>)
        ensures
            final(self).device() == old(self).device(),
            old(self).cursor() + old(buf)@.len() > u64::MAX ==> r == Err::<usize, ErrorKind>(
                ErrorKind::Overflow,
            ) && final(self).cursor() == old(self).cursor() && final(buf)@ == old(buf)@,
            old(self).cursor() + old(buf)@.len() <= u64::MAX ==> {
                &&& read_at_post(
                    old(self).device().content(),
                    old(buf)@,
                    final(buf)@,
                    old(self).cursor(),
                    r,
                    old(self).device().exact(),
                )
                &&& match r {
                    Ok(n) => final(self).cursor() == old(self).cursor() + n,
                    Err(_) => final(self).cursor() == old(self).cursor(),
                }
                &&& old(self).device().infallible() ==> r is Ok
            },
    {
        if checked_cursor_end(self.pos, buf.len()).is_none() {
            return Err(ErrorKind::Overflow);
        }
        match self.array.read_at(buf, self.pos) {
            Ok(n) => {
                self.pos = self.pos + n as u64;
                Ok(n)
            },
            Err(e) => Err(e),
        }
    }

    /// Fills `buf` exactly at the cursor and advances it by the whole
    /// buffer length.
    pub fn read_exact(&mut self, buf: &mut Vec<u8>) -> (r: Result<(), ErrorKind>)
        ensures
            final(self).device() == old(self).device(),
            old(self).cursor() + old(buf)@.len() > u64::MAX ==> r == Err::<(), ErrorKind>(
                ErrorKind::Overflow,
            ) && final(self).cursor() == old(self).cursor() && final(buf)@ == old(buf)@,
            old(self).cursor() + old(buf)@.len() <= u64::MAX ==> {
                &&& read_exact_at_post(
                    old(self).device().content(),
                    old(buf)@,
                    final(buf)@,
                    old(self).cursor(),
                    r,
                    old(self).device().infallible(),
                )
                &&& match r {
                    Ok(_) => final(self).cursor() == old(self).cursor() + old(buf)@.len(),
                    Err(_) => final(self).cursor() == old(self).cursor(),
                }
            },
    {
        let new_pos = match checked_cursor_end(self.pos, buf.len()) {
            None => {
                return Err(ErrorKind::Overflow);
            },
            Some(p) => p,
        };
        match self.array.read_exact_at(buf, self.pos) {
            Ok(_) => {
                self.pos = new_pos;
                Ok(())
            },
            Err(e) => Err(e),
        }
    }

    /// Scatter-reads at the cursor and advances it by the bytes actually
    /// read, after checking that the whole span cannot overflow.
    pub fn read_vectored(&mut self, bufs: &mut Vec<Vec<u8>>) -> (r: Result<usize, ErrorKind>)
        ensures
            final(self).device() == old(self).device(),
            old(self).cursor() + flatten_bufs(old(bufs).deep_view()).len() > u64::MAX ==> r
                == Err::<usize, ErrorKind>(ErrorKind::Overflow) && final(self).cursor() == old(
                self,
            ).cursor() && final(bufs)@ == old(bufs)@,
            old(self).cursor() + flatten_bufs(old(bufs).deep_view()).len() <= u64::MAX ==> {
                &&& match r {
                    Ok(n) => {
                        &&& n <= flatten_bufs(old(bufs).deep_view()).len()
                        &&& n <= avail(old(self).device().content(), old(self).cursor() as int)
                        &&& final(bufs).deep_view() == scatter(
                            old(bufs).deep_view(),
                            window(
                                old(self).device().content(),
                                old(self).cursor() as int,
                                n as int,
                            ),
                        )
                        &&& final(self).cursor() == old(self).cursor() + n
                        &&& flatten_bufs(old(bufs).deep_view()).len() > 0 && (old(self).cursor()
                            as int) < old(self).device().content().len() ==> n > 0
                        &&& old(self).device().exact() && old(self).device().vectored() ==> n
                            == min(
                            flatten_bufs(old(bufs).deep_view()).len() as int,
                            avail(old(self).device().content(), old(self).cursor() as int),
                        )
                    },
                    Err(_) => final(bufs).deep_view() == old(bufs).deep_view()
                        && final(self).cursor() == old(self).cursor(),
                }
                &&& old(self).device().infallible() ==> r is Ok
            },
    {
        proof {
            lemma_deep_of_vec(bufs);
        }
        let span = checked_span(self.pos, bufs.as_slice());
        if span.is_none() {
            return Err(ErrorKind::Overflow);
        }
        match self.array.read_vectored_at(bufs, self.pos) {
            Ok(n) => {
                self.pos = self.pos + n as u64;
                Ok(n)
            },
            Err(e) => Err(e),
        }
    }

    /// Reads at the cursor without advancing it.
    pub fn peek(&mut self, buf: &mut Vec<u8>) -> (r: Result<usize, ErrorKind>)
        ensures
            final(self).device() == old(self).device(),
            final(self).cursor() == old(self).cursor(),
            read_at_post(
                old(self).device().content(),
                old(buf)@,
                final(buf)@,
                old(self).cursor(),
                r,
                old(self).device().exact(),
            ),
            old(self).device().infallible() ==> r is Ok,
    {
        self.array.read_at(buf, self.pos)
    }
}

impl<'a, A: WriteAt> BorrowStreamerMut<'a, A> {
    /// Writes at the cursor and advances it by the bytes actually
    /// consumed. Fails with an overflow error, before touching the device,
    /// if the buffer could carry the cursor beyond the addressable range.
    pub fn write(&mut self, buf: &[u8]) -> (r: Result<usize, ErrorKind>)
        ensures
            same_kind(&old(self).device(), &final(self).device()),
            old(self).cursor() + buf@.len() > u64::MAX ==> r == Err::<usize, ErrorKind>(
                ErrorKind::Overflow,
            ) && final(self).cursor() == old(self).cursor()
                && final(self).device() == old(self).device(),
            old(self).cursor() + buf@.len() <= u64::MAX ==> {
                &&& write_at_post(
                    old(self).device().content(),
                    final(self).device().content(),
                    buf@,
                    old(self).cursor(),
                    r,
                    old(self).device().grows(),
                    old(self).device().infallible(),
                    old(self).device().exact(),
                )
                &&& match r {
                    Ok(n) => final(self).cursor() == old(self).cursor() + n,
                    Err(_) => final(self).cursor() == old(self).cursor(),
                }
            },
    {
        if checked_cursor_end(self.pos, buf.len()).is_none() {
            return Err(ErrorKind::Overflow);
        }
        match self.array.write_at(buf, self.pos) {
            Ok(n) => {
                self.pos = self.pos + n as u64;
                Ok(n)
            },
            Err(e) => Err(e),
        }
    }

    /// Writes the whole buffer at the cursor and advances it by the buffer
    /// length.
    pub fn write_all(&mut self, buf: &[u8]) -> (r: Result<(), ErrorKind>)
        ensures
            same_kind(&old(self).device(), &final(self).device()),
            old(self).cursor() + buf@.len() > u64::MAX ==> r == Err::<(), ErrorKind>(
                ErrorKind::Overflow,
            ) && final(self).cursor() == old(self).cursor()
                && final(self).device() == old(self).device(),
            old(self).cursor() + buf@.len() <= u64::MAX ==> {
                &&& write_all_at_post(
                    old(self).device().content(),
                    final(self).device().content(),
                    buf@,
                    old(self).cursor(),
                    r,
                    old(self).device().grows(),
                    old(self).device().infallible(),
                )
                &&& match r {
                    Ok(_) => final(self).cursor() == old(self).cursor() + buf@.len(),
                    Err(_) => final(self).cursor() == old(self).cursor(),
                }
            },
    {
        let new_pos = match checked_cursor_end(self.pos, buf.len()) {
            None => {
                return Err(ErrorKind::Overflow);
            },
            Some(p) => p,
        };
        match self.array.write_all_at(buf, self.pos) {
            Ok(_) => {
                self.pos = new_pos;
                Ok(())
            },
            Err(e) => Err(e),
        }
    }

    /// Gather-writes at the cursor and advances it by the bytes actually
    /// consumed.
    pub fn write_vectored(&mut self, bufs: &[Vec<u8>]) -> (r: Result<usize, ErrorKind>)
        ensures
            same_kind(&old(self).device(), &final(self).device()),
            old(self).cursor() + flatten_bufs(bufs.deep_view()).len() > u64::MAX ==> r == Err::<
                usize,
                ErrorKind,
            >(ErrorKind::Overflow) && final(self).cursor() == old(self).cursor()
                && final(self).device() == old(self).device(),
            old(self).cursor() + flatten_bufs(bufs.deep_view()).len() <= u64::MAX ==> {
                &&& match r {
                    Ok(n) => {
                        &&& n <= flatten_bufs(bufs.deep_view()).len()
                        &&& final(self).device().content() == write_content(
                            old(self).device().content(),
                            old(self).cursor() as int,
                            flatten_bufs(bufs.deep_view()).subrange(0, n as int),
                            old(self).device().grows(),
                        )
                        &&& final(self).cursor() == old(self).cursor() + n
                        &&& old(self).device().exact() && old(self).device().vectored() ==> n
                            == exact_vectored_write_len(
                            old(self).device().content(),
                            old(self).cursor() as int,
                            flatten_bufs(bufs.deep_view()).len() as int,
                            old(self).device().grows(),
                        )
                    },
                    Err(_) => final(self).device().content() == old(self).device().content()
                        && final(self).cursor() == old(self).cursor(),
                }
                &&& old(self).device().infallible() && crate::arrays::write_fits(
                    old(self).device().grows(),
                    old(self).cursor(),
                    flatten_bufs(bufs.deep_view()).len() as int,
                ) ==> r is Ok
            },
    {
        proof {
            lemma_deep_of_slice(bufs);
        }
        let span = checked_span(self.pos, bufs);
        if span.is_none() {
            return Err(ErrorKind::Overflow);
        }
        match self.array.write_vectored_at(bufs, self.pos) {
            Ok(n) => {
                self.pos = self.pos + n as u64;
                Ok(n)
            },
            Err(e) => Err(e),
        }
    }

    /// Writes every buffer completely at the cursor and advances it by the
    /// whole span.
    pub fn write_all_vectored(&mut self, bufs: &[Vec<u8>]) -> (r: Result<(), ErrorKind>)
        ensures
            same_kind(&old(self).device(), &final(self).device()),
            old(self).cursor() + flatten_bufs(bufs.deep_view()).len() > u64::MAX ==> r == Err::<
                (),
                ErrorKind,
            >(ErrorKind::Overflow) && final(self).cursor() == old(self).cursor()
                && final(self).device() == old(self).device(),
            old(self).cursor() + flatten_bufs(bufs.deep_view()).len() <= u64::MAX ==> {
                &&& write_all_at_post(
                    old(self).device().content(),
                    final(self).device().content(),
                    flatten_bufs(bufs.deep_view()),
                    old(self).cursor(),
                    r,
                    old(self).device().grows(),
                    old(self).device().infallible(),
                )
                &&& match r {
                    Ok(_) => final(self).cursor() == old(self).cursor() + flatten_bufs(
                        bufs.deep_view(),
                    ).len(),
                    Err(_) => final(self).cursor() == old(self).cursor(),
                }
            },
    {
        proof {
            lemma_deep_of_slice(bufs);
        }
        let span = checked_span(self.pos, bufs);
        match span {
            None => Err(ErrorKind::Overflow),
            Some(new_pos) => {
                match self.array.write_all_vectored_at(bufs, self.pos) {
                    Ok(_) => {
                        self.pos = new_pos;
                        Ok(())
                    },
                    Err(e) => Err(e),
                }
            },
        }
    }

    /// Succeeds without doing anything: this adapter holds no internal
    /// buffering.
    pub fn flush(&mut self) -> (r: Result<(), ErrorKind>)
        ensures
            final(self).device() == old(self).device(),
            final(self).cursor() == old(self).cursor(),
            r is Ok,
    {
        Ok(())
    }

    /// Repositions the cursor: absolute, end-relative, or
    /// current-relative, clamped into the valid unsigned range.
    pub fn seek(&mut self, from: SeekFrom) -> (r: Result<u64, ErrorKind>)
        ensures
            final(self).device() == old(self).device(),
            match r {
                Ok(p) => {
                    &&& p == seek_target(
                        old(self).cursor(),
                        old(self).device().content().len() as u64,
                        from,
                    )
                    &&& final(self).cursor() == p
                },
                Err(_) => final(self).cursor() == old(self).cursor(),
            },
            old(self).device().infallible() ==> r is Ok,
    {
        match from {
            SeekFrom::Start(n) => {
                self.pos = n;
                Ok(n)
            },
            from => {
                match self.array.metadata() {
                    Ok(m) => {
                        proof {
                            self.array.lemma_content_bounded();
                        }
                        let len = m.len();
                        let p = resolve_seek(self.pos, len, from);
                        self.pos = p;
                        Ok(p)
                    },
                    Err(e) => Err(e),
                }
            },
        }
    }
}

} // verus!
