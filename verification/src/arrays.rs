//! The capability traits for positional I/O, and the metadata value that
//! every device reports.

use vstd::prelude::*;

use crate::errors::ErrorKind;
use crate::model::{avail, flatten_bufs, resize_content, scatter, window, write_content};

verus! {

/// Advice passed to [`Array::advise`] describing an expected access
/// pattern. A pure performance hint with no semantic effect.
#[derive(Clone, Copy, Debug, PartialEq, Eq, Structural)]
pub enum Advice {
    /// No special access pattern.
    Normal,
    /// Sequential access from lower to higher offsets.
    Sequential,
    /// Random access.
    Random,
    /// The range will be needed soon.
    WillNeed,
    /// The range will not be needed soon.
    DontNeed,
    /// The range will be accessed only once.
    NoReuse,
}

/// Metadata information about an array: its byte length and its I/O block
/// size. An immutable snapshot with no identity, re-queried on demand.
#[derive(Clone, Copy, Debug)]
pub struct Metadata {
    /// The size of the array, in bytes.
    pub len: u64,
    /// The block size for I/O.
    pub blksize: u64,
}

impl Metadata {
    /// Returns the size of the array, in bytes, this metadata is for.
    pub fn len(&self) -> (r: u64)
        ensures
            r == self.len,
    {
        self.len
    }

    /// Returns the block size for I/O.
    pub fn blksize(&self) -> (r: u64)
        ensures
            r == self.blksize,
    {
        self.blksize
    }
}

/// A minimal base trait for array I/O: operations common to all kinds of
/// random-access devices that fit the "array" concept.
///
/// The spec functions describe the device to the verifier: its current
/// contents as a byte sequence, and the fixed traits of its kind — whether
/// writes past the end grow it or are clipped, whether it can be resized,
/// whether its operations can fail for reasons outside this model, and
/// whether reads and writes transfer the full requested count.
pub trait Array: Sized {
    /// The current contents of the device, as a sequence of bytes.
    spec fn content(&self) -> Seq<u8>;

    /// Whether a write past the current end zero-fills the gap and extends
    /// the device (true), or is clipped at the end (false).
    spec fn grows(&self) -> bool;

    /// Whether `set_len` is supported.
    spec fn resizable(&self) -> bool;

    /// Whether operations on this device are free of failures outside this
    /// model (true for in-memory devices; false for devices backed by
    /// fallible external resources).
    spec fn infallible(&self) -> bool;

    /// Whether reads and writes always transfer as many bytes as the
    /// contents allow, rather than stopping short.
    spec fn exact(&self) -> bool;

    /// Whether vectored operations are handled natively rather than by
    /// single-buffer emulation.
    spec fn vectored(&self) -> bool;

    /// A device never holds more than `u64::MAX` bytes.
    proof fn lemma_content_bounded(&self)
        ensures
            self.content().len() <= u64::MAX,
    ;

    /// Return the [`Metadata`] for the array.
    fn metadata(&self) -> (r: Result<Metadata, ErrorKind>)
        ensures
            r matches Ok(m) ==> m.len == self.content().len(),
            self.infallible() ==> r is Ok,
    ;

    /// Announce the expected access pattern of the data at the given
    /// offset. This is purely a performance hint and has no semantic
    /// effect.
    fn advise(&self, offset: u64, len: u64, advice: Advice) -> (r: Result<(), ErrorKind>)
        ensures
            self.infallible() ==> r is Ok,
    ;
}

/// What `read_at` leaves behind: the first `n` bytes of the buffer hold the
/// device contents at `offset`, the rest of the buffer is untouched, and
/// the count never exceeds the buffer or the bytes available.
pub open spec fn read_at_post(
    content: Seq<u8>,
    old_buf: Seq<u8>,
    new_buf: Seq<u8>,
    offset: u64,
    r: Result<usize, ErrorKind>,
    exact: bool,
) -> bool {
    &&& new_buf.len() == old_buf.len()
    &&& match r {
        Ok(n) => {
            &&& n <= old_buf.len()
            &&& n <= avail(content, offset as int)
            &&& new_buf == window(content, offset as int, n as int) + old_buf.skip(n as int)
            &&& old_buf.len() > 0 && (offset as int) < content.len() ==> n > 0
            &&& exact ==> n == if old_buf.len() <= avail(content, offset as int) {
                old_buf.len() as int
            } else {
                avail(content, offset as int)
            }
        },
        Err(_) => new_buf == old_buf,
    }
}

/// What `read_exact_at` leaves behind: on success the buffer holds exactly
/// the window of the contents at `offset`; an infallible device succeeds
/// exactly when that window lies within the contents, and reports
/// exhaustion otherwise.
pub open spec fn read_exact_at_post(
    content: Seq<u8>,
    old_buf: Seq<u8>,
    new_buf: Seq<u8>,
    offset: u64,
    r: Result<(), ErrorKind>,
    infallible: bool,
) -> bool {
    &&& new_buf.len() == old_buf.len()
    &&& r is Ok ==> (old_buf.len() == 0 || offset + old_buf.len() <= content.len())
        && new_buf == window(content, offset as int, old_buf.len() as int)
    &&& infallible && (old_buf.len() == 0 || offset + old_buf.len() <= content.len()) ==> r is Ok
    &&& infallible && old_buf.len() > 0 && offset + old_buf.len() > content.len() ==> r == Err::<
        (),
        ErrorKind,
    >(ErrorKind::UnexpectedEof)
}

/// Whether a write of `len` bytes at `offset` fits the addressable range of
/// a device of the given kind: a growable device must be able to hold the
/// resulting length in memory, a clipping device discards what lies beyond
/// its end.
pub open spec fn write_fits(grows: bool, offset: u64, len: int) -> bool {
    !grows || len == 0 || offset + len <= usize::MAX
}

/// What `write_at` does to the contents: on success, the first `n` bytes of
/// the buffer are written at `offset` under the device's growth rule; on
/// failure, nothing changes. An exact device transfers everything the
/// device can hold: the whole buffer on a growable device, the part before
/// the end on a clipping one. An infallible device fails only when the
/// write does not fit the addressable range, and then with an overflow
/// error.
pub open spec fn write_at_post(
    old_content: Seq<u8>,
    new_content: Seq<u8>,
    buf: Seq<u8>,
    offset: u64,
    r: Result<usize, ErrorKind>,
    grows: bool,
    infallible: bool,
    exact: bool,
) -> bool {
    &&& match r {
        Ok(n) => {
            &&& n <= buf.len()
            &&& new_content == write_content(old_content, offset as int, buf.subrange(0, n as int), grows)
            &&& exact ==> n == exact_vectored_write_len(
                old_content,
                offset as int,
                buf.len() as int,
                grows,
            )
        },
        Err(_) => new_content == old_content,
    }
    &&& infallible && write_fits(grows, offset, buf.len() as int) ==> r is Ok
    &&& infallible && !write_fits(grows, offset, buf.len() as int) ==> r == Err::<
        usize,
        ErrorKind,
    >(ErrorKind::Overflow)
}

/// What `write_all_at` does to the contents: on success, the whole buffer
/// is written at `offset` under the device's growth rule; on failure,
/// nothing changes.
pub open spec fn write_all_at_post(
    old_content: Seq<u8>,
    new_content: Seq<u8>,
    buf: Seq<u8>,
    offset: u64,
    r: Result<(), ErrorKind>,
    grows: bool,
    infallible: bool,
) -> bool {
    &&& match r {
        Ok(_) => new_content == write_content(old_content, offset as int, buf, grows),
        Err(_) => new_content == old_content,
    }
    &&& infallible && write_all_ok(old_content, offset, buf.len() as int, grows) ==> r is Ok
    &&& infallible && !write_all_ok(old_content, offset, buf.len() as int, grows) ==> r == Err::<
        (),
        ErrorKind,
    >(if grows {
        ErrorKind::Overflow
    } else {
        ErrorKind::UnexpectedEof
    })
}

/// When an infallible device owes success to `write_all_at`: a growable
/// device whenever the write fits the addressable range, a fixed-size
/// device whenever the write lies within its current contents (an empty
/// write always succeeds).
pub open spec fn write_all_ok(content: Seq<u8>, offset: u64, len: int, grows: bool) -> bool {
    if grows {
        write_fits(grows, offset, len)
    } else {
        len == 0 || offset + len <= content.len()
    }
}

/// The count an exact device transfers for a write: everything, except
/// that a clipping device stops at its end.
pub open spec fn exact_vectored_write_len(
    content: Seq<u8>,
    offset: int,
    total: int,
    grows: bool,
) -> int {
    if grows {
        total
    } else if total <= avail(content, offset) {
        total
    } else {
        avail(content, offset)
    }
}

/// A trait for reading from arrays.
///
/// This is similar to `std::io::Read` except that all of the reading
/// functions take an `offset` parameter, specifying a position in the array
/// to read at, and take `&self` rather than `&mut self`, since there is no
/// current position to mutate.
pub trait ReadAt: Array {
    /// Reads a number of bytes starting from a given offset into the front
    /// of `buf`. Returns how many bytes were read; reads past the end of
    /// the device return 0, and short reads are legal and not an error.
    fn read_at(&self, buf: &mut Vec<u8>, offset: u64) -> (r: Result<usize, ErrorKind>)
        ensures
            read_at_post(self.content(), old(buf)@, final(buf)@, offset, r, self.exact()),
            self.infallible() ==> r is Ok,
    ;

    /// Reads exactly enough bytes to fill `buf` from the given offset, or
    /// fails with [`ErrorKind::UnexpectedEof`] if the device is exhausted
    /// first, leaving the buffer contents unspecified (but its length
    /// unchanged).
    fn read_exact_at(&self, buf: &mut Vec<u8>, offset: u64) -> (r: Result<(), ErrorKind>)
        ensures
            read_exact_at_post(
                self.content(),
                old(buf)@,
                final(buf)@,
                offset,
                r,
                self.infallible(),
            ),
    ;

    /// Is to `read_vectored` what `read_at` is to `read`: scatter-reads
    /// into an ordered sequence of buffers treated as one logical
    /// contiguous destination starting at `offset`.
    fn read_vectored_at(&self, bufs: &mut Vec<Vec<u8>>, offset: u64) -> (r: Result<
        usize,
        ErrorKind,
    >)
        ensures
            match r {
                Ok(n) => {
                    &&& n <= flatten_bufs(old(bufs).deep_view()).len()
                    &&& n <= avail(self.content(), offset as int)
                    &&& final(bufs).deep_view() == scatter(
                        old(bufs).deep_view(),
                        window(self.content(), offset as int, n as int),
                    )
                    &&& flatten_bufs(old(bufs).deep_view()).len() > 0 && (offset as int)
                        < self.content().len() ==> n > 0
                    &&& self.exact() && self.vectored() ==> n == if flatten_bufs(
                        old(bufs).deep_view(),
                    ).len() <= avail(self.content(), offset as int) {
                        flatten_bufs(old(bufs).deep_view()).len() as int
                    } else {
                        avail(self.content(), offset as int)
                    }
                },
                Err(_) => final(bufs).deep_view() == old(bufs).deep_view(),
            },
            self.infallible() ==> r is Ok,
    ;

    /// Is to `read_exact_vectored` what `read_exact_at` is to `read_exact`:
    /// fills every buffer completely, or fails with
    /// [`ErrorKind::UnexpectedEof`] if the device is exhausted first.
    fn read_exact_vectored_at(&self, bufs: &mut Vec<Vec<u8>>, offset: u64) -> (r: Result<
        (),
        ErrorKind,
    >)
        ensures
            final(bufs)@.len() == old(bufs)@.len(),
            r is Ok ==> (flatten_bufs(old(bufs).deep_view()).len() == 0 || offset + flatten_bufs(
                old(bufs).deep_view(),
            ).len() <= self.content().len()) && final(bufs).deep_view() == scatter(
                old(bufs).deep_view(),
                window(
                    self.content(),
                    offset as int,
                    flatten_bufs(old(bufs).deep_view()).len() as int,
                ),
            ),
            self.infallible() && (flatten_bufs(old(bufs).deep_view()).len() == 0 || offset
                + flatten_bufs(old(bufs).deep_view()).len() <= self.content().len()) ==> r is Ok,
            self.infallible() && flatten_bufs(old(bufs).deep_view()).len() > 0 && offset
                + flatten_bufs(old(bufs).deep_view()).len() > self.content().len() ==> r == Err::<
                (),
                ErrorKind,
            >(ErrorKind::UnexpectedEof),
    ;

    /// Determines if `Self` has an efficient `read_vectored_at`
    /// implementation. Callers may use this to choose a faster code path
    /// but must not rely on it for correctness.
    fn is_read_vectored_at(&self) -> (r: bool)
        ensures
            r == self.vectored(),
    ;
}

/// A trait for writing to arrays.
///
/// This is similar to `std::io::Write` except that all of the writing
/// functions take an `offset` parameter, specifying a position in the array
/// to write at.
pub trait WriteAt: Array {
    /// Writes a number of bytes starting from a given offset. Returns how
    /// many bytes of `buf` were consumed.
    fn write_at(&mut self, buf: &[u8], offset: u64) -> (r: Result<usize, ErrorKind>)
        ensures
            write_at_post(
                old(self).content(),
                final(self).content(),
                buf@,
                offset,
                r,
                old(self).grows(),
                old(self).infallible(),
                old(self).exact(),
            ),
            same_kind(old(self), final(self)),
    ;

    /// Attempts to write an entire buffer starting from a given offset.
    fn write_all_at(&mut self, buf: &[u8], offset: u64) -> (r: Result<(), ErrorKind>)
        ensures
            write_all_at_post(
                old(self).content(),
                final(self).content(),
                buf@,
                offset,
                r,
                old(self).grows(),
                old(self).infallible(),
            ),
            same_kind(old(self), final(self)),
    ;

    /// Is to `write_vectored` what `write_at` is to `write`: gather-writes
    /// an ordered sequence of buffers treated as one logical contiguous
    /// source starting at `offset`.
    fn write_vectored_at(&mut self, bufs: &[Vec<u8>], offset: u64) -> (r: Result<usize, ErrorKind>)
        ensures
            match r {
                Ok(n) => {
                    &&& n <= flatten_bufs(bufs.deep_view()).len()
                    &&& final(self).content() == write_content(
                        old(self).content(),
                        offset as int,
                        flatten_bufs(bufs.deep_view()).subrange(0, n as int),
                        old(self).grows(),
                    )
                    &&& old(self).exact() && old(self).vectored() ==> n
                        == exact_vectored_write_len(
                        old(self).content(),
                        offset as int,
                        flatten_bufs(bufs.deep_view()).len() as int,
                        old(self).grows(),
                    )
                },
                Err(_) => final(self).content() == old(self).content(),
            },
            old(self).infallible() && write_fits(
                old(self).grows(),
                offset,
                flatten_bufs(bufs.deep_view()).len() as int,
            ) ==> r is Ok,
            same_kind(old(self), final(self)),
    ;

    /// Is to `write_all_vectored` what `write_all_at` is to `write_all`:
    /// writes every buffer completely.
    fn write_all_vectored_at(&mut self, bufs: &[Vec<u8>], offset: u64) -> (r: Result<
        (),
        ErrorKind,
    >)
        ensures
            write_all_at_post(
                old(self).content(),
                final(self).content(),
                flatten_bufs(bufs.deep_view()),
                offset,
                r,
                old(self).grows(),
                old(self).infallible(),
            ),
            same_kind(old(self), final(self)),
    ;

    /// Determines if `Self` has an efficient `write_vectored_at`
    /// implementation.
    fn is_write_vectored_at(&self) -> (r: bool)
        ensures
            r == self.vectored(),
    ;

    /// Truncates or extends the underlying array, updating its size to
    /// become `size`; extension zero-fills. A device that cannot be resized
    /// fails with [`ErrorKind::PermissionDenied`].
    fn set_len(&mut self, size: u64) -> (r: Result<(), ErrorKind>)
        ensures
            match r {
                Ok(_) => final(self).content() == resize_content(
                    old(self).content(),
                    size as int,
                ),
                Err(_) => final(self).content() == old(self).content(),
            },
            old(self).resizable() && size <= usize::MAX ==> r is Ok,
            old(self).resizable() && size > usize::MAX ==> r == Err::<(), ErrorKind>(
                ErrorKind::Overflow,
            ),
            !old(self).resizable() ==> r == Err::<(), ErrorKind>(ErrorKind::PermissionDenied),
            same_kind(old(self), final(self)),
    ;
}

/// The fixed traits of a device's kind are not changed by any operation.
pub open spec fn same_kind<A: Array>(a: &A, b: &A) -> bool {
    &&& a.grows() == b.grows()
    &&& a.resizable() == b.resizable()
    &&& a.infallible() == b.infallible()
    &&& a.exact() == b.exact()
    &&& a.vectored() == b.vectored()
}

/// A trait for reading and writing to arrays.
///
/// This trait simply combines [`ReadAt`] and [`WriteAt`] and has a blanket
/// implementation for any type that implements both.
pub trait EditAt: ReadAt + WriteAt {

}

impl<T: ReadAt + WriteAt> EditAt for T {

}

} // verus!
