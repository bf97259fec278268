//! The device wrapper types: [`ArrayReader`], [`ArrayWriter`], and
//! [`ArrayEditor`]. Each exclusively owns one memory-backed handle and
//! exposes exactly the capability its name says — reading, writing, or
//! both.
//!
//! A write-capable wrapper must not be constructed over a handle opened in
//! append mode: on at least one platform a positional write on such a
//! handle silently ignores the offset, which would break the offset
//! contract. Construction therefore takes the handle's append flag and
//! refuses the handle when it is set.

use vstd::prelude::*;

use crate::arrays::{
    read_at_post, read_exact_at_post, same_kind, write_all_at_post, write_at_post, Advice, Array,
    Metadata, ReadAt, WriteAt,
};
use crate::bytes::ByteArray;
use crate::errors::ErrorKind;
use crate::model::{flatten_bufs, resize_content, scatter, window, write_content};

verus! {

/// A random-access input source over an exclusively owned memory-backed
/// handle.
pub struct ArrayReader {
    array: ByteArray,
}

/// A random-access output sink over an exclusively owned memory-backed
/// handle.
pub struct ArrayWriter {
    array: ByteArray,
}

/// A random-access input source and output sink over an exclusively owned
/// memory-backed handle.
pub struct ArrayEditor {
    array: ByteArray,
}

impl ArrayReader {
    /// Wraps a memory-backed handle, taking ownership; no I/O is
    /// performed.
    pub fn file(array: ByteArray) -> (r: Self)
        ensures
            r.content() == array.content(),
    {
        ArrayReader { array }
    }

    /// Copies a slice of bytes into a memory buffer to allow it to be
    /// accessed in the manner of an array.
    pub fn bytes(data: &[u8]) -> (r: Self)
        ensures
            r.content() == data@,
    {
        ArrayReader { array: ByteArray::bytes(data) }
    }
}

impl ArrayWriter {
    /// Wraps a memory-backed handle, taking ownership; no I/O is
    /// performed. `append` is the append mode of the handle: a handle in
    /// append mode is refused, never silently accepted.
    pub fn file(array: ByteArray, append: bool) -> (r: Option<Self>)
        ensures
            r is Some <==> !append,
            r matches Some(w) ==> w.content() == array.content(),
    {
        if append {
            None
        } else {
            Some(ArrayWriter { array })
        }
    }
}

impl ArrayEditor {
    /// Wraps a memory-backed handle, taking ownership; no I/O is
    /// performed. `append` is the append mode of the handle: a handle in
    /// append mode is refused, never silently accepted.
    pub fn file(array: ByteArray, append: bool) -> (r: Option<Self>)
        ensures
            r is Some <==> !append,
            r matches Some(e) ==> e.content() == array.content(),
    {
        if append {
            None
        } else {
            Some(ArrayEditor { array })
        }
    }

    /// Creates a temporary anonymous resource which can be accessed in the
    /// manner of an array.
    pub fn anonymous() -> (r: Self)
        ensures
            r.content() == Seq::<u8>::empty(),
    {
        ArrayEditor { array: ByteArray::anonymous() }
    }
}

impl Array for ArrayReader {
    closed spec fn content(&self) -> Seq<u8> {
        self.array.content()
    }

    open spec fn grows(&self) -> bool {
        true
    }

    open spec fn resizable(&self) -> bool {
        true
    }

    open spec fn infallible(&self) -> bool {
        true
    }

    open spec fn exact(&self) -> bool {
        true
    }

    open spec fn vectored(&self) -> bool {
        true
    }

    proof fn lemma_content_bounded(&self) {
        self.array.lemma_content_bounded();
    }

    fn metadata(&self) -> (r: Result<Metadata, ErrorKind>) {
        self.array.metadata()
    }

    fn advise(&self, offset: u64, len: u64, advice: Advice) -> (r: Result<(), ErrorKind>) {
        self.array.advise(offset, len, advice)
    }
}

impl ReadAt for ArrayReader {
    fn read_at(&self, buf: &mut Vec<u8>, offset: u64) -> (r: Result<usize, ErrorKind>) {
        self.array.read_at(buf, offset)
    }

    fn read_exact_at(&self, buf: &mut Vec<u8>, offset: u64) -> (r: Result<(), ErrorKind>) {
        self.array.read_exact_at(buf, offset)
    }

    fn read_vectored_at(&self, bufs: &mut Vec<Vec<u8>>, offset: u64) -> (r: Result<
        usize,
        ErrorKind,
    >) {
        self.array.read_vectored_at(bufs, offset)
    }

    fn read_exact_vectored_at(&self, bufs: &mut Vec<Vec<u8>>, offset: u64) -> (r: Result<
        (),
        ErrorKind,
    >) {
        self.array.read_exact_vectored_at(bufs, offset)
    }

    fn is_read_vectored_at(&self) -> (r: bool) {
        self.array.is_read_vectored_at()
    }
}

impl Array for ArrayWriter {
    closed spec fn content(&self) -> Seq<u8> {
        self.array.content()
    }

    open spec fn grows(&self) -> bool {
        true
    }

    open spec fn resizable(&self) -> bool {
        true
    }

    open spec fn infallible(&self) -> bool {
        true
    }

    open spec fn exact(&self) -> bool {
        true
    }

    open spec fn vectored(&self) -> bool {
        true
    }

    proof fn lemma_content_bounded(&self) {
        self.array.lemma_content_bounded();
    }

    fn metadata(&self) -> (r: Result<Metadata, ErrorKind>) {
        self.array.metadata()
    }

    fn advise(&self, offset: u64, len: u64, advice: Advice) -> (r: Result<(), ErrorKind>) {
        self.array.advise(offset, len, advice)
    }
}

impl WriteAt for ArrayWriter {
    fn write_at(&mut self, buf: &[u8], offset: u64) -> (r: Result<usize, ErrorKind>) {
        self.array.write_at(buf, offset)
    }

    fn write_all_at(&mut self, buf: &[u8], offset: u64) -> (r: Result<(), ErrorKind>) {
        self.array.write_all_at(buf, offset)
    }

    fn write_vectored_at(&mut self, bufs: &[Vec<u8>], offset: u64) -> (r: Result<usize, ErrorKind>) {
        self.array.write_vectored_at(bufs, offset)
    }

    fn write_all_vectored_at(&mut self, bufs: &[Vec<u8>], offset: u64) -> (r: Result<
        (),
        ErrorKind,
    >) {
        self.array.write_all_vectored_at(bufs, offset)
    }

    fn is_write_vectored_at(&self) -> (r: bool) {
        self.array.is_write_vectored_at()
    }

    fn set_len(&mut self, size: u64) -> (r: Result<(), ErrorKind>) {
        self.array.set_len(size)
    }
}

impl Array for ArrayEditor {
    closed spec fn content(&self) -> Seq<u8> {
        self.array.content()
    }

    open spec fn grows(&self) -> bool {
        true
    }

    open spec fn resizable(&self) -> bool {
        true
    }

    open spec fn infallible(&self) -> bool {
        true
    }

    open spec fn exact(&self) -> bool {
        true
    }

    open spec fn vectored(&self) -> bool {
        true
    }

    proof fn lemma_content_bounded(&self) {
        self.array.lemma_content_bounded();
    }

    fn metadata(&self) -> (r: Result<Metadata, ErrorKind>) {
        self.array.metadata()
    }

    fn advise(&self, offset: u64, len: u64, advice: Advice) -> (r: Result<(), ErrorKind>) {
        self.array.advise(offset, len, advice)
    }
}

impl ReadAt for ArrayEditor {
    fn read_at(&self, buf: &mut Vec<u8>, offset: u64) -> (r: Result<usize, ErrorKind>) {
        self.array.read_at(buf, offset)
    }

    fn read_exact_at(&self, buf: &mut Vec<u8>, offset: u64) -> (r: Result<(), ErrorKind>) {
        self.array.read_exact_at(buf, offset)
    }

    fn read_vectored_at(&self, bufs: &mut Vec<Vec<u8>>, offset: u64) -> (r: Result<
        usize,
        ErrorKind,
    >) {
        self.array.read_vectored_at(bufs, offset)
    }

    fn read_exact_vectored_at(&self, bufs: &mut Vec<Vec<u8>>, offset: u64) -> (r: Result<
        (),
        ErrorKind,
    >) {
        self.array.read_exact_vectored_at(bufs, offset)
    }

    fn is_read_vectored_at(&self) -> (r: bool) {
        self.array.is_read_vectored_at()
    }
}

impl WriteAt for ArrayEditor {
    fn write_at(&mut self, buf: &[u8], offset: u64) -> (r: Result<usize, ErrorKind>) {
        self.array.write_at(buf, offset)
    }

    fn write_all_at(&mut self, buf: &[u8], offset: u64) -> (r: Result<(), ErrorKind>) {
        self.array.write_all_at(buf, offset)
    }

    fn write_vectored_at(&mut self, bufs: &[Vec<u8>], offset: u64) -> (r: Result<usize, ErrorKind>) {
        self.array.write_vectored_at(bufs, offset)
    }

    fn write_all_vectored_at(&mut self, bufs: &[Vec<u8>], offset: u64) -> (r: Result<
        (),
        ErrorKind,
    >) {
        self.array.write_all_vectored_at(bufs, offset)
    }

    fn is_write_vectored_at(&self) -> (r: bool) {
        self.array.is_write_vectored_at()
    }

    fn set_len(&mut self, size: u64) -> (r: Result<(), ErrorKind>) {
        self.array.set_len(size)
    }
}

} // verus!
