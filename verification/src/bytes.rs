//! A growable in-memory byte store exposed as a random-access device: the
//! anonymous backing storage of this library. It behaves like a file —
//! writes past the current end zero-fill the gap and extend it — without
//! needing any OS object at all.

use vstd::prelude::*;

use crate::arrays::{
    read_at_post, read_exact_at_post, same_kind, write_all_at_post, write_at_post, Advice, Array,
    Metadata, ReadAt, WriteAt,
};
use crate::bufops::{
    mem_gather_write, mem_read_at, mem_read_exact_at, mem_scatter_read, mem_scatter_read_exact,
    mem_write_grow, push_zeros, vectored_total,
};
use crate::errors::ErrorKind;
use crate::model::{flatten_bufs, resize_content, scatter, window, write_content};
use crate::sys::system_page_size;

verus! {

/// A random-access device backed by an anonymous, growable in-memory byte
/// buffer.
pub struct ByteArray {
    bytes: Vec<u8>,
}

impl ByteArray {
    /// Creates an empty anonymous scratch buffer.
    pub fn anonymous() -> (r: Self)
        ensures
            r.content() == Seq::<u8>::empty(),
    {
        ByteArray { bytes: Vec::new() }
    }

    /// Copies a slice of bytes into a fresh memory buffer so it can be
    /// accessed in the manner of an array.
    pub fn bytes(data: &[u8]) -> (r: Self)
        ensures
            r.content() == data@,
    {
        ByteArray { bytes: vstd::slice::slice_to_vec(data) }
    }
}

impl Array for ByteArray {
    closed spec fn content(&self) -> Seq<u8> {
        self.bytes@
    }

    open spec fn grows(&self) -> bool {
        true
    }

    open spec fn resizable(&self) -> bool {
        true
    }

    open spec fn infallible(&self) -> bool {
        true
    }

    open spec fn exact(&self) -> bool {
        true
    }

    open spec fn vectored(&self) -> bool {
        true
    }

    proof fn lemma_content_bounded(&self) {
        vstd::std_specs::vec::axiom_spec_len(&self.bytes);
    }

    fn metadata(&self) -> (r: Result<Metadata, ErrorKind>) {
        let ps = system_page_size();
        Ok(Metadata { len: self.bytes.len() as u64, blksize: ps as u64 })
    }

    fn advise(&self, offset: u64, len: u64, advice: Advice) -> (r: Result<(), ErrorKind>) {
        Ok(())
    }
}

impl ReadAt for ByteArray {
    fn read_at(&self, buf: &mut Vec<u8>, offset: u64) -> (r: Result<usize, ErrorKind>) {
        let n = mem_read_at(&self.bytes, buf, offset);
        Ok(n)
    }

    fn read_exact_at(&self, buf: &mut Vec<u8>, offset: u64) -> (r: Result<(), ErrorKind>) {
        mem_read_exact_at(&self.bytes, buf, offset)
    }

    fn read_vectored_at(&self, bufs: &mut Vec<Vec<u8>>, offset: u64) -> (r: Result<
        usize,
        ErrorKind,
    >) {
        let n = mem_scatter_read(&self.bytes, bufs, 0, offset);
        proof {
            assert(old(bufs).deep_view().skip(0) =~= old(bufs).deep_view());
            assert(bufs.deep_view().skip(0) =~= bufs.deep_view());
        }
        Ok(n)
    }

    fn read_exact_vectored_at(&self, bufs: &mut Vec<Vec<u8>>, offset: u64) -> (r: Result<
        (),
        ErrorKind,
    >) {
        let r = mem_scatter_read_exact(&self.bytes, bufs, 0, offset);
        proof {
            assert(old(bufs).deep_view().skip(0) =~= old(bufs).deep_view());
            assert(bufs.deep_view().skip(0) =~= bufs.deep_view());
        }
        r
    }

    fn is_read_vectored_at(&self) -> (r: bool) {
        true
    }
}

impl WriteAt for ByteArray {
    fn write_at(&mut self, buf: &[u8], offset: u64) -> (r: Result<usize, ErrorKind>) {
        match mem_write_grow(&mut self.bytes, buf, offset) {
            Ok(_) => {
                proof {
                    assert(buf@.subrange(0, buf@.len() as int) =~= buf@);
                }
                Ok(buf.len())
            },
            Err(e) => Err(e),
        }
    }

    fn write_all_at(&mut self, buf: &[u8], offset: u64) -> (r: Result<(), ErrorKind>) {
        mem_write_grow(&mut self.bytes, buf, offset)
    }

    fn write_vectored_at(&mut self, bufs: &[Vec<u8>], offset: u64) -> (r: Result<usize, ErrorKind>) {
        match vectored_total(bufs, offset) {
            None => Err(ErrorKind::Overflow),
            Some(_total) => {
                let ghost deep = bufs.deep_view();
                proof {
                    assert(deep.skip(0) =~= deep);
                }
                let n = mem_gather_write(&mut self.bytes, bufs, 0, offset, true);
                Ok(n)
            },
        }
    }

    fn write_all_vectored_at(&mut self, bufs: &[Vec<u8>], offset: u64) -> (r: Result<
        (),
        ErrorKind,
    >) {
        match vectored_total(bufs, offset) {
            None => Err(ErrorKind::Overflow),
            Some(_total) => {
                let ghost deep = bufs.deep_view();
                proof {
                    assert(deep.skip(0) =~= deep);
                }
                let n = mem_gather_write(&mut self.bytes, bufs, 0, offset, true);
                proof {
                    assert(flatten_bufs(deep).subrange(0, n as int) =~= flatten_bufs(deep));
                }
                Ok(())
            },
        }
    }

    fn is_write_vectored_at(&self) -> (r: bool) {
        true
    }

    fn set_len(&mut self, size: u64) -> (r: Result<(), ErrorKind>) {
        if size > usize::MAX as u64 {
            return Err(ErrorKind::Overflow);
        }
        let s = size as usize;
        if s <= self.bytes.len() {
            self.bytes.truncate(s);
            proof {
                assert(self.bytes@ =~= resize_content(old(self).content(), size as int));
            }
        } else {
            push_zeros(&mut self.bytes, s);
            proof {
                assert(self.bytes@ =~= resize_content(old(self).content(), size as int));
            }
        }
        Ok(())
    }
}

} // verus!
