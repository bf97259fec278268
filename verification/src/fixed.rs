//! A fixed-size in-memory byte device: reads and writes are clipped at its
//! end, like a slice of memory, and it cannot be resized at all.

use vstd::prelude::*;

use crate::arrays::{Advice, Array, Metadata, ReadAt, WriteAt};
use crate::bufops::{
    mem_gather_write, mem_read_at, mem_read_exact_at, mem_scatter_read, mem_scatter_read_exact,
    mem_write_clip,
};
use crate::errors::ErrorKind;
use crate::model::flatten_bufs;
use crate::sys::system_page_size;

verus! {

/// A random-access device over a fixed-size in-memory buffer: the length
/// never changes, writes beyond the end are clipped, and resizing is
/// refused.
pub struct FixedArray {
    bytes: Vec<u8>,
}

impl FixedArray {
    /// Copies a slice of bytes into a fixed-size memory buffer so it can
    /// be accessed in the manner of an array.
    pub fn bytes(data: &[u8]) -> (r: Self)
        ensures
            r.content() == data@,
    {
        FixedArray { bytes: vstd::slice::slice_to_vec(data) }
    }
}

impl Array for FixedArray {
    closed spec fn content(&self) -> Seq<u8> {
        self.bytes@
    }

    open spec fn grows(&self) -> bool {
        false
    }

    open spec fn resizable(&self) -> bool {
        false
    }

    open spec fn infallible(&self) -> bool {
        true
    }

    open spec fn exact(&self) -> bool {
        true
    }

    open spec fn vectored(&self) -> bool {
        true
    }

    proof fn lemma_content_bounded(&self) {
        vstd::std_specs::vec::axiom_spec_len(&self.bytes);
    }

    fn metadata(&self) -> (r: Result<Metadata, ErrorKind>) {
        let ps = system_page_size();
        Ok(Metadata { len: self.bytes.len() as u64, blksize: ps as u64 })
    }

    fn advise(&self, offset: u64, len: u64, advice: Advice) -> (r: Result<(), ErrorKind>) {
        Ok(())
    }
}

impl ReadAt for FixedArray {
    fn read_at(&self, buf: &mut Vec<u8>, offset: u64) -> (r: Result<usize, ErrorKind>) {
        let n = mem_read_at(&self.bytes, buf, offset);
        Ok(n)
    }

    fn read_exact_at(&self, buf: &mut Vec<u8>, offset: u64) -> (r: Result<(), ErrorKind>) {
        mem_read_exact_at(&self.bytes, buf, offset)
    }

    fn read_vectored_at(&self, bufs: &mut Vec<Vec<u8>>, offset: u64) -> (r: Result<
        usize,
        ErrorKind,
    >) {
        let n = mem_scatter_read(&self.bytes, bufs, 0, offset);
        proof {
            assert(old(bufs).deep_view().skip(0) =~= old(bufs).deep_view());
            assert(bufs.deep_view().skip(0) =~= bufs.deep_view());
        }
        Ok(n)
    }

    fn read_exact_vectored_at(&self, bufs: &mut Vec<Vec<u8>>, offset: u64) -> (r: Result<
        (),
        ErrorKind,
    >) {
        let r = mem_scatter_read_exact(&self.bytes, bufs, 0, offset);
        proof {
            assert(old(bufs).deep_view().skip(0) =~= old(bufs).deep_view());
            assert(bufs.deep_view().skip(0) =~= bufs.deep_view());
        }
        r
    }

    fn is_read_vectored_at(&self) -> (r: bool) {
        true
    }
}

impl WriteAt for FixedArray {
    fn write_at(&mut self, buf: &[u8], offset: u64) -> (r: Result<usize, ErrorKind>) {
        let len = self.bytes.len();
        mem_write_clip(&mut self.bytes, buf, offset);
        let n = if offset >= len as u64 {
            0
        } else {
            let remaining = len - (offset as usize);
            if buf.len() <= remaining {
                buf.len()
            } else {
                remaining
            }
        };
        proof {
            assert(crate::model::write_clip(old(self).content(), offset as int, buf@)
                =~= crate::model::write_clip(
                old(self).content(),
                offset as int,
                buf@.subrange(0, n as int),
            ));
        }
        Ok(n)
    }

    fn write_all_at(&mut self, buf: &[u8], offset: u64) -> (r: Result<(), ErrorKind>) {
        let len = self.bytes.len();
        if buf.len() > 0 && (offset > len as u64 || buf.len() > len - (offset as usize)) {
            return Err(ErrorKind::UnexpectedEof);
        }
        mem_write_clip(&mut self.bytes, buf, offset);
        Ok(())
    }

    fn write_vectored_at(&mut self, bufs: &[Vec<u8>], offset: u64) -> (r: Result<usize, ErrorKind>) {
        let ghost deep = bufs.deep_view();
        proof {
            assert(deep.skip(0) =~= deep);
        }
        let n = mem_gather_write(&mut self.bytes, bufs, 0, offset, false);
        Ok(n)
    }

    fn write_all_vectored_at(&mut self, bufs: &[Vec<u8>], offset: u64) -> (r: Result<
        (),
        ErrorKind,
    >) {
        let ghost deep = bufs.deep_view();
        proof {
            assert(deep.skip(0) =~= deep);
        }
        let len = self.bytes.len();
        match crate::bufops::vectored_total(bufs, 0) {
            None => {
                proof {
                    vstd::std_specs::vec::axiom_spec_len(&old(self).bytes);
                }
                Err(ErrorKind::UnexpectedEof)
            },
            Some(total) => {
                if total > 0 && (offset > len as u64 || total > len - (offset as usize)) {
                    return Err(ErrorKind::UnexpectedEof);
                }
                let n = mem_gather_write(&mut self.bytes, bufs, 0, offset, false);
                proof {
                    assert(flatten_bufs(deep).subrange(0, n as int) =~= flatten_bufs(deep));
                }
                Ok(())
            },
        }
    }

    fn is_write_vectored_at(&self) -> (r: bool) {
        true
    }

    fn set_len(&mut self, size: u64) -> (r: Result<(), ErrorKind>) {
        Err(ErrorKind::PermissionDenied)
    }
}

} // verus!
