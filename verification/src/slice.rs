//! A plain `Vec<u8>` as a random-access device: reads and writes are
//! clipped at the end of the buffer (the buffer does not grow under
//! writes), while `set_len` resizes it explicitly.

use vstd::prelude::*;

use crate::arrays::{Advice, Array, Metadata, ReadAt, WriteAt};
use crate::bufops::{
    mem_gather_write, mem_read_at, mem_read_exact_at, mem_scatter_read, mem_scatter_read_exact,
    mem_write_clip, push_zeros, vectored_total,
};
use crate::errors::ErrorKind;
use crate::model::{flatten_bufs, resize_content, write_clip};
use crate::sys::system_page_size;

verus! {

impl Array for Vec<u8> {
    open spec fn content(&self) -> Seq<u8> {
        self@
    }

    open spec fn grows(&self) -> bool {
        false
    }

    open spec fn resizable(&self) -> bool {
        true
    }

    open spec fn infallible(&self) -> bool {
        true
    }

    open spec fn exact(&self) -> bool {
        true
    }

    open spec fn vectored(&self) -> bool {
        true
    }

    proof fn lemma_content_bounded(&self) {
        vstd::std_specs::vec::axiom_spec_len(self);
    }

    fn metadata(&self) -> (r: Result<Metadata, ErrorKind>) {
        let ps = system_page_size();
        Ok(Metadata { len: self.len() as u64, blksize: ps as u64 })
    }

    fn advise(&self, offset: u64, len: u64, advice: Advice) -> (r: Result<(), ErrorKind>) {
        Ok(())
    }
}

impl ReadAt for Vec<u8> {
    fn read_at(&self, buf: &mut Vec<u8>, offset: u64) -> (r: Result<usize, ErrorKind>) {
        let n = mem_read_at(self, buf, offset);
        Ok(n)
    }

    fn read_exact_at(&self, buf: &mut Vec<u8>, offset: u64) -> (r: Result<(), ErrorKind>) {
        mem_read_exact_at(self, buf, offset)
    }

    fn read_vectored_at(&self, bufs: &mut Vec<Vec<u8>>, offset: u64) -> (r: Result<
        usize,
        ErrorKind,
    >) {
        let n = mem_scatter_read(self, bufs, 0, offset);
        proof {
            assert(old(bufs).deep_view().skip(0) =~= old(bufs).deep_view());
            assert(bufs.deep_view().skip(0) =~= bufs.deep_view());
        }
        Ok(n)
    }

    fn read_exact_vectored_at(&self, bufs: &mut Vec<Vec<u8>>, offset: u64) -> (r: Result<
        (),
        ErrorKind,
    >) {
        let r = mem_scatter_read_exact(self, bufs, 0, offset);
        proof {
            assert(old(bufs).deep_view().skip(0) =~= old(bufs).deep_view());
            assert(bufs.deep_view().skip(0) =~= bufs.deep_view());
        }
        r
    }

    fn is_read_vectored_at(&self) -> (r: bool) {
        true
    }
}

impl WriteAt for Vec<u8> {
    fn write_at(&mut self, buf: &[u8], offset: u64) -> (r: Result<usize, ErrorKind>) {
        let len = self.len();
        mem_write_clip(self, buf, offset);
        let n = if offset >= len as u64 {
            0
        } else {
            let remaining = len - (offset as usize);
            if buf.len() <= remaining {
                buf.len()
            } else {
                remaining
            }
        };
        proof {
            assert(write_clip(old(self)@, offset as int, buf@) =~= write_clip(
                old(self)@,
                offset as int,
                buf@.subrange(0, n as int),
            ));
        }
        Ok(n)
    }

    fn write_all_at(&mut self, buf: &[u8], offset: u64) -> (r: Result<(), ErrorKind>) {
        let len = self.len();
        if buf.len() > 0 && (offset > len as u64 || buf.len() > len - (offset as usize)) {
            return Err(ErrorKind::UnexpectedEof);
        }
        mem_write_clip(self, buf, offset);
        Ok(())
    }

    fn write_vectored_at(&mut self, bufs: &[Vec<u8>], offset: u64) -> (r: Result<usize, ErrorKind>) {
        let ghost deep = bufs.deep_view();
        proof {
            assert(deep.skip(0) =~= deep);
        }
        let n = mem_gather_write(self, bufs, 0, offset, false);
        Ok(n)
    }

    fn write_all_vectored_at(&mut self, bufs: &[Vec<u8>], offset: u64) -> (r: Result<
        (),
        ErrorKind,
    >) {
        let ghost deep = bufs.deep_view();
        proof {
            assert(deep.skip(0) =~= deep);
        }
        let len = self.len();
        match vectored_total(bufs, 0) {
            None => {
                proof {
                    vstd::std_specs::vec::axiom_spec_len(old(self));
                }
                Err(ErrorKind::UnexpectedEof)
            },
            Some(total) => {
                if total > 0 && (offset > len as u64 || total > len - (offset as usize)) {
                    return Err(ErrorKind::UnexpectedEof);
                }
                let n = mem_gather_write(self, bufs, 0, offset, false);
                proof {
                    assert(flatten_bufs(deep).subrange(0, n as int) =~= flatten_bufs(deep));
                }
                Ok(())
            },
        }
    }

    fn is_write_vectored_at(&self) -> (r: bool) {
        true
    }

    fn set_len(&mut self, size: u64) -> (r: Result<(), ErrorKind>) {
        if size > usize::MAX as u64 {
            return Err(ErrorKind::Overflow);
        }
        let s = size as usize;
        if s <= self.len() {
            self.truncate(s);
            proof {
                assert(self@ =~= resize_content(old(self)@, size as int));
            }
        } else {
            push_zeros(self, s);
            proof {
                assert(self@ =~= resize_content(old(self)@, size as int));
            }
        }
        Ok(())
    }
}

} // verus!
