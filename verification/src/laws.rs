//! The laws of the device model: what holds of every device for every
//! input, stated over the same spec functions that the positional
//! operations' contracts use, and proved once and for all.

use vstd::prelude::*;

use crate::model::{
    flatten_bufs, lemma_flatten_scatter, lemma_write_content_append, resize_content, scatter,
    window, write_content, write_grow, zeros,
};

verus! {

/// Writing `data` at `offset` into a growable device and then reading
/// `data.len()` bytes back from `offset` yields exactly `data`: the
/// positional round trip.
pub proof fn lemma_write_read_round_trip(content: Seq<u8>, offset: u64, data: Seq<u8>)
    ensures
        window(write_grow(content, offset as int, data), offset as int, data.len() as int) == data,
{
    assert(window(write_grow(content, offset as int, data), offset as int, data.len() as int)
        =~= data);
}

/// Writing at an offset beyond the current end of a growable device
/// zero-fills the gap: the new contents are the old contents, then zeros
/// up to the offset, then the data.
pub proof fn lemma_write_past_end_zero_fills(content: Seq<u8>, offset: u64, data: Seq<u8>)
    requires
        content.len() <= offset as int,
        data.len() > 0,
    ensures
        write_grow(content, offset as int, data) == content + zeros(offset - content.len())
            + data,
{
    assert(write_grow(content, offset as int, data) =~= content + zeros(offset - content.len())
        + data);
}

/// Truncating a device to nothing and then writing at an arbitrary offset
/// leaves zeros up to that offset followed by the data: no prior content
/// survives.
pub proof fn lemma_truncate_then_write(content: Seq<u8>, offset: u64, data: Seq<u8>)
    requires
        data.len() > 0,
    ensures
        write_grow(resize_content(content, 0), offset as int, data) == zeros(offset as int)
            + data,
{
    assert(resize_content(content, 0) =~= Seq::<u8>::empty());
    assert(write_grow(resize_content(content, 0), offset as int, data) =~= zeros(offset as int)
        + data);
}

/// A vectored exact read is equivalent, byte for byte, to one exact read
/// of the whole flattened length at the same offset: scattering the window
/// across the buffers and flattening them again gives the window back.
pub proof fn lemma_vectored_read_equiv(content: Seq<u8>, bufs: Seq<Seq<u8>>, offset: u64)
    ensures
        flatten_bufs(
            scatter(
                bufs,
                window(content, offset as int, flatten_bufs(bufs).len() as int),
            ),
        ) == window(content, offset as int, flatten_bufs(bufs).len() as int),
{
    lemma_flatten_scatter(bufs, window(content, offset as int, flatten_bufs(bufs).len() as int));
}

/// Writing a sequence of buffers one after another at consecutive offsets.
pub open spec fn gather_writes(
    content: Seq<u8>,
    offset: int,
    bufs: Seq<Seq<u8>>,
    grows: bool,
) -> Seq<u8>
    decreases bufs.len(),
{
    if bufs.len() == 0 {
        content
    } else {
        gather_writes(
            write_content(content, offset, bufs[0], grows),
            offset + bufs[0].len(),
            bufs.skip(1),
            grows,
        )
    }
}

/// A vectored write is equivalent, byte for byte, to one write of the
/// flattened buffer sequence at the same offset: writing the buffers one
/// after another at consecutive offsets gives the same contents as a
/// single write of their concatenation.
pub proof fn lemma_vectored_write_equiv(
    content: Seq<u8>,
    offset: u64,
    bufs: Seq<Seq<u8>>,
    grows: bool,
)
    ensures
        gather_writes(content, offset as int, bufs, grows) == write_content(
            content,
            offset as int,
            flatten_bufs(bufs),
            grows,
        ),
    decreases bufs.len(),
{
    lemma_vectored_write_equiv_at(content, offset as int, bufs, grows);
}

/// The recursive core of [`lemma_vectored_write_equiv`], over an arbitrary
/// integer offset.
proof fn lemma_vectored_write_equiv_at(
    content: Seq<u8>,
    offset: int,
    bufs: Seq<Seq<u8>>,
    grows: bool,
)
    requires
        0 <= offset,
    ensures
        gather_writes(content, offset, bufs, grows) == write_content(
            content,
            offset,
            flatten_bufs(bufs),
            grows,
        ),
    decreases bufs.len(),
{
    if bufs.len() == 0 {
        assert(flatten_bufs(bufs) =~= Seq::<u8>::empty());
        assert(write_content(content, offset, flatten_bufs(bufs), grows) =~= content);
    } else {
        let c1 = write_content(content, offset, bufs[0], grows);
        lemma_vectored_write_equiv_at(c1, offset + bufs[0].len(), bufs.skip(1), grows);
        lemma_write_content_append(content, offset, bufs[0], flatten_bufs(bufs.skip(1)), grows);
        assert(bufs[0] + flatten_bufs(bufs.skip(1)) == flatten_bufs(bufs));
    }
}

} // verus!
