//! The mathematical model of a device: its contents as a sequence of bytes,
//! and what each positional operation does to that sequence.

use vstd::prelude::*;

verus! {

/// A run of `n` zero bytes.
pub open spec fn zeros(n: int) -> Seq<u8> {
    Seq::new(n as nat, |i: int| 0u8)
}

/// How many bytes a device with contents `content` has at or after `offset`.
pub open spec fn avail(content: Seq<u8>, offset: int) -> int {
    if offset >= content.len() {
        0
    } else {
        content.len() - offset
    }
}

/// The `n` bytes of `content` starting at `offset`. Meaningful when the
/// whole window lies within the contents; always a sequence of length `n`.
pub open spec fn window(content: Seq<u8>, offset: int, n: int) -> Seq<u8> {
    Seq::new(n as nat, |i: int| content[offset + i])
}

/// The contents of a growable device after writing `data` at `offset`.
///
/// A write past the current end first zero-fills the gap, then appends the
/// data; an empty write changes nothing, in particular it does not extend
/// the device.
pub open spec fn write_grow(content: Seq<u8>, offset: int, data: Seq<u8>) -> Seq<u8> {
    if data.len() == 0 {
        content
    } else {
        let end = offset + data.len();
        let new_len = if content.len() >= end {
            content.len() as int
        } else {
            end
        };
        Seq::new(
            new_len as nat,
            |i: int|
                if offset <= i < end {
                    data[i - offset]
                } else if i < content.len() {
                    content[i]
                } else {
                    0u8
                },
        )
    }
}

/// The contents of a fixed-size device after writing `data` at `offset`:
/// the overlay is clipped at the end of the device, and the length never
/// changes.
pub open spec fn write_clip(content: Seq<u8>, offset: int, data: Seq<u8>) -> Seq<u8> {
    Seq::new(
        content.len(),
        |i: int|
            if offset <= i < offset + data.len() {
                data[i - offset]
            } else {
                content[i]
            },
    )
}

/// The contents of a device after writing `data` at `offset`, for a device
/// that grows (`grows == true`) or clips (`grows == false`).
pub open spec fn write_content(content: Seq<u8>, offset: int, data: Seq<u8>, grows: bool) -> Seq<
    u8,
> {
    if grows {
        write_grow(content, offset, data)
    } else {
        write_clip(content, offset, data)
    }
}

/// The contents of a device after resizing it to `n` bytes: truncated, or
/// zero-extended.
pub open spec fn resize_content(content: Seq<u8>, n: int) -> Seq<u8> {
    if n <= content.len() {
        content.subrange(0, n)
    } else {
        content + zeros(n - content.len())
    }
}

/// An ordered sequence of buffers read as one logical contiguous byte
/// sequence.
pub open spec fn flatten_bufs(bufs: Seq<Seq<u8>>) -> Seq<u8>
    decreases bufs.len(),
{
    if bufs.len() == 0 {
        Seq::empty()
    } else {
        bufs[0] + flatten_bufs(bufs.skip(1))
    }
}

/// A buffer whose front has been overwritten by `data` (which must be no
/// longer than the buffer); the rest keeps its old bytes.
pub open spec fn overlay_prefix(buf: Seq<u8>, data: Seq<u8>) -> Seq<u8> {
    data + buf.skip(data.len() as int)
}

/// The buffers after scattering `data` across them in order: each buffer's
/// front takes the next chunk of `data` until the data runs out; lengths
/// are unchanged.
pub open spec fn scatter(bufs: Seq<Seq<u8>>, data: Seq<u8>) -> Seq<Seq<u8>>
    decreases bufs.len(),
{
    if bufs.len() == 0 {
        bufs
    } else {
        let k = if bufs[0].len() <= data.len() {
            bufs[0].len() as int
        } else {
            data.len() as int
        };
        seq![overlay_prefix(bufs[0], data.subrange(0, k))] + scatter(bufs.skip(1), data.skip(k))
    }
}

/// The byte sequences of a sequence of byte buffers.
pub open spec fn deep_of(bs: Seq<Vec<u8>>) -> Seq<Seq<u8>> {
    Seq::new(bs.len(), |i: int| bs[i]@)
}

/// The buffer-advance operation on the model: drop the buffers that `n`
/// consumed bytes cover completely, and trim the front of the first
/// remaining buffer by the leftover count; the buffers after it are kept
/// as they are. Consuming everything (or more) leaves no buffers.
pub open spec fn advance_model(bufs: Seq<Seq<u8>>, n: int) -> Seq<Seq<u8>>
    decreases bufs.len(),
{
    if bufs.len() == 0 {
        bufs
    } else if bufs[0].len() <= n {
        advance_model(bufs.skip(1), n - bufs[0].len())
    } else {
        seq![bufs[0].skip(n)] + bufs.skip(1)
    }
}

/// Every sequence of `u8` buffers views deeply as the sequence of their
/// byte sequences; for one buffer the deep view is the plain view.
pub proof fn lemma_vec_u8_deep(v: Vec<u8>)
    ensures
        v.deep_view() == v@,
{
    assert(v.deep_view() =~= v@);
}

/// The deep view of a buffer vector is the sequence of its buffers' byte
/// sequences.
pub proof fn lemma_deep_of_vec(v: &Vec<Vec<u8>>)
    ensures
        deep_of(v@) == v.deep_view(),
{
    assert forall|i: int| 0 <= i < v@.len() implies #[trigger] v@[i]@ == v.deep_view()[i] by {
        lemma_vec_u8_deep(v@[i]);
    }
    assert(deep_of(v@) =~= v.deep_view());
}

/// The deep view of a buffer slice is the sequence of its buffers' byte
/// sequences.
pub proof fn lemma_deep_of_slice(s: &[Vec<u8>])
    ensures
        deep_of(s@) == s.deep_view(),
{
    assert forall|i: int| 0 <= i < s@.len() implies #[trigger] s@[i]@ == s.deep_view()[i] by {
        lemma_vec_u8_deep(s@[i]);
    }
    assert(deep_of(s@) =~= s.deep_view());
}

/// Writing `d1` at `offset` and then `d2` right after it is one write of
/// `d1 + d2` at `offset`.
pub proof fn lemma_write_content_append(
    content: Seq<u8>,
    offset: int,
    d1: Seq<u8>,
    d2: Seq<u8>,
    grows: bool,
)
    requires
        0 <= offset,
    ensures
        write_content(write_content(content, offset, d1, grows), offset + d1.len(), d2, grows)
            == write_content(content, offset, d1 + d2, grows),
{
    let lhs = write_content(write_content(content, offset, d1, grows), offset + d1.len(), d2, grows);
    let rhs = write_content(content, offset, d1 + d2, grows);
    if d1.len() == 0 {
        assert(d1 + d2 =~= d2);
        assert(lhs =~= rhs);
    } else if d2.len() == 0 {
        assert(d1 + d2 =~= d1);
        assert(lhs =~= rhs);
    } else {
        assert(lhs =~= rhs);
    }
}

/// Scattering data whose length is exactly the total buffer length fills
/// every buffer completely: flattening the result gives the data back.
pub proof fn lemma_flatten_scatter(bufs: Seq<Seq<u8>>, data: Seq<u8>)
    requires
        data.len() == flatten_bufs(bufs).len(),
    ensures
        flatten_bufs(scatter(bufs, data)) == data,
    decreases bufs.len(),
{
    if bufs.len() == 0 {
        assert(flatten_bufs(scatter(bufs, data)) =~= data);
    } else {
        let k = if bufs[0].len() <= data.len() {
            bufs[0].len() as int
        } else {
            data.len() as int
        };
        assert(flatten_bufs(bufs).len() == bufs[0].len() + flatten_bufs(bufs.skip(1)).len());
        assert(k == bufs[0].len());
        lemma_flatten_scatter(bufs.skip(1), data.skip(k));
        let s = scatter(bufs, data);
        assert(s.skip(1) =~= scatter(bufs.skip(1), data.skip(k)));
        assert(s[0] =~= data.subrange(0, k));
        assert(flatten_bufs(s) =~= data);
    }
}

/// The total length of a buffer sequence is the sum of the lengths, and in
/// particular flattening preserves the length bookkeeping used by the
/// vectored operations.
pub proof fn lemma_flatten_len_take(bufs: Seq<Seq<u8>>, i: int)
    requires
        0 <= i < bufs.len(),
    ensures
        flatten_bufs(bufs.take(i + 1)).len() == flatten_bufs(bufs.take(i)).len() + bufs[i].len(),
        flatten_bufs(bufs.take(i + 1)) == flatten_bufs(bufs.take(i)) + bufs[i],
    decreases i,
{
    if i == 0 {
        assert(bufs.take(1).skip(1) =~= Seq::<Seq<u8>>::empty());
        assert(bufs.take(0) =~= Seq::<Seq<u8>>::empty());
        assert(bufs.take(1)[0] =~= bufs[0]);
        assert(flatten_bufs(bufs.take(1)) == bufs.take(1)[0] + flatten_bufs(bufs.take(1).skip(1)));
        assert(flatten_bufs(bufs.take(1)) =~= bufs[0]);
        assert(flatten_bufs(bufs.take(0)) + bufs[0] =~= bufs[0]);
    } else {
        lemma_flatten_len_take(bufs.skip(1), i - 1);
        assert(bufs.take(i + 1).skip(1) =~= bufs.skip(1).take(i));
        assert(bufs.take(i).skip(1) =~= bufs.skip(1).take(i - 1));
        assert(bufs.take(i + 1)[0] =~= bufs[0]);
        assert(bufs.take(i)[0] =~= bufs[0]);
        assert(flatten_bufs(bufs.take(i + 1)) == bufs[0] + flatten_bufs(bufs.skip(1).take(i)));
        assert(flatten_bufs(bufs.take(i)) == bufs[0] + flatten_bufs(bufs.skip(1).take(i - 1)));
        assert(bufs.skip(1)[i - 1] =~= bufs[i]);
        assert(flatten_bufs(bufs.take(i + 1)) =~= flatten_bufs(bufs.take(i)) + bufs[i]);
    }
}

/// A prefix of a buffer sequence never flattens to more bytes than the
/// whole sequence.
pub proof fn lemma_flatten_take_len_mono(bufs: Seq<Seq<u8>>, i: int)
    requires
        0 <= i <= bufs.len(),
    ensures
        flatten_bufs(bufs.take(i)).len() <= flatten_bufs(bufs).len(),
    decreases bufs.len() - i,
{
    if i == bufs.len() {
        assert(bufs.take(i) =~= bufs);
    } else {
        lemma_flatten_len_take(bufs, i);
        lemma_flatten_take_len_mono(bufs, i + 1);
    }
}

/// Buffers that hold nothing contribute nothing: flattening may skip any
/// empty prefix.
pub proof fn lemma_flatten_skip_empties(bufs: Seq<Seq<u8>>, i: int)
    requires
        0 <= i <= bufs.len(),
        forall|j: int| 0 <= j < i ==> bufs[j].len() == 0,
    ensures
        flatten_bufs(bufs) == flatten_bufs(bufs.skip(i)),
    decreases i,
{
    if i > 0 {
        assert(bufs[0].len() == 0);
        assert(bufs[0] =~= Seq::<u8>::empty());
        assert(flatten_bufs(bufs) == bufs[0] + flatten_bufs(bufs.skip(1)));
        assert(flatten_bufs(bufs) =~= flatten_bufs(bufs.skip(1)));
        assert forall|j: int| 0 <= j < i - 1 implies #[trigger] bufs.skip(1)[j].len() == 0 by {
            assert(bufs.skip(1)[j] == bufs[j + 1]);
        }
        lemma_flatten_skip_empties(bufs.skip(1), i - 1);
        assert(bufs.skip(1).skip(i - 1) =~= bufs.skip(i));
        assert(flatten_bufs(bufs.skip(1)) == flatten_bufs(bufs.skip(i)));
    } else {
        assert(bufs.skip(0) =~= bufs);
    }
}

/// Flattening splits at any index: the whole is the prefix part followed
/// by the suffix part.
pub proof fn lemma_flatten_split(bufs: Seq<Seq<u8>>, i: int)
    requires
        0 <= i <= bufs.len(),
    ensures
        flatten_bufs(bufs) == flatten_bufs(bufs.take(i)) + flatten_bufs(bufs.skip(i)),
    decreases i,
{
    if i == 0 {
        assert(bufs.take(0) =~= Seq::<Seq<u8>>::empty());
        assert(bufs.skip(0) =~= bufs);
        assert(flatten_bufs(bufs) =~= flatten_bufs(bufs.take(0)) + flatten_bufs(bufs.skip(0)));
    } else {
        lemma_flatten_split(bufs, i - 1);
        lemma_flatten_len_take(bufs, i - 1);
        assert(flatten_bufs(bufs.skip(i - 1)) == bufs[i - 1] + flatten_bufs(bufs.skip(i))) by {
            assert(bufs.skip(i - 1)[0] == bufs[i - 1]);
            assert(bufs.skip(i - 1).skip(1) =~= bufs.skip(i));
        }
        assert(flatten_bufs(bufs) =~= flatten_bufs(bufs.take(i)) + flatten_bufs(bufs.skip(i)));
    }
}

} // verus!
