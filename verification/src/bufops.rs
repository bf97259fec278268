//! Verified operations on in-memory byte stores: the copy, zero-extend,
//! clipped and growing writes, and the scatter/gather loops that the
//! in-memory devices share.

use vstd::prelude::*;
use vstd::pervasive::VecAdditionalExecFns;

use crate::errors::ErrorKind;
use crate::arrays::exact_vectored_write_len;
use crate::model::{
    avail, flatten_bufs, lemma_flatten_take_len_mono, lemma_vec_u8_deep, overlay_prefix, scatter,
    window, write_clip, write_content, write_grow, zeros,
};
use vstd::math::min;

verus! {

/// Copies `n` bytes from `src` starting at `src_off` into `dst` starting at
/// `dst_off`; everything else in `dst` is untouched.
pub(crate) fn copy_into(dst: &mut Vec<u8>, dst_off: usize, src: &[u8], src_off: usize, n: usize)
    requires
        dst_off + n <= old(dst)@.len(),
        src_off + n <= src@.len(),
        dst_off + n <= usize::MAX,
        src_off + n <= usize::MAX,
    ensures
        final(dst)@.len() == old(dst)@.len(),
        forall|j: int|
            0 <= j < old(dst)@.len() && !(dst_off <= j < dst_off + n) ==> final(dst)@[j] == old(
                dst,
            )@[j],
        forall|j: int|
            dst_off <= j < dst_off + n ==> final(dst)@[j] == src@[src_off + (j - dst_off)],
{
    let mut i: usize = 0;
    while i < n
        invariant
            i <= n,
            dst_off + n <= old(dst)@.len(),
            src_off + n <= src@.len(),
            dst_off + n <= usize::MAX,
            src_off + n <= usize::MAX,
            dst@.len() == old(dst)@.len(),
            forall|j: int|
                0 <= j < old(dst)@.len() && !(dst_off <= j < dst_off + i) ==> dst@[j] == old(
                    dst,
                )@[j],
            forall|j: int| dst_off <= j < dst_off + i ==> dst@[j] == src@[src_off + (j - dst_off)],
        decreases n - i,
    {
        dst.set(dst_off + i, src[src_off + i]);
        i = i + 1;
    }
}

/// Extends `v` with zero bytes up to length `new_len`.
pub(crate) fn push_zeros(v: &mut Vec<u8>, new_len: usize)
    requires
        old(v)@.len() <= new_len,
    ensures
        final(v)@ == old(v)@ + zeros(new_len - old(v)@.len()),
        final(v)@.len() == new_len,
{
    while v.len() < new_len
        invariant
            old(v)@.len() <= v@.len() <= new_len,
            v@ == old(v)@ + zeros(v@.len() - old(v)@.len()),
        decreases new_len - v@.len(),
    {
        let ghost prev = v@;
        v.push(0u8);
        proof {
            assert(v@ =~= old(v)@ + zeros(v@.len() - old(v)@.len()));
        }
    }
}

/// Reads into the front of `buf` from `store` at `offset`: as many bytes as
/// the store has there, up to the length of `buf`.
pub(crate) fn mem_read_at(store: &Vec<u8>, buf: &mut Vec<u8>, offset: u64) -> (n: usize)
    ensures
        final(buf)@.len() == old(buf)@.len(),
        n <= old(buf)@.len(),
        n == if old(buf)@.len() <= avail(store@, offset as int) {
            old(buf)@.len() as int
        } else {
            avail(store@, offset as int)
        },
        final(buf)@ == window(store@, offset as int, n as int) + old(buf)@.skip(n as int),
{
    let len = store.len();
    if offset >= len as u64 {
        proof {
            assert(final(buf)@ =~= window(store@, offset as int, 0) + old(buf)@.skip(0));
        }
        return 0;
    }
    let off = offset as usize;
    let remaining = len - off;
    let n = if buf.len() <= remaining {
        buf.len()
    } else {
        remaining
    };
    copy_into(buf, 0, store.as_slice(), off, n);
    proof {
        assert(final(buf)@ =~= window(store@, offset as int, n as int) + old(buf)@.skip(n as int));
    }
    n
}

/// Fills `buf` exactly from `store` at `offset`, or reports exhaustion if
/// the store has too few bytes there; on failure `buf` is untouched.
pub(crate) fn mem_read_exact_at(store: &Vec<u8>, buf: &mut Vec<u8>, offset: u64) -> (r: Result<
    (),
    ErrorKind,
>)
    ensures
        final(buf)@.len() == old(buf)@.len(),
        r is Ok <==> old(buf)@.len() == 0 || offset + old(buf)@.len() <= store@.len(),
        r is Ok ==> final(buf)@ == window(store@, offset as int, old(buf)@.len() as int),
        r is Err ==> r == Err::<(), ErrorKind>(ErrorKind::UnexpectedEof) && final(buf)@ == old(
            buf,
        )@,
{
    if buf.len() == 0 {
        proof {
            assert(final(buf)@ =~= window(store@, offset as int, 0));
        }
        return Ok(());
    }
    let len = store.len();
    if offset > len as u64 {
        return Err(ErrorKind::UnexpectedEof);
    }
    let off = offset as usize;
    if buf.len() > len - off {
        return Err(ErrorKind::UnexpectedEof);
    }
    let n = buf.len();
    copy_into(buf, 0, store.as_slice(), off, n);
    proof {
        assert(final(buf)@ =~= window(store@, offset as int, old(buf)@.len() as int));
    }
    Ok(())
}

/// Writes `buf` into `store` at `offset`, clipped at the end of the store;
/// the store's length never changes and nothing can fail.
pub(crate) fn mem_write_clip(store: &mut Vec<u8>, buf: &[u8], offset: u64)
    ensures
        final(store)@ == write_clip(old(store)@, offset as int, buf@),
{
    let len = store.len();
    if offset >= len as u64 {
        proof {
            assert(final(store)@ =~= write_clip(old(store)@, offset as int, buf@));
        }
        return ;
    }
    let off = offset as usize;
    let remaining = len - off;
    let n = if buf.len() <= remaining {
        buf.len()
    } else {
        remaining
    };
    copy_into(store, off, buf, 0, n);
    proof {
        assert(final(store)@ =~= write_clip(old(store)@, offset as int, buf@));
    }
}

/// Writes `buf` into `store` at `offset`, zero-filling any gap between the
/// current end of the store and `offset`, and growing the store as needed.
/// Fails with an overflow error when the resulting length cannot be
/// addressed; then nothing changes.
pub(crate) fn mem_write_grow(store: &mut Vec<u8>, buf: &[u8], offset: u64) -> (r: Result<
    (),
    ErrorKind,
>)
    ensures
        match r {
            Ok(_) => final(store)@ == write_grow(old(store)@, offset as int, buf@),
            Err(e) => e == ErrorKind::Overflow && final(store)@ == old(store)@,
        },
        r is Ok <==> buf@.len() == 0 || offset + buf@.len() <= usize::MAX,
{
    if buf.len() == 0 {
        return Ok(());
    }
    if offset > usize::MAX as u64 || buf.len() as u64 > usize::MAX as u64 - offset {
        return Err(ErrorKind::Overflow);
    }
    let off = offset as usize;
    let end = off + buf.len();
    if store.len() < end {
        push_zeros(store, end);
    }
    let n = buf.len();
    copy_into(store, off, buf, 0, n);
    proof {
        assert(final(store)@ =~= write_grow(old(store)@, offset as int, buf@));
    }
    Ok(())
}

} // verus!

verus! {

/// Scatter-reads from `store` into the buffers from index `i` on, starting
/// at `offset`: each buffer in order takes the next run of bytes until the
/// buffers or the store are exhausted. Returns how many bytes were read.
pub(crate) fn mem_scatter_read(store: &Vec<u8>, bufs: &mut Vec<Vec<u8>>, i: usize, offset: u64) -> (n:
    usize)
    requires
        i <= old(bufs)@.len(),
    ensures
        final(bufs)@.len() == old(bufs)@.len(),
        forall|j: int| 0 <= j < i ==> final(bufs)@[j] == old(bufs)@[j],
        n == min(
            flatten_bufs(old(bufs).deep_view().skip(i as int)).len() as int,
            avail(store@, offset as int),
        ),
        final(bufs).deep_view().skip(i as int) == scatter(
            old(bufs).deep_view().skip(i as int),
            window(store@, offset as int, n as int),
        ),
    decreases old(bufs)@.len() - i,
{
    let ghost old_deep = old(bufs).deep_view();
    let store_len = store.len();
    if i == bufs.len() {
        proof {
            assert(old_deep.skip(i as int) =~= Seq::<Seq<u8>>::empty());
            assert(window(store@, offset as int, 0) =~= Seq::<u8>::empty());
            assert(bufs.deep_view().skip(i as int) =~= scatter(
                old_deep.skip(i as int),
                window(store@, offset as int, 0),
            ));
        }
        return 0;
    }
    let mut b = bufs.remove(i);
    let ghost b_old = b@;
    let k = mem_read_at(store, &mut b, offset);
    let ghost b_new = b@;
    bufs.insert(i, b);
    let ghost mid = bufs@;
    let ghost mid_deep = bufs.deep_view();
    proof {
        assert(mid =~= old(bufs)@.update(i as int, mid[i as int]));
        assert forall|j: int| 0 <= j < mid.len() implies #[trigger] mid_deep[j] == mid[j]@ by {
            lemma_vec_u8_deep(mid[j]);
        }
        assert forall|j: int| 0 <= j < old(bufs)@.len() implies #[trigger] old_deep[j] == old(
            bufs,
        )@[j]@ by {
            lemma_vec_u8_deep(old(bufs)@[j]);
        }
        assert(b_old == old_deep[i as int]);
        assert(mid_deep[i as int] == b_new);
        assert(mid_deep.skip(i as int + 1) =~= old_deep.skip(i as int + 1));
        assert(k <= avail(store@, offset as int));
        if k > 0 {
            assert(offset as int + k <= store@.len());
            assert(store@.len() <= usize::MAX);
        }
    }
    let rest = mem_scatter_read(store, bufs, i + 1, offset + (k as u64));
    proof {
        if k > 0 {
            assert(avail(store@, offset as int + k) == avail(store@, offset as int) - k);
        }
        assert(rest <= avail(store@, offset as int + k));
        assert(k + rest <= avail(store@, offset as int) || (k == 0 && rest <= avail(store@, offset as int)));
    }
    let n = k + rest;
    proof {
        let od = old_deep.skip(i as int);
        let nd = bufs.deep_view().skip(i as int);
        let data = window(store@, offset as int, n as int);
        assert forall|j: int| 0 <= j < bufs@.len() implies #[trigger] bufs.deep_view()[j]
            == bufs@[j]@ by {
            lemma_vec_u8_deep(bufs@[j]);
        }
        assert(od[0] == b_old);
        assert(od.skip(1) =~= old_deep.skip(i as int + 1));
        // the count the scatter model assigns to the first buffer is k
        assert(b_old.len() <= avail(store@, offset as int) ==> k == b_old.len());
        if k < b_old.len() {
            assert(k == avail(store@, offset as int));
            assert(rest == 0);
        }
        let ks = if od[0].len() <= data.len() {
            od[0].len() as int
        } else {
            data.len() as int
        };
        assert(ks == k);
        assert(data.subrange(0, k as int) =~= window(store@, offset as int, k as int));
        assert(data.skip(k as int) =~= window(store@, offset as int + k, rest as int));
        assert(b_new =~= overlay_prefix(b_old, data.subrange(0, k as int)));
        // the recursion handled the buffers after i
        assert(nd[0] == b_new);
        assert(nd.skip(1) =~= bufs.deep_view().skip(i as int + 1));
        assert(bufs.deep_view().skip(i as int + 1) == scatter(
            mid_deep.skip(i as int + 1),
            window(store@, offset as int + k, rest as int),
        ));
        assert(scatter(od, data) == seq![overlay_prefix(od[0], data.subrange(0, ks))] + scatter(
            od.skip(1),
            data.skip(ks),
        ));
        assert(nd =~= scatter(od, data));
        // the buffers before i were not touched
        assert forall|j: int| 0 <= j < i implies #[trigger] bufs@[j] == old(bufs)@[j] by {
            assert(bufs@[j] == mid[j]);
        }
    }
    n
}

} // verus!

verus! {

/// Scatter-reads exactly from `store` into the buffers from index `i` on:
/// every buffer must be filled completely, or the whole operation reports
/// exhaustion (buffers before the failing one keep what was read).
pub(crate) fn mem_scatter_read_exact(
    store: &Vec<u8>,
    bufs: &mut Vec<Vec<u8>>,
    i: usize,
    offset: u64,
) -> (r: Result<(), ErrorKind>)
    requires
        i <= old(bufs)@.len(),
    ensures
        final(bufs)@.len() == old(bufs)@.len(),
        forall|j: int| 0 <= j < i ==> final(bufs)@[j] == old(bufs)@[j],
        r is Ok <==> flatten_bufs(old(bufs).deep_view().skip(i as int)).len() == 0 || offset
            + flatten_bufs(old(bufs).deep_view().skip(i as int)).len() <= store@.len(),
        r is Ok ==> final(bufs).deep_view().skip(i as int) == scatter(
            old(bufs).deep_view().skip(i as int),
            window(
                store@,
                offset as int,
                flatten_bufs(old(bufs).deep_view().skip(i as int)).len() as int,
            ),
        ),
        r is Err ==> r == Err::<(), ErrorKind>(ErrorKind::UnexpectedEof),
    decreases old(bufs)@.len() - i,
{
    let ghost old_deep = old(bufs).deep_view();
    let store_len = store.len();
    proof {
        assert(store@.len() == store_len);
    }
    if i == bufs.len() {
        proof {
            assert(old_deep.skip(i as int) =~= Seq::<Seq<u8>>::empty());
            assert(window(store@, offset as int, 0) =~= Seq::<u8>::empty());
            assert(bufs.deep_view().skip(i as int) =~= scatter(
                old_deep.skip(i as int),
                window(store@, offset as int, 0),
            ));
        }
        return Ok(());
    }
    let mut b = bufs.remove(i);
    let ghost b_old = b@;
    let res = mem_read_exact_at(store, &mut b, offset);
    let ghost b_new = b@;
    let blen = b.len();
    bufs.insert(i, b);
    let ghost mid = bufs@;
    let ghost mid_deep = bufs.deep_view();
    proof {
        assert(mid =~= old(bufs)@.update(i as int, mid[i as int]));
        assert forall|j: int| 0 <= j < mid.len() implies #[trigger] mid_deep[j] == mid[j]@ by {
            lemma_vec_u8_deep(mid[j]);
        }
        assert forall|j: int| 0 <= j < old(bufs)@.len() implies #[trigger] old_deep[j] == old(
            bufs,
        )@[j]@ by {
            lemma_vec_u8_deep(old(bufs)@[j]);
        }
        assert(b_old == old_deep[i as int]);
        assert(mid_deep[i as int] == b_new);
        assert(mid_deep.skip(i as int + 1) =~= old_deep.skip(i as int + 1));
        assert(flatten_bufs(old_deep.skip(i as int)) == b_old + flatten_bufs(
            old_deep.skip(i as int + 1),
        )) by {
            assert(old_deep.skip(i as int)[0] == b_old);
            assert(old_deep.skip(i as int).skip(1) =~= old_deep.skip(i as int + 1));
        }
    }
    if res.is_err() {
        proof {
            assert(b_old.len() > 0 && offset + b_old.len() > store@.len());
            assert(flatten_bufs(old_deep.skip(i as int)).len() >= b_old.len());
            assert forall|j: int| 0 <= j < i implies #[trigger] bufs@[j] == old(bufs)@[j] by {
                assert(bufs@[j] == mid[j]);
            }
        }
        return Err(ErrorKind::UnexpectedEof);
    }
    proof {
        assert(b_old.len() == 0 || offset + b_old.len() <= store@.len());
        if b_old.len() > 0 {
            assert(offset as int + b_old.len() <= store@.len());
            assert(store@.len() <= usize::MAX);
        }
    }
    let rest = mem_scatter_read_exact(store, bufs, i + 1, offset + (blen as u64));
    proof {
        let od = old_deep.skip(i as int);
        let flat = flatten_bufs(od);
        let flat_rest = flatten_bufs(old_deep.skip(i as int + 1));
        assert(flat.len() == b_old.len() + flat_rest.len());
        // the success of the tail decides the success of the whole
        if rest is Ok {
            assert(flat_rest.len() == 0 || offset + blen + flat_rest.len() <= store@.len());
            assert(flat.len() == 0 || offset + flat.len() <= store@.len());
            let data = window(store@, offset as int, flat.len() as int);
            let nd = bufs.deep_view().skip(i as int);
            assert forall|j: int| 0 <= j < bufs@.len() implies #[trigger] bufs.deep_view()[j]
                == bufs@[j]@ by {
                lemma_vec_u8_deep(bufs@[j]);
            }
            let ks = if od[0].len() <= data.len() {
                od[0].len() as int
            } else {
                data.len() as int
            };
            assert(ks == b_old.len());
            assert(data.subrange(0, ks) =~= window(store@, offset as int, b_old.len() as int));
            assert(data.skip(ks) =~= window(
                store@,
                offset as int + b_old.len(),
                flat_rest.len() as int,
            ));
            assert(b_new =~= overlay_prefix(b_old, data.subrange(0, ks)));
            assert(nd[0] == b_new);
            assert(nd.skip(1) =~= bufs.deep_view().skip(i as int + 1));
            assert(bufs.deep_view().skip(i as int + 1) == scatter(
                mid_deep.skip(i as int + 1),
                window(store@, offset as int + blen, flat_rest.len() as int),
            ));
            assert(scatter(od, data) == seq![overlay_prefix(od[0], data.subrange(0, ks))]
                + scatter(od.skip(1), data.skip(ks)));
            assert(od.skip(1) == old_deep.skip(i as int + 1));
            assert(data.skip(ks) == window(
                store@,
                offset as int + b_old.len(),
                flat_rest.len() as int,
            ));
            assert(offset as int + b_old.len() == (offset + (blen as u64)) as int);
            assert(scatter(od.skip(1), data.skip(ks)) == bufs.deep_view().skip(i as int + 1));
            assert(nd.skip(1) == scatter(od.skip(1), data.skip(ks)));
            assert(nd[0] == scatter(od, data)[0]);
            assert(nd =~~= scatter(od, data));
        } else {
            assert(flat_rest.len() > 0 && offset + blen + flat_rest.len() > store@.len());
            assert(flat.len() > 0 && offset + flat.len() > store@.len());
        }
        assert forall|j: int| 0 <= j < i implies #[trigger] bufs@[j] == old(bufs)@[j] by {
            assert(bufs@[j] == mid[j]);
        }
    }
    rest
}

} // verus!

verus! {

/// Gather-writes the buffers from index `i` on into `store` starting at
/// `offset`, under the store's growth rule. Returns how many bytes of the
/// logical flattened source were consumed.
pub(crate) fn mem_gather_write(
    store: &mut Vec<u8>,
    bufs: &[Vec<u8>],
    i: usize,
    offset: u64,
    grows: bool,
) -> (n: usize)
    requires
        i <= bufs@.len(),
        grows ==> flatten_bufs(bufs.deep_view().skip(i as int)).len() == 0 || offset + flatten_bufs(
            bufs.deep_view().skip(i as int),
        ).len() <= usize::MAX,
    ensures
        final(store)@ == write_content(
            old(store)@,
            offset as int,
            flatten_bufs(bufs.deep_view().skip(i as int)).subrange(0, n as int),
            grows,
        ),
        n == exact_vectored_write_len(
            old(store)@,
            offset as int,
            flatten_bufs(bufs.deep_view().skip(i as int)).len() as int,
            grows,
        ),
        !grows ==> final(store)@.len() == old(store)@.len(),
    decreases bufs@.len() - i,
{
    let ghost deep = bufs.deep_view();
    let ghost flat = flatten_bufs(deep.skip(i as int));
    proof {
        assert forall|j: int| 0 <= j < bufs@.len() implies #[trigger] deep[j] == bufs@[j]@ by {
            lemma_vec_u8_deep(bufs@[j]);
        }
    }
    if i == bufs.len() {
        proof {
            assert(deep.skip(i as int) =~= Seq::<Seq<u8>>::empty());
            assert(flat.subrange(0, 0) =~= Seq::<u8>::empty());
            assert(final(store)@ =~= write_content(old(store)@, offset as int, flat.subrange(0, 0), grows));
        }
        return 0;
    }
    let b = &bufs[i];
    let ghost bv = b@;
    let ghost flat_rest = flatten_bufs(deep.skip(i as int + 1));
    proof {
        assert(deep.skip(i as int)[0] == bv);
        assert(deep.skip(i as int).skip(1) =~= deep.skip(i as int + 1));
        assert(flat == bv + flat_rest);
    }
    let store_len = store.len();
    let k: usize;
    if grows {
        match mem_write_grow(store, b.as_slice(), offset) {
            Ok(_) => {},
            Err(_) => {
                proof {
                    assert(false);
                }
                return 0;
            },
        }
        k = b.len();
    } else {
        mem_write_clip(store, b.as_slice(), offset);
        if offset >= store_len as u64 {
            k = 0;
        } else {
            let remaining = store_len - offset as usize;
            k = if b.len() <= remaining {
                b.len()
            } else {
                remaining
            };
        }
    }
    let ghost mid_content = store@;
    proof {
        if grows {
            assert(mid_content == write_grow(old(store)@, offset as int, bv));
            assert(k == bv.len());
        } else {
            assert(mid_content == write_clip(old(store)@, offset as int, bv));
            assert(mid_content.len() == old(store)@.len());
            assert(k == min(bv.len() as int, avail(old(store)@, offset as int)));
        }
        // advancing the offset by k cannot overflow
        if k > 0 {
            if grows {
                assert(offset + k <= usize::MAX);
            } else {
                assert(offset as int + k <= old(store)@.len());
                assert(old(store)@.len() == store_len);
            }
        }
        // the tail still fits for a growable store
        if grows && flatten_bufs(deep.skip(i as int + 1)).len() > 0 {
            assert(flat.len() > 0);
            assert((offset + k) + flatten_bufs(deep.skip(i as int + 1)).len() <= usize::MAX);
        }
    }
    let rest = mem_gather_write(store, bufs, i + 1, offset + (k as u64), grows);
    proof {
        // compose the two writes into one
        let d0 = flat.subrange(0, k as int);
        let d1 = flat_rest.subrange(0, rest as int);
        if grows {
            assert(d0 =~= bv);
        } else {
            // a clipped write of the whole buffer equals a clipped write of
            // the part that landed
            assert(write_clip(old(store)@, offset as int, bv) =~= write_clip(
                old(store)@,
                offset as int,
                d0,
            )) by {
                assert(d0 =~= bv.subrange(0, k as int));
            }
        }
        assert(mid_content == write_content(old(store)@, offset as int, d0, grows));
        assert(final(store)@ == write_content(
            mid_content,
            (offset + (k as u64)) as int,
            flatten_bufs(deep.skip(i as int + 1)).subrange(0, rest as int),
            grows,
        ));
        assert((offset + (k as u64)) as int == offset as int + d0.len());
        crate::model::lemma_write_content_append(old(store)@, offset as int, d0, d1, grows);
        assert(final(store)@ == write_content(old(store)@, offset as int, d0 + d1, grows));
        assert(d0 + d1 =~= flat.subrange(0, (k + rest) as int)) by {
            assert forall|j: int| 0 <= j < k + rest implies (d0 + d1)[j] == flat[j] by {
                if j < k {
                    assert((d0 + d1)[j] == bv[j]);
                    assert(flat[j] == bv[j]);
                } else {
                    assert((d0 + d1)[j] == flat_rest[j - k]);
                    if !grows {
                        // here k fell short of the buffer, so nothing more fits
                        assert(k == bv.len());
                    }
                    assert(flat[j] == flat_rest[j - bv.len()]);
                }
            }
        }
        // the count is the exact vectored write length
        if grows {
            assert(rest == flat_rest.len());
            assert(k + rest == flat.len());
        } else {
            assert(rest == exact_vectored_write_len(
                mid_content,
                (offset + (k as u64)) as int,
                flat_rest.len() as int,
                grows,
            ));
            if k < bv.len() {
                assert(k == avail(old(store)@, offset as int));
                assert(avail(mid_content, offset as int + k) == 0);
                assert(rest == 0);
            } else {
                assert(avail(mid_content, offset as int + k) == avail(old(store)@, offset as int)
                    - k || (avail(old(store)@, offset as int) <= k && avail(
                    mid_content,
                    offset as int + k,
                ) == 0));
            }
            assert(k + rest == exact_vectored_write_len(
                old(store)@,
                offset as int,
                flat.len() as int,
                grows,
            ));
        }
    }
    k + rest
}

/// Computes the total length of a buffer sequence, rejecting any total
/// that would carry a write at `offset` beyond the addressable range.
pub(crate) fn vectored_total(bufs: &[Vec<u8>], offset: u64) -> (r: Option<usize>)
    ensures
        match r {
            Some(t) => t == flatten_bufs(bufs.deep_view()).len() && (t == 0 || offset + t
                <= usize::MAX),
            None => flatten_bufs(bufs.deep_view()).len() > 0 && offset + flatten_bufs(
                bufs.deep_view(),
            ).len() > usize::MAX,
        },
{
    let ghost deep = bufs.deep_view();
    proof {
        assert forall|j: int| 0 <= j < bufs@.len() implies #[trigger] deep[j] == bufs@[j]@ by {
            lemma_vec_u8_deep(bufs@[j]);
        }
        assert(deep.take(0) =~= Seq::<Seq<u8>>::empty());
    }
    let mut total: usize = 0;
    let mut i: usize = 0;
    let count = bufs.len();
    while i < count
        invariant
            i <= count,
            count == bufs@.len(),
            deep == bufs.deep_view(),
            forall|j: int| 0 <= j < bufs@.len() ==> #[trigger] deep[j] == bufs@[j]@,
            total == flatten_bufs(deep.take(i as int)).len(),
            total == 0 || offset + total <= usize::MAX,
        decreases count - i,
    {
        let b_len = bufs[i].len();
        proof {
            crate::model::lemma_flatten_len_take(deep, i as int);
        }
        if b_len > 0 {
            if offset > usize::MAX as u64 {
                proof {
                    lemma_flatten_take_len_mono(deep, i as int + 1);
                }
                return None;
            }
            let cap = (usize::MAX as u64 - offset) as usize;
            if b_len > cap || total > cap - b_len {
                proof {
                    lemma_flatten_take_len_mono(deep, i as int + 1);
                }
                return None;
            }
            total = total + b_len;
        }
        i = i + 1;
    }
    proof {
        assert(deep.take(count as int) =~= deep);
    }
    Some(total)
}

} // verus!

verus! {

/// Computes where the cursor would land after transferring the whole
/// buffer sequence starting at `pos`, rejecting a span that would leave
/// the addressable range.
pub(crate) fn checked_span(pos: u64, bufs: &[Vec<u8>]) -> (r: Option<u64>)
    ensures
        match r {
            Some(t) => t == pos + flatten_bufs(crate::model::deep_of(bufs@)).len(),
            None => pos + flatten_bufs(crate::model::deep_of(bufs@)).len() > u64::MAX,
        },
{
    let ghost deep = crate::model::deep_of(bufs@);
    proof {
        crate::model::lemma_deep_of_slice(bufs);
        assert(deep.take(0) =~= Seq::<Seq<u8>>::empty());
    }
    let mut total: u64 = pos;
    let mut i: usize = 0;
    let count = bufs.len();
    while i < count
        invariant
            i <= count,
            count == bufs@.len(),
            deep == crate::model::deep_of(bufs@),
            deep == bufs.deep_view(),
            forall|j: int| 0 <= j < bufs@.len() ==> #[trigger] deep[j] == bufs@[j]@,
            total == pos + flatten_bufs(deep.take(i as int)).len(),
        decreases count - i,
    {
        let b_len = bufs[i].len();
        proof {
            crate::model::lemma_flatten_len_take(deep, i as int);
        }
        if b_len as u64 > u64::MAX - total {
            proof {
                lemma_flatten_take_len_mono(deep, i as int + 1);
            }
            return None;
        }
        total = total + b_len as u64;
        i = i + 1;
    }
    proof {
        assert(deep.take(count as int) =~= deep);
    }
    Some(total)
}

} // verus!
