//! The serial emulation layer for backends whose native primitive handles
//! one buffer per call and may transfer fewer bytes than asked: the
//! buffer-advance operation that drives the vectored loops, a verified
//! serial gather-write built on it, and the pure decision steps of the
//! "exact" retry loops.

use vstd::prelude::*;

use crate::arrays::{read_exact_at_post, same_kind, write_all_ok, write_fits, Array, ReadAt, WriteAt};
use crate::errors::ErrorKind;
use crate::model::{
    advance_model, avail, flatten_bufs, lemma_flatten_len_take, lemma_flatten_skip_empties,
    lemma_flatten_split, lemma_flatten_take_len_mono, lemma_vec_u8_deep,
    lemma_write_content_append, overlay_prefix, scatter, window, write_content,
};
use vstd::math::min;

verus! {

/// The buffer-advance operation: given an ordered sequence of buffers and
/// a count of bytes already consumed, drops the buffers that were fully
/// consumed and trims the front of the first remaining buffer by the
/// leftover count, keeping the buffers after it as they are — exactly
/// [`advance_model`]. Flattened, the result is the unconsumed tail.
pub fn advance(bufs: Vec<Vec<u8>>, n: usize) -> (r: Vec<Vec<u8>>)
    ensures
        r.deep_view() == advance_model(bufs.deep_view(), n as int),
        flatten_bufs(r.deep_view()) == flatten_bufs(bufs.deep_view()).skip(
            min(n as int, flatten_bufs(bufs.deep_view()).len() as int),
        ),
        r@.len() <= bufs@.len(),
        bufs@.len() > 0 && bufs.deep_view()[0].len() <= n ==> r@.len() < bufs@.len(),
{
    let ghost deep = bufs.deep_view();
    proof {
        assert forall|j: int| 0 <= j < bufs@.len() implies #[trigger] deep[j] == bufs@[j]@ by {
            lemma_vec_u8_deep(bufs@[j]);
        }
        assert(deep.take(0) =~= Seq::<Seq<u8>>::empty());
    }
    let count = bufs.len();
    // how many leading buffers are wholly consumed, and their total length
    let mut remove: usize = 0;
    let mut accumulated_len: usize = 0;
    proof {
        assert(deep.skip(0) =~= deep);
    }
    while remove < count && bufs[remove].len() <= n - accumulated_len
        invariant
            remove <= count,
            count == bufs@.len(),
            deep == bufs.deep_view(),
            forall|j: int| 0 <= j < bufs@.len() ==> #[trigger] deep[j] == bufs@[j]@,
            accumulated_len == flatten_bufs(deep.take(remove as int)).len(),
            accumulated_len <= n,
            advance_model(deep, n as int) == advance_model(
                deep.skip(remove as int),
                n - accumulated_len,
            ),
        decreases count - remove,
    {
        proof {
            lemma_flatten_len_take(deep, remove as int);
            assert(deep.skip(remove as int)[0] == deep[remove as int]);
            assert(deep.skip(remove as int).skip(1) =~= deep.skip(remove as int + 1));
        }
        accumulated_len = accumulated_len + bufs[remove].len();
        remove = remove + 1;
    }
    proof {
        lemma_flatten_split(deep, remove as int);
        lemma_flatten_take_len_mono(deep, remove as int);
    }
    // drop the wholly consumed buffers
    let mut rest = bufs;
    let mut dropped: usize = 0;
    while dropped < remove
        invariant
            dropped <= remove,
            remove <= count,
            count == deep.len(),
            rest@.len() == count - dropped,
            rest.deep_view() == deep.skip(dropped as int),
        decreases remove - dropped,
    {
        let ghost pre = rest.deep_view();
        let _ = rest.remove(0);
        proof {
            assert forall|j: int| 0 <= j < rest@.len() implies #[trigger] rest.deep_view()[j]
                == pre[j + 1] by {
                lemma_vec_u8_deep(rest@[j]);
            }
            assert(rest.deep_view() =~= pre.skip(1));
            assert(deep.skip(dropped as int).skip(1) =~= deep.skip(dropped as int + 1));
        }
        dropped = dropped + 1;
    }
    if rest.len() > 0 {
        // the leftover count falls inside the first remaining buffer:
        // shrink its view from the front
        let advance_by = n - accumulated_len;
        let ghost pre = rest.deep_view();
        let mut first = rest.remove(0);
        let ghost first_pre = first@;
        let tail = first.split_off(advance_by);
        rest.insert(0, tail);
        proof {
            assert(first_pre == deep[remove as int]);
            assert(first_pre.len() > n - accumulated_len);
            let nd = rest.deep_view();
            assert forall|j: int| 0 <= j < rest@.len() implies #[trigger] nd[j] == rest@[j]@ by {
                lemma_vec_u8_deep(rest@[j]);
            }
            assert(nd[0] == first_pre.skip(advance_by as int));
            assert(nd.skip(1) =~= pre.skip(1));
            let flat = flatten_bufs(deep);
            let flat_rest = flatten_bufs(pre);
            assert(flat_rest == pre[0] + flatten_bufs(pre.skip(1)));
            assert(pre[0] == first_pre);
            assert(flatten_bufs(nd) == nd[0] + flatten_bufs(nd.skip(1)));
            assert(flat_rest == flat.skip(accumulated_len as int));
            assert(n <= flat.len()) by {
                assert(flat.len() == accumulated_len + flat_rest.len());
                assert(flat_rest.len() >= first_pre.len());
            }
            assert(flatten_bufs(nd) =~= flat.skip(min(n as int, flat.len() as int)));
            // the result is the model's answer: the trimmed first buffer
            // followed by the untouched tail
            assert(pre[0].len() > n - accumulated_len);
            assert(advance_model(pre, n - accumulated_len as int) == seq![
                pre[0].skip(n - accumulated_len as int),
            ] + pre.skip(1));
            assert(nd =~~= advance_model(deep, n as int));
        }
        rest
    } else {
        proof {
            assert(remove == count);
            assert(deep.skip(count as int) =~= Seq::<Seq<u8>>::empty());
            let flat = flatten_bufs(deep);
            assert(flat.len() == accumulated_len);
            assert(flatten_bufs(rest.deep_view()) =~= flat.skip(
                min(n as int, flat.len() as int),
            ));
            assert(rest.deep_view() =~~= advance_model(deep, n as int));
        }
        rest
    }
}

} // verus!

verus! {

/// The index of the first non-empty buffer, or the length if every buffer
/// is empty: the serial emulation services one such buffer per call.
fn first_nonempty(bufs: &Vec<Vec<u8>>) -> (i: usize)
    ensures
        i <= bufs@.len(),
        forall|j: int| 0 <= j < i ==> bufs@[j]@.len() == 0,
        i < bufs@.len() ==> bufs@[i as int]@.len() > 0,
{
    let mut i: usize = 0;
    while i < bufs.len() && bufs[i].len() == 0
        invariant
            i <= bufs@.len(),
            forall|j: int| 0 <= j < i ==> bufs@[j]@.len() == 0,
        decreases bufs@.len() - i,
    {
        i = i + 1;
    }
    i
}

/// Writes every buffer completely through the single-buffer primitive
/// `write_at` alone: one non-empty buffer per call, looping with the
/// buffer-advance operation. This is the serial emulation of
/// `write_all_vectored_at` for a backend without native gather writes.
///
/// A primitive that reports no progress on a non-empty buffer would loop
/// forever; this implementation reports it as an error instead (a device
/// that transfers exact counts never takes that path while the span lies
/// within what it can hold).
pub fn write_all_vectored_serial<A: WriteAt>(a: &mut A, bufs: Vec<Vec<u8>>, offset: u64) -> (r:
    Result<(), ErrorKind>)
    ensures
        same_kind(old(a), final(a)),
        match r {
            Ok(_) => final(a).content() == write_content(
                old(a).content(),
                offset as int,
                flatten_bufs(bufs.deep_view()),
                old(a).grows(),
            ),
            Err(_) => exists|k: int|
                0 <= k <= flatten_bufs(bufs.deep_view()).len() && final(a).content()
                    == write_content(
                    old(a).content(),
                    offset as int,
                    flatten_bufs(bufs.deep_view()).subrange(0, k),
                    old(a).grows(),
                ),
        },
        old(a).infallible() && old(a).exact() && write_all_ok(
            old(a).content(),
            offset,
            flatten_bufs(bufs.deep_view()).len() as int,
            old(a).grows(),
        ) && offset + flatten_bufs(bufs.deep_view()).len() <= u64::MAX ==> r is Ok,
{
    let ghost flat_all = flatten_bufs(bufs.deep_view());
    let ghost c0 = old(a).content();
    let mut rem = bufs;
    let mut cur = offset;
    let ghost mut consumed: int = 0;
    proof {
        assert(flat_all.subrange(0, 0) =~= Seq::<u8>::empty());
        assert(a.content() =~= write_content(c0, offset as int, flat_all.subrange(0, 0), a.grows()));
        assert(rem.deep_view().skip(0) =~= rem.deep_view());
    }
    #[verifier::loop_isolation(false)]
    while rem.len() > 0
        invariant
            0 <= consumed <= flat_all.len(),
            cur == offset + consumed,
            flatten_bufs(rem.deep_view()) == flat_all.skip(consumed),
            a.content() == write_content(
                c0,
                offset as int,
                flat_all.subrange(0, consumed),
                old(a).grows(),
            ),
            a.grows() == old(a).grows(),
            a.resizable() == old(a).resizable(),
            a.infallible() == old(a).infallible(),
            a.exact() == old(a).exact(),
            a.vectored() == old(a).vectored(),
            c0 == old(a).content(),
        decreases flat_all.len() - consumed, rem@.len(),
    {
        let ghost pre_deep = rem.deep_view();
        let idx = first_nonempty(&rem);
        proof {
            assert forall|j: int| 0 <= j < rem@.len() implies #[trigger] pre_deep[j]
                == rem@[j]@ by {
                lemma_vec_u8_deep(rem@[j]);
            }
            assert forall|j: int| 0 <= j < idx implies #[trigger] pre_deep[j].len() == 0 by {
                assert(pre_deep[j] == rem@[j]@);
            }
            lemma_flatten_skip_empties(pre_deep, idx as int);
        }
        if idx == rem.len() {
            proof {
                assert(pre_deep.skip(idx as int) =~= Seq::<Seq<u8>>::empty());
                assert(flat_all.skip(consumed).len() == 0);
                assert(consumed == flat_all.len());
            }
            rem = Vec::new();
            proof {
                assert(rem.deep_view() =~= Seq::<Seq<u8>>::empty());
                assert(flatten_bufs(rem.deep_view()) =~= flat_all.skip(consumed));
            }
        } else {
            let ghost b = pre_deep[idx as int];
            let ghost flat_rem = flatten_bufs(pre_deep);
            proof {
                assert(flat_rem == flatten_bufs(pre_deep.skip(idx as int)));
                assert(pre_deep.skip(idx as int)[0] == b);
                assert(pre_deep.skip(idx as int).skip(1) =~= pre_deep.skip(idx as int + 1));
                assert(flat_rem == b + flatten_bufs(pre_deep.skip(idx as int + 1)));
            }
            let ghost pre_call = a.content();
            let res = a.write_at(rem[idx].as_slice(), cur);
            match res {
                Ok(n) => {
                    proof {
                        assert(n <= b.len());
                        assert(b.subrange(0, n as int) =~= flat_rem.subrange(0, n as int));
                        assert(flat_rem.len() == flat_all.len() - consumed);
                        let d0 = flat_all.subrange(0, consumed);
                        let d1 = flat_rem.subrange(0, n as int);
                        lemma_write_content_append(c0, offset as int, d0, d1, old(a).grows());
                        assert(d0 + d1 =~= flat_all.subrange(0, consumed + n));
                        assert(a.content() == write_content(
                            c0,
                            offset as int,
                            flat_all.subrange(0, consumed + n),
                            old(a).grows(),
                        ));
                    }
                    if n == 0 && idx == 0 {
                        // no progress is possible on this primitive: an
                        // exact device reports zero on a non-empty buffer
                        // only at its end, which the success hypothesis
                        // rules out
                        proof {
                            if old(a).infallible() && old(a).exact() && write_all_ok(
                                c0,
                                offset,
                                flat_all.len() as int,
                                old(a).grows(),
                            ) {
                                assert(b.len() > 0);
                                if old(a).grows() {
                                    assert(false);
                                } else {
                                    // the pre-call contents have the
                                    // original length, and the whole span
                                    // lies inside it
                                    assert(pre_call.len() == c0.len());
                                    assert(cur + b.len() <= c0.len());
                                    assert(avail(pre_call, cur as int) >= b.len());
                                    assert(false);
                                }
                            }
                            let k = consumed;
                            assert(0 <= k <= flat_all.len() && a.content() == write_content(
                                c0,
                                offset as int,
                                flat_all.subrange(0, k),
                                old(a).grows(),
                            ));
                            assert(exists|k2: int|
                                0 <= k2 <= flat_all.len() && a.content() == write_content(
                                    c0,
                                    offset as int,
                                    flat_all.subrange(0, k2),
                                    old(a).grows(),
                                ));
                        }
                        return Err(ErrorKind::Other);
                    }
                    if n as u64 > u64::MAX - cur {
                        proof {
                            assert(consumed + b.len() <= flat_all.len());
                            if offset + flat_all.len() <= u64::MAX {
                                assert(cur + n <= offset + flat_all.len());
                                assert(false);
                            }
                            let k = consumed + n;
                            assert(0 <= k <= flat_all.len() && a.content() == write_content(
                                c0,
                                offset as int,
                                flat_all.subrange(0, k),
                                old(a).grows(),
                            ));
                            assert(exists|k2: int|
                                0 <= k2 <= flat_all.len() && a.content() == write_content(
                                    c0,
                                    offset as int,
                                    flat_all.subrange(0, k2),
                                    old(a).grows(),
                                ));
                        }
                        return Err(ErrorKind::Overflow);
                    }
                    cur = cur + n as u64;
                    rem = advance(rem, n);
                    proof {
                        assert(min(n as int, flat_rem.len() as int) == n);
                        assert(flatten_bufs(rem.deep_view()) =~= flat_all.skip(consumed + n));
                        consumed = consumed + n;
                    }
                },
                Err(e) => {
                    proof {
                        assert(consumed + b.len() <= flat_all.len());
                        if old(a).infallible() && write_fits(
                            old(a).grows(),
                            offset,
                            flat_all.len() as int,
                        ) {
                            assert(write_fits(old(a).grows(), cur, b.len() as int));
                            assert(false);
                        }
                        let k = consumed;
                        assert(0 <= k <= flat_all.len() && a.content() == write_content(
                            c0,
                            offset as int,
                            flat_all.subrange(0, k),
                            old(a).grows(),
                        ));
                        assert(exists|k2: int|
                            0 <= k2 <= flat_all.len() && a.content() == write_content(
                                c0,
                                offset as int,
                                flat_all.subrange(0, k2),
                                old(a).grows(),
                            ));
                    }
                    return Err(e);
                },
            }
        }
    }
    proof {
        assert(flat_all.skip(consumed).len() == 0);
        assert(consumed == flat_all.len());
        assert(flat_all.subrange(0, consumed) =~= flat_all);
    }
    Ok(())
}

} // verus!

verus! {

/// One decision of an "exact" retry loop driven over a single-buffer
/// positional primitive.
#[derive(Clone, Copy, Debug, PartialEq, Eq, Structural)]
pub enum LoopStep {
    /// Go on at the new offset, with `consumed` more bytes transferred.
    Advance {
        /// The offset for the next primitive call.
        offset: u64,
        /// How many bytes the last call transferred.
        consumed: usize,
    },
    /// The whole target has been transferred.
    Done,
    /// Retry the same call unchanged.
    Retry,
    /// Give up with this error.
    Fail(ErrorKind),
}

/// The cursor step shared by every sequential adapter synthesized over a
/// positional primitive: where the cursor would land after transferring
/// `len` bytes, or nothing when that would leave the addressable range —
/// checked before the positional call is issued.
pub fn checked_cursor_end(pos: u64, len: usize) -> (r: Option<u64>)
    ensures
        match r {
            Some(e) => e == pos + len,
            None => pos + len > u64::MAX,
        },
{
    if len as u64 > u64::MAX - pos {
        None
    } else {
        Some(pos + len as u64)
    }
}

/// The decision table of the exact-read retry loop: a zero-length result
/// with bytes still unfilled is exhaustion; progress advances the offset
/// and shrinks the unfilled window, with offset overflow detected before
/// it happens; an interrupted call is retried without advancing; any other
/// failure aborts. The caller reads at `offset` into a window of
/// `remaining` bytes and hands the outcome here.
pub fn read_exact_step(offset: u64, remaining: usize, outcome: &Result<usize, ErrorKind>) -> (s:
    LoopStep)
    requires
        outcome matches Ok(n) ==> n <= remaining,
    ensures
        match *outcome {
            Ok(n) => s == if n == 0 && remaining > 0 {
                LoopStep::Fail(ErrorKind::UnexpectedEof)
            } else if offset + n > u64::MAX {
                LoopStep::Fail(ErrorKind::Overflow)
            } else if n == remaining {
                LoopStep::Done
            } else {
                LoopStep::Advance { offset: (offset + n) as u64, consumed: n }
            },
            Err(e) => s == if e == ErrorKind::Interrupted {
                LoopStep::Retry
            } else {
                LoopStep::Fail(e)
            },
        },
{
    match *outcome {
        Ok(n) => {
            if n == 0 && remaining > 0 {
                LoopStep::Fail(ErrorKind::UnexpectedEof)
            } else if n as u64 > u64::MAX - offset {
                LoopStep::Fail(ErrorKind::Overflow)
            } else if n == remaining {
                LoopStep::Done
            } else {
                LoopStep::Advance { offset: offset + n as u64, consumed: n }
            }
        },
        Err(e) => {
            if e == ErrorKind::Interrupted {
                LoopStep::Retry
            } else {
                LoopStep::Fail(e)
            }
        },
    }
}

/// The decision table of the write-all retry loop: progress advances the
/// offset and shrinks the unwritten window, with offset overflow detected
/// before it happens; an interrupted call is retried without advancing;
/// any other failure aborts. Unlike the read side, a zero-length result is
/// not an error: the caller repeats the call, as the platform loop does.
pub fn write_all_step(offset: u64, remaining: usize, outcome: &Result<usize, ErrorKind>) -> (s:
    LoopStep)
    requires
        outcome matches Ok(n) ==> n <= remaining,
    ensures
        match *outcome {
            Ok(n) => s == if offset + n > u64::MAX {
                LoopStep::Fail(ErrorKind::Overflow)
            } else if n == remaining {
                LoopStep::Done
            } else {
                LoopStep::Advance { offset: (offset + n) as u64, consumed: n }
            },
            Err(e) => s == if e == ErrorKind::Interrupted {
                LoopStep::Retry
            } else {
                LoopStep::Fail(e)
            },
        },
{
    match *outcome {
        Ok(n) => {
            if n as u64 > u64::MAX - offset {
                LoopStep::Fail(ErrorKind::Overflow)
            } else if n == remaining {
                LoopStep::Done
            } else {
                LoopStep::Advance { offset: offset + n as u64, consumed: n }
            }
        },
        Err(e) => {
            if e == ErrorKind::Interrupted {
                LoopStep::Retry
            } else {
                LoopStep::Fail(e)
            }
        },
    }
}

} // verus!

verus! {

/// Fills `buf` exactly through the single-buffer primitive `read_at`
/// alone, looping over the unfilled suffix: the serial emulation of
/// `read_exact_at` for a backend whose primitive may transfer fewer bytes
/// than asked. A zero-length result with bytes still unfilled reports
/// exhaustion; any failure of the primitive is propagated.
pub fn read_exact_at_serial<A: ReadAt>(a: &A, buf: &mut Vec<u8>, offset: u64) -> (r: Result<
    (),
    ErrorKind,
>)
    ensures
        read_exact_at_post(a.content(), old(buf)@, final(buf)@, offset, r, a.infallible()),
{
    let ghost content = a.content();
    let ghost total = old(buf)@.len();
    let buf_len = buf.len();
    let mut filled: usize = 0;
    #[verifier::loop_isolation(false)]
    while filled < buf_len
        invariant
            filled <= total,
            buf_len == total,
            buf@.len() == total,
            buf@.subrange(0, filled as int) == window(content, offset as int, filled as int),
            buf@.skip(filled as int) == old(buf)@.skip(filled as int),
            filled > 0 ==> offset + filled <= content.len(),
        decreases total - filled,
    {
        let ghost pre = buf@;
        proof {
            a.lemma_content_bounded();
        }
        let mut rest = buf.split_off(filled);
        let ghost rest0 = rest@;
        let res = a.read_at(&mut rest, offset + filled as u64);
        buf.append(&mut rest);
        match res {
            Ok(n) => {
                if n == 0 {
                    proof {
                        assert(avail(content, offset as int + filled) == 0 || rest0.len() == 0);
                        assert(rest0.len() == total - filled);
                        assert(buf@ =~= pre);
                        assert(offset + total > content.len());
                        if a.infallible() {
                            assert(total > 0);
                        }
                    }
                    return Err(ErrorKind::UnexpectedEof);
                }
                proof {
                    assert(offset as int + filled + n <= content.len());
                    assert(buf@.subrange(0, filled + n) =~= window(
                        content,
                        offset as int,
                        filled + n,
                    ));
                    assert(buf@.skip(filled + n) =~= old(buf)@.skip(filled + n));
                }
                filled = filled + n;
            },
            Err(e) => {
                proof {
                    assert(buf@ =~= pre);
                }
                return Err(e);
            },
        }
    }
    proof {
        assert(final(buf)@ =~= window(content, offset as int, total as int));
    }
    Ok(())
}

/// Fills every buffer exactly through the single-buffer primitive
/// `read_at` alone: the serial emulation of `read_exact_vectored_at` for a
/// backend without native scatter reads. On failure, the buffers before
/// the failing one keep what was read.
pub fn read_exact_vectored_serial<A: ReadAt>(a: &A, bufs: &mut Vec<Vec<u8>>, offset: u64) -> (r:
    Result<(), ErrorKind>)
    ensures
        final(bufs)@.len() == old(bufs)@.len(),
        r is Ok ==> (flatten_bufs(old(bufs).deep_view()).len() == 0 || offset + flatten_bufs(
            old(bufs).deep_view(),
        ).len() <= a.content().len()) && final(bufs).deep_view() == scatter(
            old(bufs).deep_view(),
            window(a.content(), offset as int, flatten_bufs(old(bufs).deep_view()).len() as int),
        ),
        a.infallible() ==> (r is Ok <==> flatten_bufs(old(bufs).deep_view()).len() == 0 || offset
            + flatten_bufs(old(bufs).deep_view()).len() <= a.content().len()),
        a.infallible() && r is Err ==> r == Err::<(), ErrorKind>(ErrorKind::UnexpectedEof),
{
    proof {
        assert(old(bufs).deep_view().skip(0) =~= old(bufs).deep_view());
    }
    let r = read_exact_vectored_from(a, bufs, 0, offset);
    proof {
        assert(bufs.deep_view().skip(0) =~= bufs.deep_view());
    }
    r
}

/// The recursive core of [`read_exact_vectored_serial`]: fills the buffers
/// from index `i` on.
fn read_exact_vectored_from<A: ReadAt>(
    a: &A,
    bufs: &mut Vec<Vec<u8>>,
    i: usize,
    offset: u64,
) -> (r: Result<(), ErrorKind>)
    requires
        i <= old(bufs)@.len(),
    ensures
        final(bufs)@.len() == old(bufs)@.len(),
        forall|j: int| 0 <= j < i ==> final(bufs)@[j] == old(bufs)@[j],
        r is Ok ==> (flatten_bufs(old(bufs).deep_view().skip(i as int)).len() == 0 || offset
            + flatten_bufs(old(bufs).deep_view().skip(i as int)).len() <= a.content().len())
            && final(bufs).deep_view().skip(i as int) == scatter(
            old(bufs).deep_view().skip(i as int),
            window(
                a.content(),
                offset as int,
                flatten_bufs(old(bufs).deep_view().skip(i as int)).len() as int,
            ),
        ),
        a.infallible() ==> (r is Ok <==> flatten_bufs(old(bufs).deep_view().skip(i as int)).len()
            == 0 || offset + flatten_bufs(old(bufs).deep_view().skip(i as int)).len()
            <= a.content().len()),
        a.infallible() && r is Err ==> r == Err::<(), ErrorKind>(ErrorKind::UnexpectedEof),
    decreases old(bufs)@.len() - i,
{
    let ghost old_deep = old(bufs).deep_view();
    if i == bufs.len() {
        proof {
            assert(old_deep.skip(i as int) =~= Seq::<Seq<u8>>::empty());
            assert(window(a.content(), offset as int, 0) =~= Seq::<u8>::empty());
            assert(bufs.deep_view().skip(i as int) =~= scatter(
                old_deep.skip(i as int),
                window(a.content(), offset as int, 0),
            ));
        }
        return Ok(());
    }
    let mut b = bufs.remove(i);
    let ghost b_old = b@;
    let res = read_exact_at_serial(a, &mut b, offset);
    let ghost b_new = b@;
    let blen = b.len();
    bufs.insert(i, b);
    let ghost mid = bufs@;
    let ghost mid_deep = bufs.deep_view();
    proof {
        assert(mid =~= old(bufs)@.update(i as int, mid[i as int]));
        assert forall|j: int| 0 <= j < mid.len() implies #[trigger] mid_deep[j] == mid[j]@ by {
            lemma_vec_u8_deep(mid[j]);
        }
        assert forall|j: int| 0 <= j < old(bufs)@.len() implies #[trigger] old_deep[j] == old(
            bufs,
        )@[j]@ by {
            lemma_vec_u8_deep(old(bufs)@[j]);
        }
        assert(b_old == old_deep[i as int]);
        assert(mid_deep[i as int] == b_new);
        assert(mid_deep.skip(i as int + 1) =~= old_deep.skip(i as int + 1));
        assert(flatten_bufs(old_deep.skip(i as int)) == b_old + flatten_bufs(
            old_deep.skip(i as int + 1),
        )) by {
            assert(old_deep.skip(i as int)[0] == b_old);
            assert(old_deep.skip(i as int).skip(1) =~= old_deep.skip(i as int + 1));
        }
    }
    match res {
        Ok(_) => {},
        Err(e) => {
            proof {
                assert forall|j: int| 0 <= j < i implies #[trigger] bufs@[j] == old(bufs)@[j] by {
                    assert(bufs@[j] == mid[j]);
                }
                if a.infallible() {
                    assert(b_old.len() > 0 && offset + b_old.len() > a.content().len());
                    assert(flatten_bufs(old_deep.skip(i as int)).len() >= b_old.len());
                }
            }
            return Err(e);
        },
    }
    proof {
        assert(b_old.len() == 0 || offset + b_old.len() <= a.content().len());
        if b_old.len() > 0 {
            a.lemma_content_bounded();
        }
    }
    let rest = read_exact_vectored_from(a, bufs, i + 1, offset + (blen as u64));
    proof {
        let od = old_deep.skip(i as int);
        let flat = flatten_bufs(od);
        let flat_rest = flatten_bufs(old_deep.skip(i as int + 1));
        assert(flat.len() == b_old.len() + flat_rest.len());
        if rest is Ok {
            let data = window(a.content(), offset as int, flat.len() as int);
            let nd = bufs.deep_view().skip(i as int);
            assert forall|j: int| 0 <= j < bufs@.len() implies #[trigger] bufs.deep_view()[j]
                == bufs@[j]@ by {
                lemma_vec_u8_deep(bufs@[j]);
            }
            let ks = if od[0].len() <= data.len() {
                od[0].len() as int
            } else {
                data.len() as int
            };
            assert(ks == b_old.len());
            assert(data.subrange(0, ks) =~= window(a.content(), offset as int, b_old.len() as int));
            assert(data.skip(ks) =~= window(
                a.content(),
                offset as int + b_old.len(),
                flat_rest.len() as int,
            ));
            assert(b_new =~= overlay_prefix(b_old, data.subrange(0, ks)));
            assert(od.skip(1) == old_deep.skip(i as int + 1));
            assert(offset as int + b_old.len() == (offset + (blen as u64)) as int);
            assert(scatter(od.skip(1), data.skip(ks)) == bufs.deep_view().skip(i as int + 1));
            assert(nd[0] == b_new);
            assert(nd.skip(1) =~= bufs.deep_view().skip(i as int + 1));
            assert(scatter(od, data) == seq![overlay_prefix(od[0], data.subrange(0, ks))]
                + scatter(od.skip(1), data.skip(ks)));
            assert(nd =~~= scatter(od, data));
        } else {
            if a.infallible() {
                assert(flat_rest.len() > 0 && offset + blen + flat_rest.len()
                    > a.content().len());
            }
        }
        assert forall|j: int| 0 <= j < i implies #[trigger] bufs@[j] == old(bufs)@[j] by {
            assert(bufs@[j] == mid[j]);
        }
    }
    rest
}

} // verus!
