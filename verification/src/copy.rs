//! Bulk positional copy between two devices, implemented generically atop
//! the positional operations: bounded chunks are read from the input and
//! written to the output until the requested count is transferred or the
//! input is exhausted.

use vstd::prelude::*;

use crate::arrays::{same_kind, Array, ReadAt, WriteAt};
use crate::errors::ErrorKind;
use crate::model::{avail, window, write_content};
use vstd::math::min;

verus! {

/// Copies `len` bytes from `input` at `input_offset` to `output` at
/// `offset`, stopping early if the input is exhausted first. Returns how
/// many bytes were copied. A request whose end would leave the addressable
/// range fails with an overflow error before anything is transferred. The
/// copy is not atomic and uses an intermediate buffer; on failure, a
/// prefix of the requested range may already have been written.
pub fn copy_from<W: WriteAt, R: ReadAt>(
    output: &mut W,
    offset: u64,
    input: &R,
    input_offset: u64,
    len: u64,
) -> (r: Result<u64, ErrorKind>)
    ensures
        same_kind(old(output), final(output)),
        match r {
            Ok(t) => {
                &&& t <= len
                &&& input.exact() ==> t == min(
                    len as int,
                    avail(input.content(), input_offset as int),
                )
                &&& final(output).content() == write_content(
                    old(output).content(),
                    offset as int,
                    window(input.content(), input_offset as int, t as int),
                    old(output).grows(),
                )
            },
            Err(_) => exists|k: int|
                0 <= k <= len && final(output).content() == write_content(
                    old(output).content(),
                    offset as int,
                    window(input.content(), input_offset as int, k),
                    old(output).grows(),
                ),
        },
        offset + len > u64::MAX || input_offset + len > u64::MAX ==> r == Err::<u64, ErrorKind>(
            ErrorKind::Overflow,
        ) && final(output).content() == old(output).content(),
        input.infallible() && old(output).infallible() && input.exact() && offset + len
            <= u64::MAX && input_offset + len <= u64::MAX && (if old(output).grows() {
            offset + len <= usize::MAX
        } else {
            min(len as int, avail(input.content(), input_offset as int)) == 0 || offset + min(
                len as int,
                avail(input.content(), input_offset as int),
            ) <= old(output).content().len()
        }) ==> r is Ok,
{
    if len > u64::MAX - offset || len > u64::MAX - input_offset {
        proof {
            assert(window(input.content(), input_offset as int, 0) =~= Seq::<u8>::empty());
            assert(output.content() =~= write_content(
                old(output).content(),
                offset as int,
                window(input.content(), input_offset as int, 0),
                old(output).grows(),
            ));
            let k: int = 0;
            assert(0 <= k <= len && output.content() == write_content(
                old(output).content(),
                offset as int,
                window(input.content(), input_offset as int, k),
                old(output).grows(),
            ));
        }
        return Err(ErrorKind::Overflow);
    }
    let mut copied: u64 = 0;
    proof {
        assert(window(input.content(), input_offset as int, 0) =~= Seq::<u8>::empty());
        assert(output.content() =~= write_content(
            old(output).content(),
            offset as int,
            window(input.content(), input_offset as int, 0),
            old(output).grows(),
        ));
    }
    #[verifier::loop_isolation(false)]
    while copied < len
        invariant
            copied <= len,
            input.exact() ==> copied <= avail(input.content(), input_offset as int),
            output.content() == write_content(
                old(output).content(),
                offset as int,
                window(input.content(), input_offset as int, copied as int),
                old(output).grows(),
            ),
            output.grows() == old(output).grows(),
            output.resizable() == old(output).resizable(),
            output.infallible() == old(output).infallible(),
            output.exact() == old(output).exact(),
            output.vectored() == old(output).vectored(),
            !old(output).grows() ==> output.content().len() == old(output).content().len(),
        decreases len - copied,
    {
        let want64 = len - copied;
        let want: usize = if want64 > 8192 {
            8192
        } else {
            want64 as usize
        };
        let mut buf: Vec<u8> = vec![0u8; want];
        let cur_in = input_offset + copied;
        match input.read_at(&mut buf, cur_in) {
            Ok(n) => {
                if n == 0 {
                    proof {
                        if input.exact() {
                            assert(avail(input.content(), cur_in as int) == 0 || want == 0);
                            assert(want > 0);
                            assert(copied >= avail(input.content(), input_offset as int));
                            assert(copied == avail(input.content(), input_offset as int));
                        }
                    }
                    return Ok(copied);
                }
                proof {
                    assert(buf@.subrange(0, n as int) =~= window(
                        input.content(),
                        cur_in as int,
                        n as int,
                    ));
                    if input.exact() {
                        assert(n <= avail(input.content(), cur_in as int));
                    }
                }
                buf.truncate(n);
                proof {
                    assert(buf@ =~= window(input.content(), cur_in as int, n as int));
                }
                let ghost pre_out = output.content();
                match output.write_all_at(buf.as_slice(), offset + copied) {
                    Ok(_) => {
                        proof {
                            let d0 = window(input.content(), input_offset as int, copied as int);
                            let d1 = window(input.content(), cur_in as int, n as int);
                            crate::model::lemma_write_content_append(
                                old(output).content(),
                                offset as int,
                                d0,
                                d1,
                                old(output).grows(),
                            );
                            assert(d0 + d1 =~= window(
                                input.content(),
                                input_offset as int,
                                copied + n,
                            ));
                        }
                        copied = copied + n as u64;
                    },
                    Err(e) => {
                        proof {
                            let k = copied as int;
                            assert(0 <= k <= len && output.content() == write_content(
                                old(output).content(),
                                offset as int,
                                window(input.content(), input_offset as int, k),
                                old(output).grows(),
                            ));
                            // under the success hypothesis this write was owed
                            if input.infallible() && output.infallible() && input.exact() && (
                            if old(output).grows() {
                                offset + len <= usize::MAX
                            } else {
                                min(len as int, avail(input.content(), input_offset as int)) == 0
                                    || offset + min(
                                    len as int,
                                    avail(input.content(), input_offset as int),
                                ) <= old(output).content().len()
                            }) {
                                assert(copied + n <= min(
                                    len as int,
                                    avail(input.content(), input_offset as int),
                                ));
                                assert(crate::arrays::write_all_ok(
                                    pre_out,
                                    (offset + copied) as u64,
                                    n as int,
                                    old(output).grows(),
                                ));
                                assert(false);
                            }
                        }
                        return Err(e);
                    },
                }
            },
            Err(e) => {
                proof {
                    let k = copied as int;
                    assert(0 <= k <= len && output.content() == write_content(
                        old(output).content(),
                        offset as int,
                        window(input.content(), input_offset as int, k),
                        old(output).grows(),
                    ));
                    if input.infallible() {
                        assert(false);
                    }
                }
                return Err(e);
            },
        }
    }
    Ok(copied)
}

} // verus!
