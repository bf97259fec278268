//! Sequential repositioning for the stream adapters: absolute,
//! end-relative, and current-relative targets, computed in a wider signed
//! representation and clamped into the valid unsigned range.

use vstd::prelude::*;

verus! {

/// A position to seek to within a stream.
#[derive(Clone, Copy, Debug, PartialEq, Eq, Structural)]
pub enum SeekFrom {
    /// An absolute offset from the start.
    Start(u64),
    /// A signed offset from the current end of the device.
    End(i64),
    /// A signed offset from the current cursor.
    Current(i64),
}

/// Clamps an arbitrary integer into the unsigned 64-bit range.
pub open spec fn clamp_to_u64(v: int) -> u64 {
    if v < 0 {
        0
    } else if v > u64::MAX {
        u64::MAX
    } else {
        v as u64
    }
}

/// The cursor a seek lands on, given the current cursor and the device
/// length: relative targets are clamped into the valid unsigned range.
pub open spec fn seek_target(pos: u64, len: u64, from: SeekFrom) -> u64 {
    match from {
        SeekFrom::Start(n) => n,
        SeekFrom::End(d) => clamp_to_u64(len + d),
        SeekFrom::Current(d) => clamp_to_u64(pos + d),
    }
}

/// Clamps a wide signed value into the unsigned 64-bit range.
fn clamp_wide(v: i128) -> (r: u64)
    ensures
        r == clamp_to_u64(v as int),
{
    if v < 0 {
        0
    } else if v > u64::MAX as i128 {
        u64::MAX
    } else {
        v as u64
    }
}

/// Computes the cursor a seek lands on; the arithmetic for the relative
/// forms is done in a wider signed representation, so it cannot overflow,
/// and the result is clamped into the valid unsigned range.
pub fn resolve_seek(pos: u64, len: u64, from: SeekFrom) -> (r: u64)
    ensures
        r == seek_target(pos, len, from),
{
    match from {
        SeekFrom::Start(n) => n,
        SeekFrom::End(d) => clamp_wide(len as i128 + d as i128),
        SeekFrom::Current(d) => clamp_wide(pos as i128 + d as i128),
    }
}

} // verus!
