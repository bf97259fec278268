//! Positional (offset-addressed) I/O on random-access devices.
//!
//! This crate defines the [`Array`], [`ReadAt`], [`WriteAt`], and [`EditAt`]
//! traits, which describe random-access devices such as in-memory byte
//! buffers: every read and write names an explicit offset, and no device
//! carries a current position. The contracts of the traits pin the whole
//! behaviour down against a mathematical model of the device contents.
//!
//! On top of the traits sit the in-memory devices ([`ByteArray`] and plain
//! `Vec<u8>`), the device wrappers ([`ArrayReader`], [`ArrayWriter`],
//! [`ArrayEditor`]), and the stream adapters ([`BorrowStreamer`],
//! [`BorrowStreamerMut`], [`OwnStreamer`], [`FileStreamer`]), which pair a
//! device with a private cursor and expose sequential reads and writes.

mod arrays;
mod borrow_streamer;
mod bufops;
mod bytes;
mod copy;
mod emulate;
mod errors;
mod file_streamer;
mod fixed;
pub mod laws;
pub mod model;
mod own_streamer;
mod seek;
mod slice;
mod sys;
mod wrappers;

pub use arrays::{
    exact_vectored_write_len, read_at_post, read_exact_at_post, same_kind, write_all_at_post,
    write_all_ok, write_at_post, write_fits, Advice, Array, EditAt, Metadata, ReadAt, WriteAt,
};
pub use borrow_streamer::{BorrowStreamer, BorrowStreamerMut};
pub use bytes::ByteArray;
pub use copy::copy_from;
pub use emulate::{
    advance, checked_cursor_end, read_exact_at_serial, read_exact_step,
    read_exact_vectored_serial, write_all_step, write_all_vectored_serial, LoopStep,
};
pub use errors::ErrorKind;
pub use file_streamer::FileStreamer;
pub use fixed::FixedArray;
pub use own_streamer::OwnStreamer;
pub use seek::{clamp_to_u64, resolve_seek, seek_target, SeekFrom};
pub use wrappers::{ArrayEditor, ArrayReader, ArrayWriter};
