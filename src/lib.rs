//! Readers that hand out `&str` and `String` chunks instead of bytes.
//!
//! The traits [`StrRead`], [`RealStrRead`] and [`StringRead`] describe chunk
//! sources; [`StrReader`] and [`StringReader`] are queues of chunks that fall
//! back on another source once their own queue is drained.
mod bytes;
mod laws;
mod source;
mod str_reader;
mod string_reader;

pub use source::{RealStrRead, StrRead, StringRead, StrWrite, StringWrite, chunk_of};
pub use string_reader::{StringReader, string_chunks};
pub use bytes::{after_read, bytes_of, copy_into, cut_on_boundary, first_bytes, min_of, stream_bytes};
pub use str_reader::{StrReader, str_chunks};
pub use laws::{borrowed_empty_iff_pop_none, borrowed_fallback_comes_last, borrowed_reader_is_a_deque, bare_str_pops_forever, bare_string_pops_once, cut_at_zero, fill_buf_is_next_read, owned_empty_iff_pop_none, owned_fallback_comes_last, owned_reader_is_a_deque, read_removes_prefix};
