use vstd::prelude::*;
use vstd::utf8::{decode_utf8, encode_utf8, is_char_boundary};

verus! {

/// The UTF-8 bytes of one chunk.
pub open spec fn bytes_of(c: Seq<char>) -> Seq<u8> {
    encode_utf8(c)
}

/// The byte stream that a sequence of chunks presents: their bytes, one
/// chunk after the other.
pub open spec fn stream_bytes(chunks: Seq<Seq<char>>) -> Seq<u8>
    decreases chunks.len(),
{
    if chunks.len() == 0 {
        Seq::empty()
    } else {
        bytes_of(chunks[0]) + stream_bytes(chunks.drop_first())
    }
}

/// Reading `n` bytes from the chunks either ends exactly between two chunks
/// or inside a chunk at the start of one of its characters.
pub open spec fn cut_on_boundary(chunks: Seq<Seq<char>>, n: int) -> bool
    decreases chunks.len(),
{
    if chunks.len() == 0 {
        true
    } else if bytes_of(chunks[0]).len() > n {
        is_char_boundary(bytes_of(chunks[0]), n)
    } else {
        cut_on_boundary(chunks.drop_first(), n - bytes_of(chunks[0]).len())
    }
}

/// The chunks left after reading up to `n` bytes: every chunk that fits
/// whole in what remains of `n` is gone, and the chunk that does not fit
/// keeps only the bytes that were not read.
pub open spec fn after_read(chunks: Seq<Seq<char>>, n: int) -> Seq<Seq<char>>
    decreases chunks.len(),
{
    if chunks.len() == 0 {
        chunks
    } else if bytes_of(chunks[0]).len() > n {
        chunks.update(0, decode_utf8(bytes_of(chunks[0]).skip(n)))
    } else {
        after_read(chunks.drop_first(), n - bytes_of(chunks[0]).len())
    }
}

/// The bytes that the next chunk presents, none when there is no chunk.
pub open spec fn first_bytes(chunks: Seq<Seq<char>>) -> Seq<u8> {
    if chunks.len() == 0 {
        Seq::empty()
    } else {
        bytes_of(chunks[0])
    }
}

/// The smaller of two integers.
pub open spec fn min_of(a: int, b: int) -> int {
    if a <= b {
        a
    } else {
        b
    }
}

/// Copy the first `n` bytes of `src` into `buf` from position `at` on.
pub fn copy_into(buf: &mut [u8], at: usize, src: &[u8], n: usize)
    requires
        at + n <= old(buf)@.len(),
        n <= src@.len(),
    ensures
        final(buf)@ == old(buf)@.subrange(0, at as int) + src@.subrange(0, n as int) + old(
            buf,
        )@.subrange(at + n, old(buf)@.len() as int),
{
    let mut j: usize = 0;
    while j < n
        invariant
            j <= n,
            at + n <= old(buf)@.len(),
            n <= src@.len(),
            buf@.len() == old(buf)@.len(),
            at + n <= buf.len(),
            buf@ == old(buf)@.subrange(0, at as int) + src@.subrange(0, j as int) + old(
                buf,
            )@.subrange(at + j, old(buf)@.len() as int),
        decreases n - j,
    {
        buf[at + j] = src[j];
        j = j + 1;
        assert(buf@ =~= old(buf)@.subrange(0, at as int) + src@.subrange(0, j as int) + old(
            buf,
        )@.subrange(at + j, old(buf)@.len() as int));
    }
}

} // verus!
