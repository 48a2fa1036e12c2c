use vstd::prelude::*;
use vstd::utf8::{group_utf8_lib, is_char_boundary};
use crate::bytes::{after_read, bytes_of, cut_on_boundary, first_bytes, min_of, stream_bytes};
use crate::source::{RealStrRead, StrRead, StringRead, StrWrite, StringWrite, first_chunk};
use crate::str_reader::StrReader;
use crate::string_reader::StringReader;

verus! {

broadcast use group_utf8_lib;

/// Without a fallback source, an owned-chunk reader holds exactly its queue:
/// pops hand out the queued chunks front first, `push_string` adds at the
/// back and `shift_string` at the front.
pub proof fn owned_reader_is_a_deque<R: StringRead>(r: StringReader<R>)
    requires
        r.reader is None,
    ensures
        r.chunks() == r.queued(),
        r.next_chunk() == first_chunk(r.queued()),
{
    assert(r.chunks() =~= r.queued());
    r.lemma_next_is_first();
}

/// Without a fallback source, a borrowed-chunk reader holds exactly its
/// queue: the `i`-th pop from now hands out the `i`-th queued chunk, and
/// nothing once the queue is drained.
pub proof fn borrowed_reader_is_a_deque<'a, R: RealStrRead>(r: StrReader<'a, R>)
    requires
        r.reader is None,
    ensures
        forall|i: nat| #[trigger]
            r.chunk_at(i) == (if i < r.queued().len() {
                Some(r.queued()[i as int])
            } else {
                None
            }),
{
}

/// A chunk source is empty exactly when its next pop hands out nothing.
pub proof fn owned_empty_iff_pop_none<S: StringRead>(s: &S)
    ensures
        (s.next_chunk() is None) <==> s.chunks().len() == 0,
{
    s.lemma_next_is_first();
}

/// A borrowed-chunk source is empty exactly when its next pop hands out
/// nothing.
pub proof fn borrowed_empty_iff_pop_none<S: RealStrRead + ?Sized>(s: &S)
    ensures
        (s.next_chunk() is None) <==> (s.chunk_at(0) is None),
{
    s.lemma_next_is_first();
}

/// The fallback of an owned-chunk reader comes only after the whole queue,
/// in its own order; chunks queued later are again handed out before it.
pub proof fn owned_fallback_comes_last<R: StringRead>(r: StringReader<R>)
    ensures
        r.chunks() == r.queued() + r.fallback_chunks(),
{
}

/// The fallback of a borrowed-chunk reader comes only after the whole queue,
/// in its own order; chunks queued later are again handed out before it.
pub proof fn borrowed_fallback_comes_last<'a, R: RealStrRead>(r: StrReader<'a, R>)
    ensures
        forall|i: nat| #[trigger]
            r.chunk_at(i) == (if i < r.queued().len() {
                Some(r.queued()[i as int])
            } else {
                match r.reader {
                    Some(f) => f.chunk_at((i - r.queued().len()) as nat),
                    None => None,
                }
            }),
{
}

/// Reading nothing cuts no character.
pub proof fn cut_at_zero(chunks: Seq<Seq<char>>)
    ensures
        cut_on_boundary(chunks, 0),
    decreases chunks.len(),
{
    if chunks.len() > 0 {
        assert(is_char_boundary(bytes_of(chunks[0]), 0));
        cut_at_zero(chunks.drop_first());
    }
}

/// The bytes that `fill_buf` shows are the bytes that a read of that many
/// bytes takes, and such a read is always allowed.
pub proof fn fill_buf_is_next_read(chunks: Seq<Seq<char>>)
    ensures
        cut_on_boundary(chunks, first_bytes(chunks).len() as int),
        first_bytes(chunks).len() <= stream_bytes(chunks).len(),
        stream_bytes(chunks).subrange(0, first_bytes(chunks).len() as int) == first_bytes(chunks),
{
    if chunks.len() > 0 {
        cut_at_zero(chunks.drop_first());
        assert(stream_bytes(chunks).subrange(0, first_bytes(chunks).len() as int)
            =~= first_bytes(chunks));
    }
}

/// After reading or consuming `n` bytes, the stream that is left is the old
/// stream without its first `n` bytes (without all of it, when it is
/// shorter).
pub proof fn read_removes_prefix(chunks: Seq<Seq<char>>, n: int)
    requires
        0 <= n,
        cut_on_boundary(chunks, n),
    ensures
        stream_bytes(after_read(chunks, n)) == stream_bytes(chunks).skip(
            min_of(n, stream_bytes(chunks).len() as int),
        ),
    decreases chunks.len(),
{
    let s = stream_bytes(chunks);
    if chunks.len() == 0 {
        assert(s.skip(0) =~= s);
    } else {
        let b = bytes_of(chunks[0]);
        let rest = chunks.drop_first();
        if b.len() > n {
            let tail = b.skip(n);
            assert(tail == b.subrange(n, b.len() as int));
            assert(vstd::utf8::valid_utf8(tail));
            assert(bytes_of(vstd::utf8::decode_utf8(tail)) == tail);
            let a = after_read(chunks, n);
            assert(a.drop_first() =~= rest);
            assert(stream_bytes(a) == bytes_of(a[0]) + stream_bytes(a.drop_first()));
            assert(stream_bytes(a) =~= s.skip(n));
        } else {
            read_removes_prefix(rest, n - b.len());
            let m = min_of(n - b.len(), stream_bytes(rest).len() as int);
            assert(s.skip(m + b.len()) =~= stream_bytes(rest).skip(m));
        }
    }
}

/// A bare `str` is a source of one chunk that never runs out: every pop
/// hands out all of it again.
pub proof fn bare_str_pops_forever(s: &str)
    ensures
        s.next_chunk() == Some(s@),
        forall|i: nat| #[trigger] s.chunk_at(i) == Some(s@),
{
}

/// A bare `String` is a source of at most one chunk: the first pop hands
/// out all of it (when it is not empty), and nothing comes after.
pub proof fn bare_string_pops_once(s: String)
    ensures
        s@.len() > 0 ==> s.chunks() == seq![s@],
        s@.len() == 0 ==> s.chunks().len() == 0,
        s.chunks().len() > 0 ==> s.chunks().drop_first().len() == 0,
{
}

} // verus!
