use std::collections::VecDeque;
use vstd::prelude::*;
use vstd::string::StringSliceAdditionalSpecFns;
use vstd::utf8::{decode_utf8, group_utf8_lib};
use crate::bytes::{after_read, bytes_of, copy_into, cut_on_boundary, first_bytes, min_of, stream_bytes};
use crate::source::{StrRead, StringRead, StringWrite};

verus! {

/// The characters of each owned chunk, in order.
pub open spec fn string_chunks(q: Seq<String>) -> Seq<Seq<char>> {
    q.map_values(|s: String| s@)
}

/// Relies on `VecDeque::front_mut`: a handle to the first element, `None`
/// when the queue is empty; what is written through it becomes the first
/// element.
#[verifier::external_body]
fn queue_front_mut(q: &mut VecDeque<String>) -> (r: Option<&mut String>)
    ensures
        old(q)@.len() == 0 ==> r is None && final(q)@ == old(q)@,
        old(q)@.len() > 0 ==> r is Some && *r.unwrap() == old(q)@[0] && final(q)@ == old(
            q,
        )@.update(0, *final(r.unwrap())),
{
    q.front_mut()
}

/// A queue of owned chunks in front of an optional fallback source.
///
/// The queue is drained first, in order; only then is the fallback asked.
#[derive(Clone, Debug)]
pub struct StringReader<R: StringRead = String> {
    pub queue: VecDeque<String>,
    pub reader: Option<R>,
}

impl<R: StringRead> StringReader<R> {
    /// The chunks that the fallback source still holds.
    pub open spec fn fallback_chunks(&self) -> Seq<Seq<char>> {
        match self.reader {
            Some(r) => r.chunks(),
            None => seq![],
        }
    }

    /// Equivalent to `default()`.
    #[must_use]
    pub fn new() -> (r: Self)
        ensures
            r.queue@.len() == 0,
            r.reader is None,
    {
        Self::default()
    }
}

impl<R: StringRead> StringReader<R> {
    /// Fill `buf` from the front of the byte stream and return how many
    /// bytes were written.
    ///
    /// Whole chunks are taken while they fit; a chunk that does not fit is
    /// cut, and what was not read stays in front. Zero comes back only when
    /// `buf` is empty or nothing is left.
    pub fn read(&mut self, buf: &mut [u8]) -> (r: usize)
        requires
            cut_on_boundary(old(self).chunks(), old(buf)@.len() as int),
        ensures
            r == min_of(old(buf)@.len() as int, stream_bytes(old(self).chunks()).len() as int),
            final(buf)@.len() == old(buf)@.len(),
            final(buf)@.subrange(0, r as int) == stream_bytes(old(self).chunks()).subrange(
                0,
                r as int,
            ),
            final(buf)@.subrange(r as int, old(buf)@.len() as int) == old(buf)@.subrange(
                r as int,
                old(buf)@.len() as int,
            ),
            final(self).chunks() == after_read(old(self).chunks(), old(buf)@.len() as int),
            old(self).reader is None ==> final(self).reader is None,
            stream_bytes(string_chunks(old(self).queue@)).len() > old(buf)@.len()
                ==> final(self).reader == old(self).reader,
    {
        match self.read_checked(buf) {
            Some(n) => n,
            None => 0,
        }
    }

    /// Like [`Self::read`], but gives `None` instead when filling `buf`
    /// would cut a chunk inside a character. The chunks that fit whole
    /// before that point have then already been taken and copied.
    pub fn read_checked(&mut self, buf: &mut [u8]) -> (r: Option<usize>)
        ensures
            r is Some <==> cut_on_boundary(old(self).chunks(), old(buf)@.len() as int),
            final(buf)@.len() == old(buf)@.len(),
            old(self).reader is None ==> final(self).reader is None,
            stream_bytes(string_chunks(old(self).queue@)).len() > old(buf)@.len()
                ==> final(self).reader == old(self).reader,
            r is Some ==> {
                let n = r.unwrap();
                &&& n == min_of(
                    old(buf)@.len() as int,
                    stream_bytes(old(self).chunks()).len() as int,
                )
                &&& final(buf)@.subrange(0, n as int) == stream_bytes(
                    old(self).chunks(),
                ).subrange(0, n as int)
                &&& final(buf)@.subrange(n as int, old(buf)@.len() as int) == old(
                    buf,
                )@.subrange(n as int, old(buf)@.len() as int)
                &&& final(self).chunks() == after_read(
                    old(self).chunks(),
                    old(buf)@.len() as int,
                )
            },
    {
        broadcast use group_utf8_lib;

        let total = buf.len();
        let mut l: usize = total;
        let mut pos: usize = 0;
        let ghost c0 = self.chunks();
        let ghost b0 = buf@;
        loop
            invariant
                c0 == old(self).chunks(),
                b0 == old(buf)@,
                pos + l == total,
                total == b0.len(),
                buf@.len() == total,
                stream_bytes(c0) == buf@.subrange(0, pos as int) + stream_bytes(self.chunks()),
                buf@.subrange(pos as int, total as int) == b0.subrange(pos as int, total as int),
                cut_on_boundary(c0, total as int) == cut_on_boundary(self.chunks(), l as int),
                after_read(c0, total as int) == after_read(self.chunks(), l as int),
                old(self).reader is None ==> self.reader is None,
                stream_bytes(string_chunks(old(self).queue@)).len() > total ==> self.reader == old(
                    self,
                ).reader && stream_bytes(string_chunks(self.queue@)).len() > l,
            decreases self.chunks().len(),
        {
            proof {
                self.lemma_next_is_first();
            }
            let next = self.peek_str();
            match next {
                None => {
                    assert(stream_bytes(self.chunks()) =~= Seq::<u8>::empty());
                    assert(buf@.subrange(0, pos as int) =~= stream_bytes(c0));
                    return Some(pos);
                },
                Some(p) => {
                    let slen = p.as_bytes().len();
                    if slen > l {
                        let ghost c = self.chunks();
                        assert(p@ == c[0]);
                        if !p.is_char_boundary(l) {
                            return None;
                        }
                        assert(stream_bytes(c) == bytes_of(c[0]) + stream_bytes(c.drop_first()));
                        assert(stream_bytes(string_chunks(old(self).queue@)).len() > total
                            ==> self.queue@.len() > 0);
                        let m = self.peek_mut_string();
                        let s = m.unwrap();
                        let whole = s.as_str();
                        assert(whole@ == c[0]);
                        let bytes = whole.as_bytes();
                        copy_into(buf, pos, bytes, l);
                        let (_, rest) = whole.split_at(l);
                        let tail = rest.to_owned();
                        assert(tail@ == decode_utf8(bytes_of(c[0]).skip(l as int))) by {
                            assert(bytes_of(c[0]).skip(l as int) =~= rest.spec_bytes());
                            vstd::utf8::encode_utf8_decode_utf8(rest@);
                        }
                        *s = tail;
                        assert(buf@.subrange(0, total as int) =~= stream_bytes(c0).subrange(
                            0,
                            total as int,
                        ));
                        return Some(total);
                    }
                    let ghost c = self.chunks();
                    let ghost before = buf@;
                    let ghost q = self.queue@;
                    proof {
                        if q.len() > 0 {
                            assert(string_chunks(q).drop_first() =~= string_chunks(q.drop_first()));
                            assert(c[0] == q[0]@);
                        }
                    }
                    assert(stream_bytes(string_chunks(old(self).queue@)).len() > total
                        ==> q.len() > 0);
                    assert(p@ == c[0]);
                    assert(slen == bytes_of(c[0]).len());
                    let popped = self.pop_string().unwrap();
                    let popped_bytes = popped.as_str().as_bytes();
                    assert(popped_bytes@ == bytes_of(c[0]));
                    copy_into(buf, pos, popped_bytes, slen);
                    assert(buf@.subrange(0, pos + slen) =~= before.subrange(0, pos as int)
                        + bytes_of(c[0]));
                    assert(buf@.subrange(pos + slen, total as int) =~= b0.subrange(
                        pos + slen,
                        total as int,
                    )) by {
                        assert(buf@.subrange(pos + slen, total as int) =~= before.subrange(
                            pos + slen,
                            total as int,
                        ));
                        assert(before.subrange(pos + slen, total as int) =~= before.subrange(
                            pos as int,
                            total as int,
                        ).subrange(slen as int, l as int));
                        assert(b0.subrange(pos + slen, total as int) =~= b0.subrange(
                            pos as int,
                            total as int,
                        ).subrange(slen as int, l as int));
                    }
                    assert(stream_bytes(c) == bytes_of(c[0]) + stream_bytes(c.drop_first()));
                    assert(stream_bytes(c0) =~= buf@.subrange(0, pos + slen) + stream_bytes(
                        c.drop_first(),
                    ));
                    pos = pos + slen;
                    l = l - slen;
                }
            }
        }
    }

    /// The bytes of the next chunk, without taking anything; empty when
    /// nothing is left.
    pub fn fill_buf(&self) -> (r: &[u8])
        ensures
            r@ == first_bytes(self.chunks()),
    {
        proof {
            self.lemma_next_is_first();
        }
        match self.peek_str() {
            Some(s) => s.as_bytes(),
            None => &[],
        }
    }

    /// Drop the next `amt` bytes of the stream, or all of it when it holds
    /// fewer.
    pub fn consume(&mut self, amt: usize)
        requires
            cut_on_boundary(old(self).chunks(), amt as int),
        ensures
            final(self).chunks() == after_read(old(self).chunks(), amt as int),
            old(self).reader is None ==> final(self).reader is None,
            stream_bytes(string_chunks(old(self).queue@)).len() > amt ==> final(self).reader
                == old(self).reader,
    {
        let mut scratch: Vec<u8> = vec![0u8; amt];
        self.read(scratch.as_mut_slice());
    }
}

impl<R: StringRead> Default for StringReader<R> {
    fn default() -> (r: Self)
        ensures
            r.queue@.len() == 0,
            r.reader is None,
    {
        Self { queue: VecDeque::new(), reader: None }
    }
}

impl<R: StringRead> From<R> for StringReader<R> {
    fn from(value: R) -> (r: Self)
        ensures
            r.queue@.len() == 0,
            r.reader == Some(value),
    {
        Self { queue: VecDeque::new(), reader: Some(value) }
    }
}

impl<R: StringRead> vstd::std_specs::convert::FromSpecImpl<R> for StringReader<R> {
    open spec fn obeys_from_spec() -> bool {
        false
    }

    open spec fn from_spec(v: R) -> Self {
        arbitrary()
    }
}

impl<R: StringRead> From<VecDeque<String>> for StringReader<R> {
    fn from(value: VecDeque<String>) -> (r: Self)
        ensures
            r.queue@ == value@,
            r.reader is None,
    {
        Self { queue: value, reader: None }
    }
}

impl<R: StringRead> vstd::std_specs::convert::FromSpecImpl<VecDeque<String>> for StringReader<R> {
    open spec fn obeys_from_spec() -> bool {
        false
    }

    open spec fn from_spec(v: VecDeque<String>) -> Self {
        arbitrary()
    }
}

impl<R: StringRead> StrRead for StringReader<R> {
    /// The front of the queue, else the fallback's next chunk.
    open spec fn next_chunk(&self) -> Option<Seq<char>> {
        if self.queue@.len() > 0 {
            Some(self.queue@[0]@)
        } else {
            match self.reader {
                Some(r) => r.next_chunk(),
                None => None,
            }
        }
    }

    fn peek_str(&self) -> (r: Option<&str>) {
        if self.queue.len() > 0 {
            Some(self.queue[0].as_str())
        } else {
            match &self.reader {
                Some(r) => r.peek_str(),
                None => None,
            }
        }
    }

    fn is_empty(&self) -> (r: bool) {
        self.queue.len() == 0 && match &self.reader {
            Some(r) => r.is_empty(),
            None => true,
        }
    }
}

impl<R: StringRead> StringRead for StringReader<R> {
    /// The queued chunks, then the fallback's.
    open spec fn chunks(&self) -> Seq<Seq<char>> {
        string_chunks(self.queue@) + self.fallback_chunks()
    }

    proof fn lemma_next_is_first(&self) {
        if self.queue@.len() == 0 {
            if let Some(r) = self.reader {
                r.lemma_next_is_first();
            }
            assert(self.chunks() == self.fallback_chunks());
        }
    }

    fn pop_string(&mut self) -> (r: Option<String>)
        ensures
            old(self).queue@.len() > 0 ==> r == Some(old(self).queue@[0]) && final(self).queue@
                == old(self).queue@.drop_first() && final(self).reader == old(self).reader,
            old(self).queue@.len() == 0 ==> final(self).queue@.len() == 0,
            old(self).reader is None ==> final(self).reader is None,
    {
        let q = self.queue.pop_front();
        match q {
            Some(s) => {
                assert(string_chunks(final(self).queue@) == string_chunks(old(self).queue@).drop_first());
                assert(final(self).chunks() == old(self).chunks().drop_first());
                Some(s)
            },
            None => {
                assert(string_chunks(old(self).queue@) == Seq::<Seq<char>>::empty());
                match &mut self.reader {
                    Some(r) => r.pop_string(),
                    None => None,
                }
            },
        }
    }

    fn peek_mut_string(&mut self) -> (r: Option<&mut String>)
        ensures
            old(self).queue@.len() > 0 ==> r is Some && final(self).queue@ == old(
                self,
            ).queue@.update(0, *final(r.unwrap())) && final(self).reader == old(self).reader,
            old(self).queue@.len() == 0 ==> final(self).queue@.len() == 0,
            old(self).reader is None ==> final(self).reader is None,
    {
        if self.queue.len() > 0 {
            queue_front_mut(&mut self.queue)
        } else {
            assert(string_chunks(old(self).queue@) == Seq::<Seq<char>>::empty());
            match &mut self.reader {
                Some(r) => r.peek_mut_string(),
                None => None,
            }
        }
    }
}

impl<R: StringRead> StringWrite for StringReader<R> {
    open spec fn queued(&self) -> Seq<Seq<char>> {
        string_chunks(self.queue@)
    }

    fn push_string(&mut self, s: String)
        ensures
            final(self).reader == old(self).reader,
    {
        self.queue.push_back(s);
        assert(string_chunks(final(self).queue@) == string_chunks(old(self).queue@).push(s@));
    }

    fn shift_string(&mut self, s: String)
        ensures
            final(self).reader == old(self).reader,
    {
        self.queue.push_front(s);
        assert(string_chunks(final(self).queue@) == seq![s@] + string_chunks(old(self).queue@));
    }
}

} // verus!
