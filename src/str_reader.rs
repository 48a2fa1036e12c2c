use std::collections::VecDeque;
use vstd::prelude::*;
use crate::source::{RealStrRead, StrRead, StrWrite};

verus! {

/// The characters of each borrowed chunk, in order.
pub open spec fn str_chunks<'a>(q: Seq<&'a str>) -> Seq<Seq<char>> {
    q.map_values(|s: &'a str| s@)
}

/// A queue of borrowed chunks in front of an optional fallback source.
///
/// The queue is drained first, in order; only then is the fallback asked.
#[derive(Clone, Debug)]
pub struct StrReader<'a, R: RealStrRead = Box<str>> {
    pub queue: VecDeque<&'a str>,
    pub reader: Option<R>,
}

impl<'a, R: RealStrRead> StrReader<'a, R> {
    /// Equivalent to `default()`.
    #[must_use]
    pub fn new() -> (r: Self)
        ensures
            r.queue@.len() == 0,
            r.reader is None,
    {
        Self::default()
    }
}

impl<'a, R: RealStrRead> Default for StrReader<'a, R> {
    fn default() -> (r: Self)
        ensures
            r.queue@.len() == 0,
            r.reader is None,
    {
        Self { queue: VecDeque::new(), reader: None }
    }
}

impl<'a, R: RealStrRead> From<R> for StrReader<'a, R> {
    fn from(value: R) -> (r: Self)
        ensures
            r.queue@.len() == 0,
            r.reader == Some(value),
    {
        Self { queue: VecDeque::new(), reader: Some(value) }
    }
}

impl<'a, R: RealStrRead> vstd::std_specs::convert::FromSpecImpl<R> for StrReader<'a, R> {
    open spec fn obeys_from_spec() -> bool {
        false
    }

    open spec fn from_spec(v: R) -> Self {
        arbitrary()
    }
}

impl<'a, R: RealStrRead> From<VecDeque<&'a str>> for StrReader<'a, R> {
    fn from(value: VecDeque<&'a str>) -> (r: Self)
        ensures
            r.queue@ == value@,
            r.reader is None,
    {
        Self { queue: value, reader: None }
    }
}

impl<'a, R: RealStrRead> vstd::std_specs::convert::FromSpecImpl<VecDeque<&'a str>> for StrReader<'a, R> {
    open spec fn obeys_from_spec() -> bool {
        false
    }

    open spec fn from_spec(v: VecDeque<&'a str>) -> Self {
        arbitrary()
    }
}

impl<'a, R: RealStrRead> StrRead for StrReader<'a, R> {
    /// The front of the queue, else the fallback's next chunk.
    open spec fn next_chunk(&self) -> Option<Seq<char>> {
        if self.queue@.len() > 0 {
            Some(self.queue@[0]@)
        } else {
            match self.reader {
                Some(r) => r.next_chunk(),
                None => None,
            }
        }
    }

    fn peek_str(&self) -> (r: Option<&str>) {
        if self.queue.len() > 0 {
            Some(self.queue[0])
        } else {
            match &self.reader {
                Some(r) => r.peek_str(),
                None => None,
            }
        }
    }

    fn is_empty(&self) -> (r: bool) {
        self.queue.len() == 0 && match &self.reader {
            Some(r) => r.is_empty(),
            None => true,
        }
    }
}

impl<'a, R: RealStrRead> RealStrRead for StrReader<'a, R> {
    /// The queued chunks, then whatever the fallback hands out.
    open spec fn chunk_at(&self, i: nat) -> Option<Seq<char>> {
        if i < self.queue@.len() {
            Some(self.queue@[i as int]@)
        } else {
            match self.reader {
                Some(r) => r.chunk_at((i - self.queue@.len()) as nat),
                None => None,
            }
        }
    }

    proof fn lemma_next_is_first(&self) {
        if self.queue@.len() == 0 {
            if let Some(r) = self.reader {
                r.lemma_next_is_first();
            }
        }
    }

    fn pop_str(&mut self) -> (r: Option<&str>)
        ensures
            old(self).queue@.len() > 0 ==> r == Some(old(self).queue@[0]) && final(self).queue@
                == old(self).queue@.drop_first() && final(self).reader == old(self).reader,
            old(self).queue@.len() == 0 ==> final(self).queue@.len() == 0,
            old(self).reader is None ==> final(self).reader is None,
    {
        match self.queue.pop_front() {
            Some(s) => {
                assert forall|i: nat| #[trigger]
                    final(self).chunk_at(i) == old(self).chunk_at(i + 1) by {
                    if i + 1 < old(self).queue@.len() {
                        assert(final(self).queue@[i as int] == old(self).queue@[i + 1 as int]);
                    }
                }
                Some(s)
            },
            None => match &mut self.reader {
                Some(r) => r.pop_str(),
                None => None,
            },
        }
    }
}

impl<'r, R: RealStrRead> StrWrite<'r> for StrReader<'r, R> {
    open spec fn queued(&self) -> Seq<Seq<char>> {
        str_chunks(self.queue@)
    }

    fn push_str(&'r mut self, s: &'r str)
        ensures
            final(self).reader == old(self).reader,
    {
        self.queue.push_back(s);
        assert(str_chunks(final(self).queue@) == str_chunks(old(self).queue@).push(s@));
    }

    fn shift_str(&'r mut self, s: &'r str)
        ensures
            final(self).reader == old(self).reader,
    {
        self.queue.push_front(s);
        assert(str_chunks(final(self).queue@) == seq![s@] + str_chunks(old(self).queue@));
    }
}

} // verus!
