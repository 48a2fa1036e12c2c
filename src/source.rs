use vstd::prelude::*;

verus! {

/// What an optional `&str` shows: its characters, if there is one.
pub open spec fn chunk_of(s: Option<&str>) -> Option<Seq<char>> {
    match s {
        Some(t) => Some(t@),
        None => None,
    }
}

/// The first chunk of a sequence of chunks, if there is one.
pub open spec fn first_chunk(chunks: Seq<Seq<char>>) -> Option<Seq<char>> {
    if chunks.len() == 0 {
        None
    } else {
        Some(chunks[0])
    }
}

/// The base of every chunk source: look at the next chunk without taking it.
pub trait StrRead {
    /// The chunk that the source would hand out next, if any.
    spec fn next_chunk(&self) -> Option<Seq<char>>;

    /// Get a reference to the next `&str`.
    ///
    /// Returns `None` if it's empty.
    fn peek_str(&self) -> (r: Option<&str>)
        ensures
            chunk_of(r) == self.next_chunk(),
    ;

    /// Check if there is nothing to pop.
    fn is_empty(&self) -> (r: bool)
        ensures
            r == (self.next_chunk() is None),
    {
        self.peek_str().is_none()
    }
}

/// A source that hands out borrowed `&str` chunks.
///
/// Its chunks are described as a stream: `chunk_at(i)` is what the `i`-th
/// pop from now returns.
pub trait RealStrRead: StrRead {
    /// What the `i`-th pop from now returns.
    spec fn chunk_at(&self, i: nat) -> Option<Seq<char>>;

    /// The next chunk is the one that the next pop hands out.
    proof fn lemma_next_is_first(&self)
        ensures
            self.next_chunk() == self.chunk_at(0),
    ;

    /// Remove the next `&str` and return it.
    ///
    /// Returns `None` if it's empty.
    fn pop_str(&mut self) -> (r: Option<&str>)
        ensures
            chunk_of(r) == old(self).chunk_at(0),
            forall|i: nat| #[trigger] final(self).chunk_at(i) == old(self).chunk_at(i + 1),
    ;
}

/// A source that hands out owned `String` chunks, finitely many of them.
pub trait StringRead: StrRead {
    /// The chunks still to come, in the order in which they are popped.
    spec fn chunks(&self) -> Seq<Seq<char>>;

    /// The next chunk is the first of the chunks still to come.
    proof fn lemma_next_is_first(&self)
        ensures
            self.next_chunk() == first_chunk(self.chunks()),
    ;

    /// Remove the next `String` and return it.
    fn pop_string(&mut self) -> (r: Option<String>)
        ensures
            old(self).chunks().len() == 0 ==> r is None && final(self).chunks() == old(
                self,
            ).chunks(),
            old(self).chunks().len() > 0 ==> r is Some && r.unwrap()@ == old(self).chunks()[0]
                && final(self).chunks() == old(self).chunks().drop_first(),
    ;

    /// Get a mutable reference to the next `String`.
    ///
    /// What is written through it becomes the next chunk; a chunk emptied
    /// through it may also vanish from the source.
    fn peek_mut_string(&mut self) -> (r: Option<&mut String>)
        ensures
            old(self).chunks().len() == 0 ==> r is None && final(self).chunks() == old(
                self,
            ).chunks(),
            old(self).chunks().len() > 0 ==> r is Some && r.unwrap()@ == old(self).chunks()[0]
                && (final(self).chunks() == old(self).chunks().update(0, final(r.unwrap())@) || (
            final(r.unwrap())@.len() == 0 && final(self).chunks() == old(
                self,
            ).chunks().drop_first())),
    ;

    /// Change the next `String` that will be popped by applying `f` to it;
    /// nothing happens when the source is empty.
    fn map_string<F: FnMut(&mut String)>(&mut self, f: F)
        requires
            forall|s: &mut String| #[trigger] f.requires((s,)),
        ensures
            old(self).chunks().len() == 0 ==> final(self).chunks() == old(self).chunks(),
            old(self).chunks().len() > 0 ==> exists|m: &mut String|
                #![trigger f.ensures((m,), ())]
                f.ensures((m,), ()) && (*m)@ == old(self).chunks()[0] && (final(self).chunks()
                    == old(self).chunks().update(0, (*final(m))@) || ((*final(m))@.len() == 0
                    && final(self).chunks() == old(self).chunks().drop_first())),
    {
        let mut f = f;
        match self.peek_mut_string() {
            Some(s) => {
                f(s);
            },
            None => {},
        }
    }
}

/// Write/insert operations with `&str`-type readers.
pub trait StrWrite<'a> {
    /// The chunks queued ahead of any fallback source.
    spec fn queued(&self) -> Seq<Seq<char>>;

    /// Insert a `&str` into the reader.
    ///
    /// The newly inserted `&str` will be the *last* item in the list.
    fn push_str(&'a mut self, s: &'a str)
        ensures
            final(self).queued() == old(self).queued().push(s@),
    ;

    /// Insert a `&str` into the reader.
    ///
    /// The newly inserted `&str` will be the *next* item to be returned.
    fn shift_str(&'a mut self, s: &'a str)
        ensures
            final(self).queued() == seq![s@] + old(self).queued(),
    ;
}

/// Write/insert operations with `String`-type readers.
pub trait StringWrite {
    /// The chunks queued ahead of any fallback source.
    spec fn queued(&self) -> Seq<Seq<char>>;

    /// Insert a `String` into the reader.
    ///
    /// The newly inserted `String` will be the *last* item in the list.
    fn push_string(&mut self, s: String)
        ensures
            final(self).queued() == old(self).queued().push(s@),
    ;

    /// Insert a `String` into the reader.
    ///
    /// The newly inserted `String` will be the *next* item to be returned.
    fn shift_string(&mut self, s: String)
        ensures
            final(self).queued() == seq![s@] + old(self).queued(),
    ;
}

impl StrRead for String {
    /// An owned string is one chunk, until it has been taken.
    open spec fn next_chunk(&self) -> Option<Seq<char>> {
        if self@.len() == 0 {
            None
        } else {
            Some(self@)
        }
    }

    fn peek_str(&self) -> (r: Option<&str>) {
        let s = self.as_str();
        if s.is_empty() {
            None
        } else {
            Some(s)
        }
    }
}

impl StringRead for String {
    open spec fn chunks(&self) -> Seq<Seq<char>> {
        if self@.len() == 0 {
            seq![]
        } else {
            seq![self@]
        }
    }

    proof fn lemma_next_is_first(&self) {
    }

    fn pop_string(&mut self) -> (r: Option<String>) {
        if self.as_str().is_empty() {
            None
        } else {
            let mut taken = String::new();
            core::mem::swap(self, &mut taken);
            Some(taken)
        }
    }

    fn peek_mut_string(&mut self) -> (r: Option<&mut String>) {
        if self.as_str().is_empty() {
            None
        } else {
            Some(self)
        }
    }
}

impl StrRead for str {
    /// A bare `str` is its own chunk, forever.
    open spec fn next_chunk(&self) -> Option<Seq<char>> {
        Some(self@)
    }

    fn peek_str(&self) -> (r: Option<&str>) {
        Some(self)
    }
}

impl RealStrRead for str {
    open spec fn chunk_at(&self, i: nat) -> Option<Seq<char>> {
        Some(self@)
    }

    proof fn lemma_next_is_first(&self) {
    }

    fn pop_str(&mut self) -> (r: Option<&str>) {
        Some(self)
    }
}

impl<R: StrRead + ?Sized> StrRead for Box<R> {
    open spec fn next_chunk(&self) -> Option<Seq<char>> {
        (**self).next_chunk()
    }

    fn peek_str(&self) -> (r: Option<&str>) {
        (**self).peek_str()
    }
}

impl<R: RealStrRead + ?Sized> RealStrRead for Box<R> {
    open spec fn chunk_at(&self, i: nat) -> Option<Seq<char>> {
        (**self).chunk_at(i)
    }

    proof fn lemma_next_is_first(&self) {
        (**self).lemma_next_is_first();
    }

    fn pop_str(&mut self) -> (r: Option<&str>) {
        (**self).pop_str()
    }
}

} // verus!
