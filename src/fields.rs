//! Splitting a byte stream into space-delimited fields, chunk by chunk.
use vstd::prelude::*;

verus! {

/// The single delimiter between fields.
pub const SPACE: u8 = 0x20;

/// The pieces of `s` between delimiters, always one more than the number of
/// delimiters; the last piece is the (possibly empty) unterminated tail.
pub open spec fn pieces(s: Seq<u8>) -> Seq<Seq<u8>>
    decreases s.len(),
{
    if s.len() == 0 {
        seq![Seq::empty()]
    } else {
        let p = pieces(s.drop_last());
        if s.last() == SPACE {
            p.push(Seq::empty())
        } else {
            p.update(p.len() - 1, p.last().push(s.last()))
        }
    }
}

/// The fields of `s`: every piece, except that an empty unterminated tail
/// (the end of an empty stream, or of one ending in a delimiter) is not a
/// field. Empty fields between two delimiters are kept.
pub open spec fn fields(s: Seq<u8>) -> Seq<Seq<u8>> {
    if s.len() == 0 || s.last() == SPACE {
        pieces(s).drop_last()
    } else {
        pieces(s)
    }
}

/// There is always a last piece, and it is empty exactly when the stream is
/// empty or ends in a delimiter.
pub proof fn lemma_pieces_len(s: Seq<u8>)
    ensures
        pieces(s).len() >= 1,
        pieces(s).last().len() == 0 <==> (s.len() == 0 || s.last() == SPACE),
    decreases s.len(),
{
    if s.len() > 0 {
        lemma_pieces_len(s.drop_last());
    }
}

/// The number of delimiters in `s`.
pub open spec fn delimiters(s: Seq<u8>) -> nat
    decreases s.len(),
{
    if s.len() == 0 {
        0
    } else {
        delimiters(s.drop_last()) + if s.last() == SPACE { 1nat } else { 0nat }
    }
}

/// A stream has one field per delimiter, plus one more when it ends in
/// anything but a delimiter.
pub proof fn lemma_field_count(s: Seq<u8>)
    ensures
        fields(s).len() == delimiters(s) + if s.len() > 0 && s.last() != SPACE { 1nat } else { 0nat },
{
    lemma_pieces_count(s);
    lemma_pieces_len(s);
}

proof fn lemma_pieces_count(s: Seq<u8>)
    ensures
        pieces(s).len() == delimiters(s) + 1,
    decreases s.len(),
{
    if s.len() > 0 {
        lemma_pieces_count(s.drop_last());
    }
}

/// The contents of each buffer in `v`.
pub open spec fn views(v: Seq<Vec<u8>>) -> Seq<Seq<u8>> {
    v.map_values(|f: Vec<u8>| f@)
}

/// Cuts a stream into fields as its bytes arrive, holding only the field
/// under construction.
pub struct Splitter {
    pending: Vec<u8>,
    consumed: Ghost<Seq<u8>>,
    emitted: Ghost<Seq<Seq<u8>>>,
}

impl Splitter {
    /// All bytes fed so far.
    pub closed spec fn consumed(&self) -> Seq<u8> {
        self.consumed@
    }

    /// All fields handed out so far, in stream order.
    pub closed spec fn emitted(&self) -> Seq<Seq<u8>> {
        self.emitted@
    }

    pub closed spec fn wf(&self) -> bool {
        self.emitted@.push(self.pending@) == pieces(self.consumed@)
    }

    pub fn new() -> (r: Splitter)
        ensures
            r.wf(),
            r.consumed() == Seq::<u8>::empty(),
            r.emitted() == Seq::<Seq<u8>>::empty(),
    {
        let r = Splitter { pending: Vec::new(), consumed: Ghost(Seq::empty()), emitted: Ghost(Seq::empty()) };
        assert(r.emitted@.push(r.pending@) =~= pieces(r.consumed@));
        r
    }

    /// Feeds the next chunk of the stream; returns the fields it completed.
    pub fn feed(&mut self, chunk: &[u8]) -> (done: Vec<Vec<u8>>)
        requires
            old(self).wf(),
        ensures
            final(self).wf(),
            final(self).consumed() == old(self).consumed() + chunk@,
            final(self).emitted() == old(self).emitted() + views(done@),
    {
        let mut done: Vec<Vec<u8>> = Vec::new();
        let ghost start = self.consumed@;
        let ghost before = self.emitted@;
        let mut i: usize = 0;
        assert(start + chunk@.take(0) =~= start);
        assert(views(done@) =~= Seq::<Seq<u8>>::empty());
        assert(before + views(done@) =~= before);
        while i < chunk.len()
            invariant
                self.wf(),
                i <= chunk.len(),
                self.consumed@ == start + chunk@.take(i as int),
                self.emitted@ == before + views(done@),
            decreases chunk.len() - i,
        {
            let b = chunk[i];
            let ghost prev = self.consumed@;
            let ghost next = prev.push(b);
            assert(next.drop_last() =~= prev);
            assert(start + chunk@.take(i + 1) =~= next);
            if b == SPACE {
                let mut field: Vec<u8> = Vec::new();
                std::mem::swap(&mut field, &mut self.pending);
                proof {
                    assert(field@ == pieces(prev).last());
                }
                let ghost done_before = views(done@);
                done.push(field);
                self.emitted = Ghost(self.emitted@.push(field@));
                assert(views(done@) =~= done_before.push(field@));
                assert(self.emitted@.push(self.pending@) =~= pieces(next));
            } else {
                self.pending.push(b);
                assert(self.emitted@.push(self.pending@) =~= pieces(next));
            }
            self.consumed = Ghost(next);
            i = i + 1;
        }
        done
    }

    /// Ends the stream; returns its last field, if it has one that no
    /// delimiter closed.
    pub fn finish(self) -> (last: Option<Vec<u8>>)
        requires
            self.wf(),
        ensures
            match last {
                Some(f) => self.emitted().push(f@) == fields(self.consumed()),
                None => self.emitted() == fields(self.consumed()),
            },
    {
        proof {
            lemma_pieces_len(self.consumed@);
            assert(self.emitted@ =~= self.emitted@.push(self.pending@).drop_last());
        }
        if self.pending.len() == 0 {
            None
        } else {
            Some(self.pending)
        }
    }
}

/// The fields of a stream held whole in memory.
pub fn split_fields(bytes: &[u8]) -> (r: Vec<Vec<u8>>)
    ensures
        views(r@) == fields(bytes@),
{
    let mut sp = Splitter::new();
    let mut r = sp.feed(bytes);
    assert(sp.consumed() =~= bytes@);
    assert(sp.emitted() =~= views(r@));
    match sp.finish() {
        Some(f) => {
            let ghost before = views(r@);
            r.push(f);
            assert(views(r@) =~= before.push(f@));
        },
        None => {},
    }
    r
}


} // verus!
