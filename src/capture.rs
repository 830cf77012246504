//! The body capture state machine: a body streams through unchanged while a
//! copy of it is kept up to a size ceiling.
use vstd::prelude::*;

verus! {

/// The default capture ceiling: 1 MiB.
pub const MAX_SIZE: usize = 1048576;

/// What was kept of a body.
#[derive(Debug, Clone, PartialEq)]
pub enum BodyCapture {
    /// No byte was seen.
    Empty,
    /// The body was larger than the ceiling; nothing was kept.
    Dropped,
    /// The whole body.
    Captured(Vec<u8>),
}

/// The outcome that a body of bytes `seen` gets under `ceiling`, when a
/// declared length of `hinted_over` already exceeds it or not.
pub open spec fn capture_outcome_is(r: BodyCapture, seen: Seq<u8>, ceiling: nat, hinted_over: bool) -> bool {
    if hinted_over || seen.len() > ceiling {
        r is Dropped
    } else if seen.len() == 0 {
        r is Empty
    } else {
        r matches BodyCapture::Captured(b) && b@ == seen
    }
}

/// A body being captured.
pub struct BodyCaptureState {
    ceiling: usize,
    hinted_over: bool,
    dropped: bool,
    buffer: Vec<u8>,
    seen: Ghost<Seq<u8>>,
}

impl BodyCaptureState {
    /// Every byte seen so far, in order.
    pub closed spec fn seen(&self) -> Seq<u8> {
        self.seen@
    }

    pub closed spec fn ceiling(&self) -> nat {
        self.ceiling as nat
    }

    /// Whether the declared length already exceeded the ceiling.
    pub closed spec fn hinted_over(&self) -> bool {
        self.hinted_over
    }

    pub closed spec fn wf(&self) -> bool {
        &&& self.dropped <==> (self.hinted_over || self.seen@.len() > self.ceiling)
        &&& !self.dropped ==> self.buffer@ == self.seen@
        &&& self.dropped ==> self.buffer@.len() == 0
    }

    /// A capture under `ceiling`. A declared `content_length` above the
    /// ceiling drops the body before any byte arrives.
    pub fn new(ceiling: usize, content_length: Option<u64>) -> (r: BodyCaptureState)
        ensures
            r.wf(),
            r.seen() == Seq::<u8>::empty(),
            r.ceiling() == ceiling,
            r.hinted_over() == (content_length matches Some(n) && n > ceiling),
    {
        let hinted_over = match content_length {
            Some(n) => n > ceiling as u64,
            None => false,
        };
        BodyCaptureState { ceiling, hinted_over, dropped: hinted_over, buffer: Vec::new(), seen: Ghost(Seq::empty()) }
    }

    /// Takes the next chunk of the body and hands it on unchanged. Once the
    /// bytes seen exceed the ceiling, the copy is discarded and no more is kept.
    pub fn feed(&mut self, chunk: Vec<u8>) -> (out: Vec<u8>)
        requires
            old(self).wf(),
        ensures
            final(self).wf(),
            out@ == chunk@,
            final(self).seen() == old(self).seen() + chunk@,
            final(self).ceiling() == old(self).ceiling(),
            final(self).hinted_over() == old(self).hinted_over(),
    {
        self.seen = Ghost(self.seen@ + chunk@);
        if !self.dropped {
            if chunk.len() > self.ceiling - self.buffer.len() {
                self.dropped = true;
                self.buffer = Vec::new();
            } else {
                append_bytes(&mut self.buffer, &chunk);
            }
        }
        chunk
    }

    /// The outcome once the stream has ended.
    pub fn finish(self) -> (r: BodyCapture)
        requires
            self.wf(),
        ensures
            capture_outcome_is(r, self.seen(), self.ceiling(), self.hinted_over()),
    {
        if self.dropped {
            BodyCapture::Dropped
        } else if self.buffer.len() == 0 {
            BodyCapture::Empty
        } else {
            BodyCapture::Captured(self.buffer)
        }
    }
}

/// Appends the bytes of `src` to `dst`.
pub fn append_bytes(dst: &mut Vec<u8>, src: &Vec<u8>)
    ensures
        final(dst)@ == old(dst)@ + src@,
{
    let mut i: usize = 0;
    while i < src.len()
        invariant
            i <= src@.len(),
            dst@ == old(dst)@ + src@.take(i as int),
        decreases src@.len() - i,
    {
        dst.push(src[i]);
        assert(src@.take(i as int).push(src@[i as int]) =~= src@.take(i as int + 1));
        i = i + 1;
    }
    assert(src@.take(src@.len() as int) =~= src@);
}

/// The chunks of a stream, joined.
pub open spec fn joined(chunks: Seq<Vec<u8>>) -> Seq<u8>
    decreases chunks.len(),
{
    if chunks.len() == 0 {
        Seq::empty()
    } else {
        joined(chunks.drop_last()) + chunks.last()@
    }
}

/// Captures a whole stream of `chunks` under `ceiling`, and hands back what
/// the downstream consumer receives. Whatever the ceiling, every byte reaches
/// the consumer in order; a body of length `L` is kept whole when
/// `0 < L <= ceiling` and the declared length (if any) does not exceed the
/// ceiling, is dropped with nothing kept when `L > ceiling`, and is empty
/// when `L == 0`.
pub fn capture_stream(ceiling: usize, content_length: Option<u64>, chunks: Vec<Vec<u8>>) -> (r: (BodyCapture, Vec<u8>))
    ensures
        r.1@ == joined(chunks@),
        capture_outcome_is(r.0, joined(chunks@), ceiling as nat, content_length matches Some(n) && n > ceiling),
        joined(chunks@).len() > ceiling ==> r.0 is Dropped,
        (content_length is None || content_length == Some(joined(chunks@).len() as u64)) && 0 < joined(chunks@).len() <= ceiling
            ==> (r.0 matches BodyCapture::Captured(b) && b@ == joined(chunks@)),
{
    let mut state = BodyCaptureState::new(ceiling, content_length);
    let mut forwarded: Vec<u8> = Vec::new();
    let mut k: usize = 0;
    while k < chunks.len()
        invariant
            k <= chunks@.len(),
            state.wf(),
            state.ceiling() == ceiling,
            state.hinted_over() == (content_length matches Some(n) && n > ceiling),
            state.seen() == joined(chunks@.take(k as int)),
            forwarded@ == joined(chunks@.take(k as int)),
        decreases chunks@.len() - k,
    {
        assert(chunks@.take(k as int + 1).drop_last() =~= chunks@.take(k as int));
        let out = state.feed(chunks[k].clone());
        append_bytes(&mut forwarded, &out);
        k = k + 1;
    }
    assert(chunks@.take(chunks@.len() as int) =~= chunks@);
    (state.finish(), forwarded)
}

} // verus!
