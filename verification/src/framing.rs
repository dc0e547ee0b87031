//! Incremental line framing for the two output streams of the supervised
//! process.
//!
//! The stdout stream carries terminal-style progress output that overwrites
//! its line with bare carriage returns, so both `\r` and `\n` end a logical
//! line there; empty runs between delimiters are dropped, and so is a
//! trailing run that the stream ends without terminating.  The stderr stream
//! is framed on `\n` alone, a `\r` directly before the `\n` is stripped, and
//! empty lines are kept.

use vstd::prelude::*;

verus! {

/// True of the bytes that end a logical line of progress output: newline and
/// bare carriage return alike.
pub open spec fn is_progress_delim(b: u8) -> bool {
    b == 10 || b == 13
}

/// All maximal runs of non-delimiter bytes of `input`, in order: one segment
/// per gap between delimiters, the possibly empty ones and the trailing
/// unterminated one included.  Splitting `n` delimiters yields `n + 1`
/// segments.
pub open spec fn stdout_segments(input: Seq<u8>) -> Seq<Seq<u8>>
    decreases input.len(),
{
    if input.len() == 0 {
        seq![Seq::<u8>::empty()]
    } else if is_progress_delim(input[0]) {
        seq![Seq::<u8>::empty()] + stdout_segments(input.drop_first())
    } else {
        let rest = stdout_segments(input.drop_first());
        seq![seq![input[0]] + rest[0]] + rest.drop_first()
    }
}

/// The frames the stdout framer flushes while consuming `input` with the
/// bytes `pending` already buffered: a delimiter flushes a non-empty buffer
/// as one frame and is a no-op on an empty buffer; whatever remains buffered
/// at the end of `input` is not a frame.
pub open spec fn stdout_frames_from(input: Seq<u8>, pending: Seq<u8>) -> Seq<Seq<u8>>
    decreases input.len(),
{
    if input.len() == 0 {
        Seq::<Seq<u8>>::empty()
    } else if is_progress_delim(input[0]) {
        if pending.len() == 0 {
            stdout_frames_from(input.drop_first(), Seq::<u8>::empty())
        } else {
            seq![pending] + stdout_frames_from(input.drop_first(), Seq::<u8>::empty())
        }
    } else {
        stdout_frames_from(input.drop_first(), pending.push(input[0]))
    }
}

/// The bytes still buffered after the stdout framer has consumed `input`,
/// starting with `pending` buffered.
pub open spec fn stdout_pending_after(input: Seq<u8>, pending: Seq<u8>) -> Seq<u8>
    decreases input.len(),
{
    if input.len() == 0 {
        pending
    } else if is_progress_delim(input[0]) {
        stdout_pending_after(input.drop_first(), Seq::<u8>::empty())
    } else {
        stdout_pending_after(input.drop_first(), pending.push(input[0]))
    }
}

/// The frames a whole stdout stream produces.
pub open spec fn stdout_frames(input: Seq<u8>) -> Seq<Seq<u8>> {
    stdout_frames_from(input, Seq::<u8>::empty())
}

/// Byte accumulator for the stdout stream.  Its view is the buffered run of
/// bytes seen since the last delimiter; the buffer never contains a
/// delimiter byte.
pub struct StdoutFramer {
    buf: Vec<u8>,
}

impl View for StdoutFramer {
    type V = Seq<u8>;

    closed spec fn view(&self) -> Seq<u8> {
        self.buf@
    }
}

impl StdoutFramer {
    /// The buffer holds no delimiter byte.
    pub open spec fn wf(&self) -> bool {
        forall|i: int| 0 <= i < self@.len() ==> !is_progress_delim(#[trigger] self@[i])
    }

    pub fn new() -> (r: Self)
        ensures
            r@ == Seq::<u8>::empty(),
            r.wf(),
    {
        StdoutFramer { buf: Vec::new() }
    }

    /// Consumes one byte of the stream.  A delimiter flushes a non-empty
    /// buffer as one complete frame; any other byte is buffered.
    pub fn push_byte(&mut self, b: u8) -> (frame: Option<Vec<u8>>)
        requires
            old(self).wf(),
        ensures
            final(self).wf(),
            is_progress_delim(b) ==> final(self)@ == Seq::<u8>::empty(),
            is_progress_delim(b) && old(self)@.len() > 0 ==> (frame matches Some(f) && f@
                == old(self)@),
            is_progress_delim(b) && old(self)@.len() == 0 ==> frame is None,
            !is_progress_delim(b) ==> frame is None && final(self)@ == old(self)@.push(b),
    {
        if b == 10 || b == 13 {
            if self.buf.len() == 0 {
                None
            } else {
                let mut out: Vec<u8> = Vec::new();
                core::mem::swap(&mut self.buf, &mut out);
                Some(out)
            }
        } else {
            self.buf.push(b);
            None
        }
    }
}

/// Byte accumulator for the stderr stream, framed on `\n` alone.
pub struct StderrFramer {
    buf: Vec<u8>,
}

impl View for StderrFramer {
    type V = Seq<u8>;

    closed spec fn view(&self) -> Seq<u8> {
        self.buf@
    }
}

/// A line of the stderr stream with the `\r` of a `\r\n` pair removed.
pub open spec fn sans_trailing_cr(f: Seq<u8>) -> Seq<u8> {
    if f.len() > 0 && f[f.len() - 1] == 13 {
        f.drop_last()
    } else {
        f
    }
}


impl StderrFramer {
    pub fn new() -> (r: Self)
        ensures
            r@ == Seq::<u8>::empty(),
    {
        StderrFramer { buf: Vec::new() }
    }

    /// Consumes one byte of the stream.  A `\n` completes the buffered line,
    /// empty or not, with a directly preceding `\r` stripped.
    pub fn push_byte(&mut self, b: u8) -> (line: Option<Vec<u8>>)
        ensures
            b == 10 ==> final(self)@ == Seq::<u8>::empty() && (line matches Some(l) && l@
                == sans_trailing_cr(old(self)@)),
            b != 10 ==> line is None && final(self)@ == old(self)@.push(b),
    {
        if b == 10 {
            if self.buf.len() > 0 && self.buf[self.buf.len() - 1] == 13 {
                self.buf.pop();
            }
            let mut out: Vec<u8> = Vec::new();
            core::mem::swap(&mut self.buf, &mut out);
            Some(out)
        } else {
            self.buf.push(b);
            None
        }
    }

    /// Hands out the trailing line that the stream ended without
    /// terminating, if any.  Unlike on stdout such a fragment is kept, and
    /// no `\r` is stripped from it.
    pub fn finish(&mut self) -> (line: Option<Vec<u8>>)
        ensures
            final(self)@ == Seq::<u8>::empty(),
            old(self)@.len() > 0 ==> (line matches Some(l) && l@ == old(self)@),
            old(self)@.len() == 0 ==> line is None,
    {
        if self.buf.len() == 0 {
            None
        } else {
            let mut out: Vec<u8> = Vec::new();
            core::mem::swap(&mut self.buf, &mut out);
            Some(out)
        }
    }
}

/// Splitting yields at least one segment, whatever the input.
proof fn lemma_segments_len(input: Seq<u8>)
    ensures
        stdout_segments(input).len() >= 1,
    decreases input.len(),
{
    if input.len() == 0 {
    } else {
        lemma_segments_len(input.drop_first());
    }
}

/// Generalisation of [`lemma_stdout_frames_are_segments`] to a framer that
/// already holds a (delimiter-free) buffered run `pending`, which stands
/// before the first segment of the remaining input.
proof fn lemma_frames_from_segments(input: Seq<u8>, pending: Seq<u8>)
    requires
        forall|i: int| 0 <= i < pending.len() ==> !is_progress_delim(#[trigger] pending[i]),
    ensures
        stdout_frames_from(input, pending) == (seq![pending + stdout_segments(input)[0]]
            + stdout_segments(input).drop_first()).drop_last().filter(|s: Seq<u8>| s.len() > 0),
    decreases input.len(),
{
    reveal(Seq::filter);
    broadcast use Seq::filter_distributes_over_add;

    let pred = |s: Seq<u8>| s.len() > 0;
    if input.len() == 0 {
        let modified = seq![pending + stdout_segments(input)[0]] + stdout_segments(
            input,
        ).drop_first();
        assert(modified =~~= seq![pending]);
        assert(seq![pending].drop_last() =~~= Seq::<Seq<u8>>::empty());
        assert(Seq::<Seq<u8>>::empty().filter(pred) =~~= Seq::<Seq<u8>>::empty());
    } else {
        let rest = input.drop_first();
        let segsrest = stdout_segments(rest);
        lemma_segments_len(rest);
        if is_progress_delim(input[0]) {
            lemma_frames_from_segments(rest, Seq::<u8>::empty());
            assert(seq![Seq::<u8>::empty() + segsrest[0]] + segsrest.drop_first() =~~= segsrest);
            assert(stdout_frames_from(rest, Seq::<u8>::empty()) == segsrest.drop_last().filter(
                pred,
            ));
            let modified = seq![pending + stdout_segments(input)[0]] + stdout_segments(
                input,
            ).drop_first();
            assert(modified =~~= seq![pending] + segsrest);
            assert((seq![pending] + segsrest).drop_last() =~~= seq![pending]
                + segsrest.drop_last());
            assert(seq![pending].drop_last() =~~= Seq::<Seq<u8>>::empty());
            assert(Seq::<Seq<u8>>::empty().filter(pred) =~~= Seq::<Seq<u8>>::empty());
            assert(seq![pending].last() == pending);
            if pending.len() == 0 {
                assert(seq![pending].filter(pred) =~~= Seq::<Seq<u8>>::empty());
            } else {
                assert(seq![pending].filter(pred) =~~= seq![pending]);
            }
        } else {
            let b = input[0];
            let pending2 = pending.push(b);
            assert(forall|i: int|
                0 <= i < pending2.len() ==> !is_progress_delim(#[trigger] pending2[i]));
            lemma_frames_from_segments(rest, pending2);
            let modified = seq![pending + stdout_segments(input)[0]] + stdout_segments(
                input,
            ).drop_first();
            assert(stdout_segments(input)[0] == seq![b] + segsrest[0]);
            assert(stdout_segments(input).drop_first() =~~= segsrest.drop_first());
            assert(pending + (seq![b] + segsrest[0]) =~= pending2 + segsrest[0]);
            assert(modified =~~= seq![pending2 + segsrest[0]] + segsrest.drop_first());
        }
    }
}

/// The frames of a stdout stream are exactly its non-empty terminated
/// maximal runs, in order: a maximal run of bytes between two delimiters
/// yields one frame when non-empty and none when empty, and the trailing
/// unterminated run yields none.
pub proof fn lemma_stdout_frames_are_segments(input: Seq<u8>)
    ensures
        stdout_frames(input) == stdout_segments(input).drop_last().filter(
            |s: Seq<u8>| s.len() > 0,
        ),
{
    lemma_frames_from_segments(input, Seq::<u8>::empty());
    lemma_segments_len(input);
    let segs = stdout_segments(input);
    assert(seq![Seq::<u8>::empty() + segs[0]] + segs.drop_first() =~~= segs);
}

} // verus!
