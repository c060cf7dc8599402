//! Line framing of a received byte stream. A line is what stands before a
//! line feed; what follows the last line feed waits for more bytes.

use vstd::prelude::*;
use crate::helper_functions::{without_line_endings, LINE_FEED};

verus! {

/// A byte stream cut at its line feeds.
pub ghost struct Framing {
    /// The lines that a line feed has ended, in order, each without its line
    /// feed.
    pub lines: Seq<Seq<u8>>,
    /// The bytes after the last line feed: the beginning of a line that has
    /// not ended yet.
    pub pending: Seq<u8>,
}

/// Cuts `bytes` at every line feed, reading byte by byte.
pub open spec fn frame(bytes: Seq<u8>) -> Framing
    decreases bytes.len(),
{
    if bytes.len() == 0 {
        Framing { lines: Seq::empty(), pending: Seq::empty() }
    } else {
        let before = frame(bytes.drop_last());
        if bytes.last() == 10 {
            Framing { lines: before.lines.push(before.pending), pending: Seq::empty() }
        } else {
            Framing { lines: before.lines, pending: before.pending.push(bytes.last()) }
        }
    }
}

/// The lines of a stream that has ended: the lines that a line feed ended,
/// and after them what was left unterminated, unless that is nothing but
/// line-ending artifacts.
pub open spec fn stream_lines(bytes: Seq<u8>) -> Seq<Seq<u8>> {
    let cut = frame(bytes);
    if without_line_endings(cut.pending).len() > 0 {
        cut.lines.push(cut.pending)
    } else {
        cut.lines
    }
}

/// Whether no line feed occurs in `bytes`.
pub open spec fn free_of_line_feeds(bytes: Seq<u8>) -> bool {
    forall|i: int| 0 <= i < bytes.len() ==> bytes[i] != 10
}

/// The lines written out again, each followed by a line feed.
pub open spec fn joined(lines: Seq<Seq<u8>>) -> Seq<u8>
    decreases lines.len(),
{
    if lines.len() == 0 {
        Seq::empty()
    } else {
        joined(lines.drop_last()) + lines.last().push(10)
    }
}

/// Framing loses nothing and cuts at every line feed: the lines, each with
/// its line feed, followed by the pending bytes are the stream again, and no
/// line feed is left inside a line or in the pending bytes.
pub proof fn lemma_frame_reassembles(bytes: Seq<u8>)
    ensures
        joined(frame(bytes).lines) + frame(bytes).pending == bytes,
        free_of_line_feeds(frame(bytes).pending),
        forall|k: int|
            0 <= k < frame(bytes).lines.len() ==> free_of_line_feeds(
                #[trigger] frame(bytes).lines[k],
            ),
    decreases bytes.len(),
{
    if bytes.len() == 0 {
        assert(joined(frame(bytes).lines) + frame(bytes).pending =~= bytes);
    } else {
        let shorter = bytes.drop_last();
        let before = frame(shorter);
        lemma_frame_reassembles(shorter);
        if bytes.last() == 10 {
            assert(frame(bytes).lines.drop_last() =~= before.lines);
            assert(joined(frame(bytes).lines) + frame(bytes).pending =~= (joined(before.lines)
                + before.pending).push(10));
            assert(shorter.push(10) =~= bytes);
        } else {
            assert(joined(frame(bytes).lines) + frame(bytes).pending =~= (joined(before.lines)
                + before.pending).push(bytes.last()));
            assert(shorter.push(bytes.last()) =~= bytes);
        }
    }
}

/// Bytes without a line feed hold no complete line: all of them are pending.
pub proof fn lemma_frame_without_line_feed(bytes: Seq<u8>)
    requires
        free_of_line_feeds(bytes),
    ensures
        frame(bytes).lines == Seq::<Seq<u8>>::empty(),
        frame(bytes).pending == bytes,
    decreases bytes.len(),
{
    if bytes.len() == 0 {
        assert(frame(bytes).pending =~= bytes);
    } else {
        lemma_frame_without_line_feed(bytes.drop_last());
        assert(bytes.drop_last().push(bytes.last()) =~= bytes);
    }
}

/// A stream may be framed piece by piece: framing `first + second` gives the
/// lines of `first`, then what framing gives for the pending bytes of
/// `first` followed by `second`.
pub proof fn lemma_frame_is_incremental(first: Seq<u8>, second: Seq<u8>)
    ensures
        frame(first + second).lines == frame(first).lines + frame(
            frame(first).pending + second,
        ).lines,
        frame(first + second).pending == frame(frame(first).pending + second).pending,
    decreases second.len(),
{
    let carried = frame(first).pending;
    if second.len() == 0 {
        lemma_frame_reassembles(first);
        lemma_frame_without_line_feed(carried);
        assert(first + second =~= first);
        assert(carried + second =~= carried);
        assert(frame(first).lines + Seq::<Seq<u8>>::empty() =~= frame(first).lines);
    } else {
        let shorter = second.drop_last();
        lemma_frame_is_incremental(first, shorter);
        assert((first + second).drop_last() =~= first + shorter);
        assert((carried + second).drop_last() =~= carried + shorter);
        assert((first + second).last() == second.last());
        assert((carried + second).last() == second.last());
        if second.last() == 10 {
            assert(frame(first + second).lines =~= frame(first).lines + frame(
                carried + second,
            ).lines);
        }
    }
}

/// The receiving end of a line-framed stream: it is fed the bytes as they
/// arrive, in pieces of any size, and hands out each line once it is
/// complete.
pub struct LineFramer {
    pending: Vec<u8>,
}

impl View for LineFramer {
    type V = Seq<u8>;

    /// The bytes received since the last line feed.
    closed spec fn view(&self) -> Seq<u8> {
        self.pending@
    }
}

impl LineFramer {
    #[verifier::type_invariant]
    spec fn holds_no_line_feed(self) -> bool {
        free_of_line_feeds(self.pending@)
    }

    /// A framer that has received nothing.
    pub fn new() -> (framer: Self)
        ensures
            framer@ == Seq::<u8>::empty(),
    {
        LineFramer { pending: Vec::new() }
    }

    /// Takes the next piece of the stream. Returns the lines that this piece
    /// completes, in order and without their line feeds; the rest stays
    /// pending.
    pub fn feed(&mut self, chunk: &[u8]) -> (lines: Vec<Vec<u8>>)
        ensures
            lines@.len() == frame(old(self)@ + chunk@).lines.len(),
            forall|k: int|
                0 <= k < lines@.len() ==> (#[trigger] lines@[k])@ == frame(
                    old(self)@ + chunk@,
                ).lines[k],
            final(self)@ == frame(old(self)@ + chunk@).pending,
    {
        proof {
            use_type_invariant(&*self);
            lemma_frame_without_line_feed(self.pending@);
        }
        let mut lines: Vec<Vec<u8>> = Vec::new();
        let mut current: Vec<u8> = Vec::new();
        std::mem::swap(&mut current, &mut self.pending);
        let mut at: usize = 0;
        assert(old(self)@ + chunk@.subrange(0, 0) =~= old(self)@);
        while at < chunk.len()
            invariant
                at <= chunk@.len(),
                self.pending@ == Seq::<u8>::empty(),
                lines@.len() == frame(old(self)@ + chunk@.subrange(0, at as int)).lines.len(),
                forall|k: int|
                    0 <= k < lines@.len() ==> (#[trigger] lines@[k])@ == frame(
                        old(self)@ + chunk@.subrange(0, at as int),
                    ).lines[k],
                current@ == frame(old(self)@ + chunk@.subrange(0, at as int)).pending,
            decreases chunk@.len() - at,
        {
            let byte = chunk[at];
            proof {
                let seen = old(self)@ + chunk@.subrange(0, at as int);
                let now = old(self)@ + chunk@.subrange(0, at + 1);
                assert(now.drop_last() =~= seen);
                assert(now.last() == byte);
            }
            if byte == LINE_FEED {
                let mut done: Vec<u8> = Vec::new();
                std::mem::swap(&mut done, &mut current);
                lines.push(done);
            } else {
                current.push(byte);
            }
            at = at + 1;
        }
        proof {
            assert(chunk@.subrange(0, at as int) =~= chunk@);
            lemma_frame_reassembles(old(self)@ + chunk@);
        }
        self.pending = current;
        lines
    }

    /// Ends the stream. Returns the unterminated last line, if it holds more
    /// than line-ending artifacts, and leaves nothing pending.
    pub fn finish(&mut self) -> (last: Option<Vec<u8>>)
        ensures
            final(self)@ == Seq::<u8>::empty(),
            match last {
                Some(line) => without_line_endings(old(self)@).len() > 0 && line@ == old(self)@,
                None => without_line_endings(old(self)@).len() == 0,
            },
    {
        let mut rest: Vec<u8> = Vec::new();
        std::mem::swap(&mut rest, &mut self.pending);
        let kept = crate::helper_functions::strip_line_endings(rest.as_slice()).len();
        if kept > 0 {
            Some(rest)
        } else {
            None
        }
    }

    /// Number of bytes that wait for their line feed.
    pub fn pending_len(&self) -> (n: usize)
        ensures
            n == self@.len(),
    {
        self.pending.len()
    }
}

} // verus!
