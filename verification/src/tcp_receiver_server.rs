//! The line ingestion server: it receives newline-delimited JSON over one
//! outbound connection and forwards every well-formed message to a queue.

use vstd::prelude::*;
use vstd::utf8::{decode_utf8, encode_utf8, encode_utf8_decode_utf8, valid_utf8};
use crate::framing::{frame, stream_lines, LineFramer};
use crate::helper_functions::{
    lemma_strip_is_idempotent, strip_line_endings, without_line_endings,
};
use crate::message::{parsed, JsonError, Message};
use crate::queue::{
    lemma_offer_all_concat, lemma_offer_all_push, lemma_offer_all_with_room, BoundedQueue,
    QueueState, SendError,
};

verus! {

/// Calls `std::str::from_utf8`. Trusted: it succeeds exactly on valid UTF-8,
/// and the text it returns is the text that the given bytes encode.
#[verifier::external_body]
fn str_from_utf8(bytes: &[u8]) -> (r: Option<&str>)
    ensures
        r is Some <==> valid_utf8(bytes@),
        r matches Some(text) ==> encode_utf8(text@) == bytes@,
{
    std::str::from_utf8(bytes).ok()
}

/// Why a received line gave no message.
#[derive(Debug)]
pub enum LineError {
    /// The line is not UTF-8 text.
    InvalidUtf8,
    /// The line is text, but not one well-formed JSON value.
    Malformed(JsonError),
}

/// What became of one received line.
#[derive(Debug)]
pub enum LineOutcome {
    /// The line held a message, and the queue took it.
    Forwarded,
    /// The line held a message, but the queue turned it away: the message
    /// is lost.
    Dropped(SendError),
    /// The line held no message and was skipped.
    Rejected(LineError),
}

/// The text of a received line: the line without its line-ending artifacts,
/// read as UTF-8, if it is UTF-8.
pub open spec fn line_text(line: Seq<u8>) -> Option<Seq<char>> {
    let stripped = without_line_endings(line);
    if valid_utf8(stripped) {
        Some(decode_utf8(stripped))
    } else {
        None
    }
}

/// The message on a received line, if the line holds one.
pub open spec fn line_message(line: Seq<u8>) -> Option<Message> {
    match line_text(line) {
        Some(text) => parsed(text),
        None => None,
    }
}

/// The messages on the given lines, in order; lines without a message are
/// passed over.
pub open spec fn messages_of(lines: Seq<Seq<u8>>) -> Seq<Message>
    decreases lines.len(),
{
    if lines.len() == 0 {
        Seq::empty()
    } else {
        match line_message(lines.last()) {
            Some(message) => messages_of(lines.drop_last()).push(message),
            None => messages_of(lines.drop_last()),
        }
    }
}

/// The queue after the given lines were ingested one after the other: each
/// message found is offered to the queue, which takes it or drops it.
pub open spec fn ingest(queue: QueueState<Message>, lines: Seq<Seq<u8>>) -> QueueState<Message> {
    queue.offer_all(messages_of(lines))
}

impl LineOutcome {
    /// Whether this is the outcome of ingesting `line` into a queue in state
    /// `queue`. Exactly one kind of outcome fits each line and queue.
    pub open spec fn fits(self, queue: QueueState<Message>, line: Seq<u8>) -> bool {
        match self {
            LineOutcome::Forwarded => line_message(line) is Some && queue.accepts(),
            LineOutcome::Dropped(reason) => line_message(line) is Some && queue.verdict() == Err::<
                (),
                SendError,
            >(reason),
            LineOutcome::Rejected(LineError::InvalidUtf8) => line_text(line) is None,
            LineOutcome::Rejected(LineError::Malformed(_)) => line_text(line) is Some
                && line_message(line) is None,
        }
    }
}

/// While the queue is open and has room for every line, ingestion loses
/// nothing: the messages of the lines are appended to the queue, in order.
pub proof fn lemma_ingest_with_room(queue: QueueState<Message>, lines: Seq<Seq<u8>>)
    requires
        !queue.closed,
        queue.items.len() + lines.len() <= queue.capacity,
    ensures
        ingest(queue, lines).items == queue.items + messages_of(lines),
{
    lemma_messages_of_len(lines);
    lemma_offer_all_with_room(queue, messages_of(lines));
}

/// Line-ending artifacts at the end of a line do not count: with or without
/// them the line holds the same text and the same message.
pub proof fn lemma_trailing_artifacts_are_ignored(line: Seq<u8>)
    ensures
        line_text(line.push(13)) == line_text(line),
        line_text(line.push(10)) == line_text(line),
        line_message(line.push(13)) == line_message(line),
        line_message(line.push(10)) == line_message(line),
        line_message(without_line_endings(line)) == line_message(line),
{
    assert(line.push(13).drop_last() =~= line);
    assert(line.push(10).drop_last() =~= line);
    lemma_strip_is_idempotent(line);
}

/// A stream may be ingested piece by piece: the messages of `first + second`
/// are those of `first` followed by those of `second`, and ingesting all the
/// lines at once is ingesting `second` into the queue that `first` has left.
pub proof fn lemma_ingest_is_incremental(
    queue: QueueState<Message>,
    first: Seq<Seq<u8>>,
    second: Seq<Seq<u8>>,
)
    ensures
        messages_of(first + second) == messages_of(first) + messages_of(second),
        ingest(queue, first + second) == ingest(ingest(queue, first), second),
    decreases second.len(),
{
    if second.len() == 0 {
        assert(first + second =~= first);
        assert(messages_of(first) + messages_of(second) =~= messages_of(first));
    } else {
        lemma_ingest_is_incremental(queue, first, second.drop_last());
        assert((first + second).drop_last() =~= first + second.drop_last());
        assert((first + second).last() == second.last());
        assert(messages_of(first + second) =~= messages_of(first) + messages_of(second));
    }
    lemma_offer_all_concat(queue, messages_of(first), messages_of(second));
}

/// No line holds more than one message.
pub proof fn lemma_messages_of_len(lines: Seq<Seq<u8>>)
    ensures
        messages_of(lines).len() <= lines.len(),
    decreases lines.len(),
{
    if lines.len() > 0 {
        lemma_messages_of_len(lines.drop_last());
    }
}

/// Reads the message on one received line.
pub fn parse_line(line: &[u8]) -> (r: Result<Message, LineError>)
    ensures
        match r {
            Ok(message) => line_message(line@) == Some(message),
            Err(LineError::InvalidUtf8) => line_text(line@) is None,
            Err(LineError::Malformed(_)) => line_text(line@) is Some && line_message(line@) is None,
        },
{
    let stripped = strip_line_endings(line);
    match str_from_utf8(stripped) {
        None => Err(LineError::InvalidUtf8),
        Some(text) => {
            proof {
                encode_utf8_decode_utf8(text@);
            }
            match Message::parse(text) {
                Ok(message) => Ok(message),
                Err(e) => Err(LineError::Malformed(e)),
            }
        },
    }
}

/// Ingests one received line into the queue.
pub fn ingest_line(line: &[u8], channel: &mut BoundedQueue<Message>) -> (outcome: LineOutcome)
    ensures
        final(channel)@ == match line_message(line@) {
            Some(message) => old(channel)@.offer(message),
            None => old(channel)@,
        },
        outcome.fits(old(channel)@, line@),
{
    match parse_line(line) {
        Ok(message) => match channel.try_send(message) {
            Ok(()) => LineOutcome::Forwarded,
            Err(reason) => LineOutcome::Dropped(reason),
        },
        Err(e) => LineOutcome::Rejected(e),
    }
}

/// Ingests complete lines, in order, into the queue.
pub fn ingest_lines(lines: &Vec<Vec<u8>>, channel: &mut BoundedQueue<Message>) -> (outcomes: Vec<
    LineOutcome,
>)
    ensures
        final(channel)@ == ingest(old(channel)@, line_views(lines@)),
        outcomes@.len() == lines@.len(),
        forall|k: int|
            0 <= k < lines@.len() ==> (#[trigger] outcomes@[k]).fits(
                ingest(old(channel)@, line_views(lines@).take(k)),
                lines@[k]@,
            ),
{
    let mut outcomes: Vec<LineOutcome> = Vec::new();
    let mut at: usize = 0;
    let ghost all = line_views(lines@);
    while at < lines.len()
        invariant
            at <= lines@.len(),
            all == line_views(lines@),
            channel@ == ingest(old(channel)@, all.take(at as int)),
            outcomes@.len() == at,
            forall|k: int|
                0 <= k < at ==> (#[trigger] outcomes@[k]).fits(
                    ingest(old(channel)@, all.take(k)),
                    lines@[k]@,
                ),
        decreases lines@.len() - at,
    {
        let outcome = ingest_line(lines[at].as_slice(), channel);
        proof {
            let upto = all.take(at + 1);
            assert(upto.drop_last() =~= all.take(at as int));
            assert(upto.last() == lines@[at as int]@);
            match line_message(upto.last()) {
                Some(message) => {
                    lemma_offer_all_push(
                        old(channel)@,
                        messages_of(all.take(at as int)),
                        message,
                    );
                },
                None => {},
            }
        }
        outcomes.push(outcome);
        at = at + 1;
    }
    proof {
        assert(all.take(at as int) =~= all);
    }
    outcomes
}

/// The byte contents of a list of lines, in order.
pub open spec fn line_views(lines: Seq<Vec<u8>>) -> Seq<Seq<u8>> {
    Seq::new(lines.len(), |k: int| lines[k]@)
}

/// A line ingestion server: where it connects to, and the protocol family it
/// is labelled with.
#[derive(Debug)]
pub struct TCPReceiverServer {
    pub host: String,
    pub proto_name: String,
}

impl TCPReceiverServer {
    /// Takes the next piece of the received stream: every line that the
    /// piece completes is ingested into `channel`; the rest waits in
    /// `framer`. Returns the outcome of each completed line, in order.
    pub fn receive(
        &self,
        framer: &mut LineFramer,
        chunk: &[u8],
        channel: &mut BoundedQueue<Message>,
    ) -> (outcomes: Vec<LineOutcome>)
        ensures
            final(framer)@ == frame(old(framer)@ + chunk@).pending,
            final(channel)@ == ingest(old(channel)@, frame(old(framer)@ + chunk@).lines),
            outcomes@.len() == frame(old(framer)@ + chunk@).lines.len(),
            forall|k: int|
                0 <= k < outcomes@.len() ==> (#[trigger] outcomes@[k]).fits(
                    ingest(old(channel)@, frame(old(framer)@ + chunk@).lines.take(k)),
                    frame(old(framer)@ + chunk@).lines[k],
                ),
    {
        let lines = framer.feed(chunk);
        proof {
            assert(line_views(lines@) =~= frame(old(framer)@ + chunk@).lines);
        }
        ingest_lines(&lines, channel)
    }

    /// Runs the server over a whole received stream, from its first byte to
    /// its end: the stream is cut into lines, and the message on every
    /// well-formed line is offered to `channel`, in order. A line without a
    /// message is skipped; a message that the queue turns away is dropped.
    /// Returns the outcome of each line, in order.
    pub fn run(self, stream: &[u8], channel: &mut BoundedQueue<Message>) -> (outcomes: Vec<
        LineOutcome,
    >)
        ensures
            final(channel)@ == ingest(old(channel)@, stream_lines(stream@)),
            outcomes@.len() == stream_lines(stream@).len(),
            forall|k: int|
                0 <= k < outcomes@.len() ==> (#[trigger] outcomes@[k]).fits(
                    ingest(old(channel)@, stream_lines(stream@).take(k)),
                    stream_lines(stream@)[k],
                ),
    {
        let mut framer = LineFramer::new();
        let mut lines = framer.feed(stream);
        proof {
            assert(Seq::<u8>::empty() + stream@ =~= stream@);
        }
        match framer.finish() {
            Some(last) => {
                lines.push(last);
            },
            None => {},
        }
        proof {
            assert(line_views(lines@) =~= stream_lines(stream@));
        }
        ingest_lines(&lines, channel)
    }
}

} // verus!
