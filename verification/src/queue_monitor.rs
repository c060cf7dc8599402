//! The queue monitor of one protocol family: it owns the queue of every sink
//! of the family and hands each processed message to all of them. A sink
//! that cannot take a message loses that message and no other sink does.

use vstd::prelude::*;
use crate::message::{encoded, JsonError, Message};
use crate::queue::{lemma_offer_all_with_room, BoundedQueue, QueueState, SendError};
use crate::sender_servers::{ProtocolFamily, SinkStart, SinkStartView};
use crate::udp_sender_server::{
    broadcast_plan, datagram_views, Datagram, UDPSenderServer, UdpSenderView,
};

verus! {

/// A sink that turned a message away, by its position among the sinks of its
/// family, with the reason.
#[derive(Clone, Copy, Debug, PartialEq, Eq, Structural)]
pub struct SinkFailure {
    pub sink: usize,
    pub error: SendError,
}

/// What the UDP sender of a family is to do with a message.
#[derive(Debug)]
pub enum UdpDelivery {
    /// The family has no UDP sender.
    NoSender,
    /// These datagrams are to be sent, each on its own.
    Send(Vec<Datagram>),
    /// The message could not be encoded; nothing is to be sent.
    Unserializable(JsonError),
}

/// The account of one message handed to the sinks of a family.
#[derive(Debug)]
pub struct DispatchReport {
    /// What the UDP sender is to send.
    pub udp: UdpDelivery,
    /// The sinks that turned the message away, in the order of the sinks.
    pub failures: Vec<SinkFailure>,
}

/// The queues after one message was offered to each of them: every queue
/// takes it or drops it on its own account.
pub open spec fn fan_out(queues: Seq<QueueState<Message>>, message: Message) -> Seq<
    QueueState<Message>,
> {
    Seq::new(queues.len(), |i: int| queues[i].offer(message))
}

/// The queues after the given messages were each handed to all of them, one
/// message after the other.
pub open spec fn fan_out_all(queues: Seq<QueueState<Message>>, messages: Seq<Message>) -> Seq<
    QueueState<Message>,
>
    decreases messages.len(),
{
    if messages.len() == 0 {
        queues
    } else {
        fan_out(fan_out_all(queues, messages.drop_last()), messages.last())
    }
}

/// The queues that turn an offer away, in order, each with its reason.
pub open spec fn rejections(queues: Seq<QueueState<Message>>) -> Seq<SinkFailure>
    decreases queues.len(),
{
    if queues.len() == 0 {
        Seq::empty()
    } else {
        let earlier = rejections(queues.drop_last());
        match queues.last().verdict() {
            Ok(_) => earlier,
            Err(error) => earlier.push(SinkFailure { sink: (queues.len() - 1) as usize, error }),
        }
    }
}

/// What a UDP sender, if there is one, is to do with a message: one
/// datagram with the encoded message for each of its destinations.
pub open spec fn udp_delivery_fits(
    delivery: UdpDelivery,
    udp: Option<UdpSenderView>,
    message: Message,
) -> bool {
    match delivery {
        UdpDelivery::NoSender => udp is None,
        UdpDelivery::Send(datagrams) => udp matches Some(sender) && encoded(message) matches Some(
            payload,
        ) && datagram_views(datagrams@) == broadcast_plan(sender.destinations, payload),
        UdpDelivery::Unserializable(_) => udp is Some && encoded(message) is None,
    }
}

/// One sink of a family: what it is, and the queue that feeds it.
struct Sink {
    start: SinkStart,
    queue: BoundedQueue<Message>,
}

/// What a queue monitor is, to the contracts.
pub ghost struct MonitorView {
    /// The family it serves.
    pub family: ProtocolFamily,
    /// The UDP sender of the family, if it has one.
    pub udp: Option<UdpSenderView>,
    /// What each sink is, in order.
    pub starts: Seq<SinkStartView>,
    /// The queue of each sink, in the same order.
    pub queues: Seq<QueueState<Message>>,
}

impl MonitorView {
    /// The monitor after it dispatched one message: only the queues change.
    pub open spec fn after_dispatch(self, message: Message) -> MonitorView {
        MonitorView { queues: fan_out(self.queues, message), ..self }
    }

    /// The monitor after it dispatched the given messages in order.
    pub open spec fn after_all(self, messages: Seq<Message>) -> MonitorView {
        MonitorView { queues: fan_out_all(self.queues, messages), ..self }
    }

    /// The monitor after it shut down: every sink queue is closed, and what
    /// waits in the queues can still be sent.
    pub open spec fn after_shut_down(self) -> MonitorView {
        MonitorView {
            queues: Seq::new(self.queues.len(), |i: int| self.queues[i].after_close()),
            ..self
        }
    }

    /// The monitor after it ran on a queue of processed messages in state
    /// `processed`: every waiting message was dispatched, oldest first, and
    /// if the queue was closed, so that no message will follow, the monitor
    /// shut down.
    pub open spec fn after_run(self, processed: QueueState<Message>) -> MonitorView {
        if processed.closed {
            self.after_all(processed.items).after_shut_down()
        } else {
            self.after_all(processed.items)
        }
    }
}

impl DispatchReport {
    /// Whether this is the account of dispatching `message` from a monitor
    /// in state `monitor`.
    pub open spec fn fits(self, monitor: MonitorView, message: Message) -> bool {
        &&& udp_delivery_fits(self.udp, monitor.udp, message)
        &&& self.failures@ == rejections(monitor.queues)
    }
}

/// The queue monitor of one protocol family: it owns the sink queues of the
/// family and hands every processed message to the UDP sender, if there is
/// one, and to each sink queue.
pub struct QueueMonitor {
    family: ProtocolFamily,
    udp: Option<UDPSenderServer>,
    sinks: Vec<Sink>,
}

impl View for QueueMonitor {
    type V = MonitorView;

    closed spec fn view(&self) -> MonitorView {
        MonitorView {
            family: self.family,
            udp: match self.udp {
                Some(sender) => Some(sender@),
                None => None,
            },
            starts: Seq::new(self.sinks@.len(), |i: int| self.sinks@[i].start@),
            queues: Seq::new(self.sinks@.len(), |i: int| self.sinks@[i].queue@),
        }
    }
}

impl QueueMonitor {
    /// A monitor without sink queues.
    pub fn new(family: ProtocolFamily, udp: Option<UDPSenderServer>) -> (monitor: Self)
        ensures
            monitor@.family == family,
            monitor@.udp == match udp {
                Some(sender) => Some(sender@),
                None => None,
            },
            monitor@.starts == Seq::<SinkStartView>::empty(),
            monitor@.queues == Seq::<QueueState<Message>>::empty(),
    {
        let monitor = QueueMonitor { family, udp, sinks: Vec::new() };
        assert(monitor@.starts =~= Seq::<SinkStartView>::empty());
        assert(monitor@.queues =~= Seq::<QueueState<Message>>::empty());
        monitor
    }

    /// Adds a sink with a fresh queue of the given capacity after the sinks
    /// that are there. Returns the position of the new sink.
    pub fn add_sink(&mut self, start: SinkStart, capacity: usize) -> (position: usize)
        ensures
            position == old(self)@.queues.len(),
            final(self)@ == (MonitorView {
                starts: old(self)@.starts.push(start@),
                queues: old(self)@.queues.push(QueueState::fresh(capacity as nat)),
                ..old(self)@
            }),
    {
        let position = self.sinks.len();
        self.sinks.push(Sink { start, queue: BoundedQueue::new(capacity) });
        assert(self@.starts =~= old(self)@.starts.push(start@));
        assert(self@.queues =~= old(self)@.queues.push(QueueState::fresh(capacity as nat)));
        position
    }

    /// Every sink has exactly one queue.
    pub proof fn lemma_one_queue_per_sink(&self)
        ensures
            self@.starts.len() == self@.queues.len(),
    {
    }

    /// The family that the monitor serves.
    pub fn family(&self) -> (family: ProtocolFamily)
        ensures
            family == self@.family,
    {
        self.family
    }

    /// The UDP sender of the family, if it has one.
    pub fn udp(&self) -> (udp: &Option<UDPSenderServer>)
        ensures
            self@.udp == match *udp {
                Some(sender) => Some(sender@),
                None => None,
            },
    {
        &self.udp
    }

    /// Number of sink queues.
    pub fn sink_count(&self) -> (count: usize)
        ensures
            count == self@.queues.len(),
            count == self@.starts.len(),
    {
        self.sinks.len()
    }

    /// What the sink at `position` is, if there is one.
    pub fn sink_start(&self, position: usize) -> (start: Option<&SinkStart>)
        ensures
            match start {
                Some(s) => position < self@.starts.len() && s@ == self@.starts[position as int],
                None => position >= self@.starts.len(),
            },
    {
        if position < self.sinks.len() {
            Some(&self.sinks[position].start)
        } else {
            None
        }
    }

    /// Hands one message to the family's sinks. The UDP sender, if there is
    /// one, comes first; then every sink queue is offered a copy of its own,
    /// in order. A queue that is full or closed drops its copy and is
    /// reported; the others are served all the same.
    pub fn dispatch(&mut self, message: &Message) -> (report: DispatchReport)
        ensures
            final(self)@ == old(self)@.after_dispatch(*message),
            report.fits(old(self)@, *message),
    {
        let udp = match &self.udp {
            None => UdpDelivery::NoSender,
            Some(sender) => match sender.send_message(message) {
                Ok(datagrams) => UdpDelivery::Send(datagrams),
                Err(e) => UdpDelivery::Unserializable(e),
            },
        };
        let mut failures: Vec<SinkFailure> = Vec::new();
        let mut at: usize = 0;
        assert(old(self)@.queues.take(0) =~= Seq::<QueueState<Message>>::empty());
        while at < self.sinks.len()
            invariant
                at <= self.sinks@.len(),
                self.sinks@.len() == old(self).sinks@.len(),
                self.family == old(self).family,
                self.udp == old(self).udp,
                forall|i: int|
                    0 <= i < self.sinks@.len() ==> (#[trigger] self.sinks@[i]).start == old(
                        self,
                    ).sinks@[i].start,
                forall|i: int|
                    0 <= i < at ==> (#[trigger] self.sinks@[i]).queue@ == old(
                        self,
                    ).sinks@[i].queue@.offer(*message),
                forall|i: int|
                    at <= i < self.sinks@.len() ==> (#[trigger] self.sinks@[i]).queue@ == old(
                        self,
                    ).sinks@[i].queue@,
                failures@ == rejections(old(self)@.queues.take(at as int)),
            decreases self.sinks@.len() - at,
        {
            let ghost before = self.sinks@;
            let copy = message.clone();
            let outcome = self.sinks[at].queue.try_send(copy);
            proof {
                assert(self.sinks@.len() == before.len());
                assert(forall|i: int|
                    0 <= i < before.len() && i != at ==> self.sinks@[i] == before[i]);
                assert(self.sinks@[at as int].start == before[at as int].start);
                let upto = old(self)@.queues.take(at + 1);
                assert(upto.drop_last() =~= old(self)@.queues.take(at as int));
                assert(upto.last() == old(self).sinks@[at as int].queue@);
            }
            match outcome {
                Ok(()) => {},
                Err(error) => {
                    failures.push(SinkFailure { sink: at, error });
                },
            }
            at = at + 1;
        }
        proof {
            assert(old(self)@.queues.take(at as int) =~= old(self)@.queues);
            assert(self@.queues =~= fan_out(old(self)@.queues, *message));
            assert(self@.starts =~= old(self)@.starts);
        }
        DispatchReport { udp, failures }
    }

    /// Runs the monitor on the family's queue of processed messages until
    /// the queue is drained: every waiting message is taken out and
    /// dispatched, oldest first. If the queue was closed, nothing will
    /// follow, and the monitor shuts down: the closing is handed on to every
    /// sink. Returns the account of each dispatch, in order.
    pub fn run(&mut self, processed: &mut BoundedQueue<Message>) -> (reports: Vec<DispatchReport>)
        ensures
            final(processed)@ == (QueueState {
                items: Seq::<Message>::empty(),
                ..old(processed)@
            }),
            final(self)@ == old(self)@.after_run(old(processed)@),
            reports@.len() == old(processed)@.items.len(),
            forall|k: int|
                0 <= k < reports@.len() ==> (#[trigger] reports@[k]).fits(
                    old(self)@.after_all(old(processed)@.items.take(k)),
                    old(processed)@.items[k],
                ),
    {
        let ghost messages = old(processed)@.items;
        let count = processed.len();
        let mut reports: Vec<DispatchReport> = Vec::new();
        let mut done: usize = 0;
        proof {
            assert(messages.subrange(0, messages.len() as int) =~= messages);
            assert(messages.take(0) =~= Seq::<Message>::empty());
            assert(self@.queues =~= fan_out_all(old(self)@.queues, messages.take(0)));
        }
        while done < count
            invariant
                done <= count,
                count == messages.len(),
                messages == old(processed)@.items,
                processed@ == (QueueState {
                    items: messages.subrange(done as int, messages.len() as int),
                    ..old(processed)@
                }),
                self@ == old(self)@.after_all(messages.take(done as int)),
                reports@.len() == done,
                forall|k: int|
                    0 <= k < done ==> (#[trigger] reports@[k]).fits(
                        old(self)@.after_all(messages.take(k)),
                        messages[k],
                    ),
            decreases count - done,
        {
            let next = processed.recv();
            proof {
                assert(next == Some(messages[done as int]));
                assert(processed@.items =~= messages.subrange(done + 1, messages.len() as int));
                assert(messages.take(done + 1).drop_last() =~= messages.take(done as int));
                assert(messages.take(done + 1).last() == messages[done as int]);
            }
            if let Some(message) = next {
                let report = self.dispatch(&message);
                reports.push(report);
            }
            done = done + 1;
        }
        proof {
            assert(messages.take(done as int) =~= messages);
            assert(processed@.items =~= Seq::<Message>::empty());
        }
        if processed.is_closed() {
            self.shut_down();
        }
        reports
    }

    /// Shuts the monitor down: every sink queue is closed, so that each sink
    /// sends what still waits for it and then stops.
    pub fn shut_down(&mut self)
        ensures
            final(self)@ == old(self)@.after_shut_down(),
    {
        let mut at: usize = 0;
        while at < self.sinks.len()
            invariant
                at <= self.sinks@.len(),
                self.sinks@.len() == old(self).sinks@.len(),
                self.family == old(self).family,
                self.udp == old(self).udp,
                forall|i: int|
                    0 <= i < self.sinks@.len() ==> (#[trigger] self.sinks@[i]).start == old(
                        self,
                    ).sinks@[i].start,
                forall|i: int|
                    0 <= i < at ==> (#[trigger] self.sinks@[i]).queue@ == old(
                        self,
                    ).sinks@[i].queue@.after_close(),
                forall|i: int|
                    at <= i < self.sinks@.len() ==> (#[trigger] self.sinks@[i]).queue@ == old(
                        self,
                    ).sinks@[i].queue@,
            decreases self.sinks@.len() - at,
        {
            let ghost before = self.sinks@;
            self.sinks[at].queue.close();
            proof {
                assert(self.sinks@.len() == before.len());
                assert(forall|i: int|
                    0 <= i < before.len() && i != at ==> self.sinks@[i] == before[i]);
                assert(self.sinks@[at as int].start == before[at as int].start);
            }
            at = at + 1;
        }
        proof {
            assert(self@.queues =~= old(self)@.after_shut_down().queues);
            assert(self@.starts =~= old(self)@.starts);
        }
    }

    /// Takes the oldest waiting message out of the queue of the sink at
    /// `position`, for the sink to send. Gives nothing where there is no
    /// such sink or nothing waits.
    pub fn take_from(&mut self, position: usize) -> (message: Option<Message>)
        ensures
            position < old(self)@.queues.len() ==> message == old(self)@.queues[position as int].front()
                && final(self)@ == (MonitorView {
                queues: old(self)@.queues.update(
                    position as int,
                    old(self)@.queues[position as int].after_take(),
                ),
                ..old(self)@
            }),
            position >= old(self)@.queues.len() ==> message is None && final(self)@ == old(self)@,
    {
        if position < self.sinks.len() {
            let ghost before = self.sinks@;
            let message = self.sinks[position].queue.recv();
            proof {
                assert(forall|i: int|
                    0 <= i < before.len() && i != position ==> self.sinks@[i] == before[i]);
                assert(self.sinks@[position as int].start == before[position as int].start);
                assert(self@.starts =~= old(self)@.starts);
                assert(self@.queues =~= old(self)@.queues.update(
                    position as int,
                    old(self)@.queues[position as int].after_take(),
                ));
            }
            message
        } else {
            None
        }
    }

    /// Closes the queue of the sink at `position`, if there is such a sink:
    /// from now on the sink gets no further message, and the other sinks are
    /// served as before.
    pub fn close_sink(&mut self, position: usize)
        ensures
            position < old(self)@.queues.len() ==> final(self)@ == (MonitorView {
                queues: old(self)@.queues.update(
                    position as int,
                    old(self)@.queues[position as int].after_close(),
                ),
                ..old(self)@
            }),
            position >= old(self)@.queues.len() ==> final(self)@ == old(self)@,
    {
        if position < self.sinks.len() {
            let ghost before = self.sinks@;
            self.sinks[position].queue.close();
            proof {
                assert(forall|i: int|
                    0 <= i < before.len() && i != position ==> self.sinks@[i] == before[i]);
                assert(self.sinks@[position as int].start == before[position as int].start);
                assert(self@.starts =~= old(self)@.starts);
                assert(self@.queues =~= old(self)@.queues.update(
                    position as int,
                    old(self)@.queues[position as int].after_close(),
                ));
            }
        }
    }

    /// Whether the sink at `position` has nothing more to send, ever: there
    /// is no such sink, or its queue is closed and drained.
    pub fn is_sink_finished(&self, position: usize) -> (finished: bool)
        ensures
            finished == (position >= self@.queues.len() || self@.queues[position as int].finished()),
    {
        if position < self.sinks.len() {
            self.sinks[position].queue.is_finished()
        } else {
            true
        }
    }
}

/// Fan-out touches each sink on its own: what the queue of one sink holds
/// after any number of dispatches is what that queue alone makes of the
/// messages, whatever state the other sinks are in, full and closed ones
/// included.
pub proof fn lemma_sink_isolation(
    queues: Seq<QueueState<Message>>,
    messages: Seq<Message>,
    sink: int,
)
    requires
        0 <= sink < queues.len(),
    ensures
        fan_out_all(queues, messages).len() == queues.len(),
        fan_out_all(queues, messages)[sink] == queues[sink].offer_all(messages),
    decreases messages.len(),
{
    if messages.len() > 0 {
        lemma_sink_isolation(queues, messages.drop_last(), sink);
    }
}

/// Fan-out loses nothing while there is room: a sink whose queue is open and
/// has room for the messages receives every one of them, equal to what was
/// dispatched and in the order of dispatch, behind what it already held.
pub proof fn lemma_fan_out_fidelity(
    queues: Seq<QueueState<Message>>,
    messages: Seq<Message>,
    sink: int,
)
    requires
        0 <= sink < queues.len(),
        !queues[sink].closed,
        queues[sink].items.len() + messages.len() <= queues[sink].capacity,
    ensures
        fan_out_all(queues, messages)[sink].items == queues[sink].items + messages,
{
    lemma_sink_isolation(queues, messages, sink);
    lemma_offer_all_with_room(queues[sink], messages);
}

/// The failures that a dispatch reports are exactly the sinks that do not
/// accept, each once, in the order of the sinks and with its own reason.
pub proof fn lemma_rejections(queues: Seq<QueueState<Message>>)
    requires
        queues.len() <= usize::MAX,
    ensures
        rejections(queues).len() <= queues.len(),
        forall|k: int|
            0 <= k < rejections(queues).len() ==> {
                let failure = #[trigger] rejections(queues)[k];
                &&& failure.sink < queues.len()
                &&& queues[failure.sink as int].verdict() == Err::<(), SendError>(failure.error)
            },
        forall|j: int, k: int|
            0 <= j < k < rejections(queues).len() ==> rejections(queues)[j].sink < rejections(
                queues,
            )[k].sink,
        forall|i: int|
            0 <= i < queues.len() && !queues[i].accepts() ==> exists|k: int|
                0 <= k < rejections(queues).len() && (#[trigger] rejections(queues)[k]).sink == i,
    decreases queues.len(),
{
    if queues.len() > 0 {
        let shorter = queues.drop_last();
        lemma_rejections(shorter);
        let earlier = rejections(shorter);
        let last = (queues.len() - 1) as int;
        assert forall|i: int| 0 <= i < queues.len() && !queues[i].accepts() implies exists|k: int|
            0 <= k < rejections(queues).len() && (#[trigger] rejections(queues)[k]).sink
                == i by {
            if i < last {
                assert(shorter[i] == queues[i]);
                let k = choose|k: int|
                    0 <= k < earlier.len() && (#[trigger] earlier[k]).sink == i;
                assert(rejections(queues)[k] == earlier[k]);
            } else {
                let k = rejections(queues).len() - 1;
                assert(rejections(queues)[k].sink == i);
            }
        }
    }
}

} // verus!
