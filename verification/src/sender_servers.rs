//! The egress side of the router: which sinks a protocol family starts, how
//! its queue monitor is set up from those that came up, and what a stream
//! sender does with the messages that reach its queue.

use vstd::prelude::*;
use crate::generics::{SenderServer, SenderServerConfig};
use crate::helper_functions::{should_start_service, texts};
use crate::message::{encoded, JsonError, Message};
use crate::queue::{BoundedQueue, QueueState};
use crate::queue_monitor::{DispatchReport, MonitorView, QueueMonitor};
use crate::udp_sender_server::{UDPSenderServer, UdpSenderView};

verus! {

/// How many messages wait at most in the queue of one sink.
pub const SINK_QUEUE_CAPACITY: usize = 32;

/// The two datalink protocol families. Each is routed on its own: the two
/// never share a queue or a sink.
#[derive(Clone, Copy, Debug, PartialEq, Eq, Structural)]
pub enum ProtocolFamily {
    Acars,
    Vdlm2,
}

impl ProtocolFamily {
    /// The label of the family.
    pub open spec fn label(self) -> Seq<char> {
        match self {
            ProtocolFamily::Acars => "ACARS"@,
            ProtocolFamily::Vdlm2 => "VDLM2"@,
        }
    }

    /// What the name of every publish sender of the family begins with.
    pub open spec fn publisher_prefix(self) -> Seq<char> {
        match self {
            ProtocolFamily::Acars => "ZMQ_SENDER_SERVER_ACARS_"@,
            ProtocolFamily::Vdlm2 => "ZMQ_SENDER_SERVER_VDLM_"@,
        }
    }

    /// The label of the family, as a string.
    pub fn name(&self) -> (label: String)
        ensures
            label@ == self.label(),
    {
        match self {
            ProtocolFamily::Acars => String::from_str("ACARS"),
            ProtocolFamily::Vdlm2 => String::from_str("VDLM2"),
        }
    }
}

/// The kinds of sink that are fed through a queue.
#[derive(Clone, Copy, Debug, PartialEq, Eq, Structural)]
pub enum SinkKind {
    /// One outbound, reconnecting TCP connection to a configured destination.
    TcpSend,
    /// A listening TCP socket whose connected clients all get every message.
    TcpServe,
    /// A bound publish socket.
    ZmqServe,
}

/// One sink to bring up: its kind, the address to connect or bind to, and
/// the name it goes by.
#[derive(Debug)]
pub struct SinkStart {
    pub kind: SinkKind,
    pub address: String,
    pub proto_name: String,
}

impl Clone for SinkStart {
    fn clone(&self) -> (copy: Self)
        ensures
            copy@ == self@,
    {
        SinkStart {
            kind: self.kind,
            address: self.address.clone(),
            proto_name: self.proto_name.clone(),
        }
    }
}

/// A sink to bring up, with its texts as sequences of characters.
pub ghost struct SinkStartView {
    pub kind: SinkKind,
    pub address: Seq<char>,
    pub proto_name: Seq<char>,
}

impl View for SinkStart {
    type V = SinkStartView;

    open spec fn view(&self) -> SinkStartView {
        SinkStartView { kind: self.kind, address: self.address@, proto_name: self.proto_name@ }
    }
}

/// The views of a list of sinks to bring up, in order.
pub open spec fn start_views(starts: Seq<SinkStart>) -> Seq<SinkStartView> {
    Seq::new(starts.len(), |i: int| starts[i]@)
}

/// The sink that one configured entry asks for. An outbound TCP sender
/// connects to the entry as it stands and is named after the family. A TCP
/// server listens on every interface at the port that the entry gives. A
/// publisher binds to the loopback interface at that port, and has the port
/// in its name.
pub open spec fn start_of(family: ProtocolFamily, kind: SinkKind, entry: Seq<char>) -> SinkStartView {
    match kind {
        SinkKind::TcpSend => SinkStartView { kind, address: entry, proto_name: family.label() },
        SinkKind::TcpServe => SinkStartView {
            kind,
            address: "0.0.0.0:"@ + entry,
            proto_name: family.label(),
        },
        SinkKind::ZmqServe => SinkStartView {
            kind,
            address: "tcp://127.0.0.1:"@ + entry,
            proto_name: family.publisher_prefix() + entry,
        },
    }
}

/// One sink of the given kind for each configured entry, in order.
pub open spec fn starts_of(family: ProtocolFamily, kind: SinkKind, entries: Seq<Seq<char>>) -> Seq<
    SinkStartView,
> {
    Seq::new(entries.len(), |i: int| start_of(family, kind, entries[i]))
}

/// The queue-fed sinks that a configuration asks for: first the outbound
/// TCP senders, then the TCP servers, then the publishers, each kind in the
/// order of its configured list. An empty list asks for none of its kind.
pub open spec fn sink_starts(family: ProtocolFamily, config: SenderServerConfig) -> Seq<
    SinkStartView,
> {
    starts_of(family, SinkKind::TcpSend, texts(config.send_tcp@)) + starts_of(
        family,
        SinkKind::TcpServe,
        texts(config.serve_tcp@),
    ) + starts_of(family, SinkKind::ZmqServe, texts(config.serve_zmq@))
}

/// Makes out the sink that one configured entry asks for.
pub fn plan_sink(family: ProtocolFamily, kind: SinkKind, entry: &String) -> (start: SinkStart)
    ensures
        start@ == start_of(family, kind, entry@),
{
    match kind {
        SinkKind::TcpSend => SinkStart { kind, address: entry.clone(), proto_name: family.name() },
        SinkKind::TcpServe => {
            let mut address = String::from_str("0.0.0.0:");
            address.append(entry.as_str());
            SinkStart { kind, address, proto_name: family.name() }
        },
        SinkKind::ZmqServe => {
            let mut address = String::from_str("tcp://127.0.0.1:");
            address.append(entry.as_str());
            let mut proto_name = match family {
                ProtocolFamily::Acars => String::from_str("ZMQ_SENDER_SERVER_ACARS_"),
                ProtocolFamily::Vdlm2 => String::from_str("ZMQ_SENDER_SERVER_VDLM_"),
            };
            proto_name.append(entry.as_str());
            SinkStart { kind, address, proto_name }
        },
    }
}

/// Adds to `plan` one sink of the given kind for each entry of `entries`.
fn plan_sinks_of_kind(
    plan: &mut Vec<SinkStart>,
    family: ProtocolFamily,
    kind: SinkKind,
    entries: &Vec<String>,
)
    ensures
        start_views(final(plan)@) == start_views(old(plan)@) + starts_of(
            family,
            kind,
            texts(entries@),
        ),
{
    let mut at: usize = 0;
    assert(start_views(plan@) =~= start_views(old(plan)@) + starts_of(
        family,
        kind,
        texts(entries@).take(0),
    ));
    while at < entries.len()
        invariant
            at <= entries@.len(),
            start_views(plan@) == start_views(old(plan)@) + starts_of(
                family,
                kind,
                texts(entries@).take(at as int),
            ),
        decreases entries@.len() - at,
    {
        let ghost before = plan@;
        let start = plan_sink(family, kind, &entries[at]);
        plan.push(start);
        proof {
            assert(start_views(plan@) =~= start_views(before).push(start@));
            assert(starts_of(family, kind, texts(entries@).take(at + 1)) =~= starts_of(
                family,
                kind,
                texts(entries@).take(at as int),
            ).push(start@));
            assert(start_views(plan@) =~= start_views(old(plan)@) + starts_of(
                family,
                kind,
                texts(entries@).take(at + 1),
            ));
        }
        at = at + 1;
    }
    assert(texts(entries@).take(at as int) =~= texts(entries@));
}

/// Lists the queue-fed sinks that the configuration of a family asks for,
/// in the order in which they are to be brought up.
pub fn plan_sender_servers(family: ProtocolFamily, config: &SenderServerConfig) -> (plan: Vec<
    SinkStart,
>)
    ensures
        start_views(plan@) == sink_starts(family, *config),
{
    let mut plan: Vec<SinkStart> = Vec::new();
    assert(start_views(plan@) =~= Seq::<SinkStartView>::empty());
    if should_start_service(config.send_tcp()) {
        plan_sinks_of_kind(&mut plan, family, SinkKind::TcpSend, config.send_tcp());
    }
    if should_start_service(config.serve_tcp()) {
        plan_sinks_of_kind(&mut plan, family, SinkKind::TcpServe, config.serve_tcp());
    }
    if should_start_service(config.serve_zmq()) {
        plan_sinks_of_kind(&mut plan, family, SinkKind::ZmqServe, config.serve_zmq());
    }
    assert(start_views(plan@) =~= sink_starts(family, *config));
    plan
}

/// The UDP sender of a family: it is named after the family and sends to
/// every configured destination.
pub open spec fn udp_sender_of(label: Seq<char>, destinations: Seq<Seq<char>>) -> UdpSenderView {
    UdpSenderView { proto_name: label + "_UDP_SEND"@, destinations }
}

/// Sets up the UDP sender of a family once its socket was asked for. `bound`
/// says whether the socket could be bound: without a socket there is no
/// sender, and the family simply has no UDP sink.
pub fn start_udp_senders_servers(decoder_type: &String, ports: &Vec<String>, bound: bool) -> (sender:
    Option<UDPSenderServer>)
    ensures
        sender is Some <==> bound,
        sender matches Some(s) ==> s@ == udp_sender_of(decoder_type@, texts(ports@)),
{
    if !bound {
        return None;
    }
    let mut proto_name = decoder_type.clone();
    proto_name.append("_UDP_SEND");
    let mut host: Vec<String> = Vec::new();
    let mut at: usize = 0;
    while at < ports.len()
        invariant
            at <= ports@.len(),
            host@.len() == at,
            forall|i: int| 0 <= i < at ==> (#[trigger] host@[i])@ == ports@[i]@,
        decreases ports@.len() - at,
    {
        host.push(ports[at].clone());
        at = at + 1;
    }
    assert(texts(host@) =~= texts(ports@));
    Some(UDPSenderServer { proto_name, host })
}

/// What a stream sender does next.
#[derive(Debug)]
pub enum SenderStep {
    /// Write these bytes, the encoding of the message just taken from the
    /// queue, to the socket.
    Write(Vec<u8>),
    /// The message just taken from the queue could not be encoded: it is
    /// skipped.
    Unserializable(JsonError),
    /// Nothing waits, but more may come: wait.
    Idle,
    /// Nothing waits and nothing will come: stop.
    Finished,
}

/// Whether `step` is what a sender does next when its queue is `queue`;
/// `None` stands for a sender whose queue does not exist.
pub open spec fn sender_step_fits(step: SenderStep, queue: Option<QueueState<Message>>) -> bool {
    match step {
        SenderStep::Write(bytes) => queue matches Some(q) && q.front() matches Some(message)
            && encoded(message) == Some(bytes@),
        SenderStep::Unserializable(_) => queue matches Some(q) && q.front() matches Some(message)
            && encoded(message) is None,
        SenderStep::Idle => queue matches Some(q) && q.items.len() == 0 && !q.closed,
        SenderStep::Finished => queue matches Some(q) ==> q.finished(),
    }
}

impl<T> SenderServer<T> {
    /// One turn of the sender: the oldest message that waits in the sender's
    /// queue is taken out and encoded for writing. Messages go out in the
    /// order in which the monitor dispatched them. Where nothing waits, the
    /// queue is left as it is and the sender is told to wait, or to stop if
    /// the queue was closed.
    pub fn send_message(&self, monitor: &mut QueueMonitor) -> (step: SenderStep)
        ensures
            self.channel < old(monitor)@.queues.len() ==> sender_step_fits(
                step,
                Some(old(monitor)@.queues[self.channel as int]),
            ) && final(monitor)@ == (MonitorView {
                queues: old(monitor)@.queues.update(
                    self.channel as int,
                    old(monitor)@.queues[self.channel as int].after_take(),
                ),
                ..old(monitor)@
            }),
            self.channel >= old(monitor)@.queues.len() ==> step is Finished && final(monitor)@
                == old(monitor)@,
    {
        if monitor.is_sink_finished(self.channel) {
            proof {
                if self.channel < monitor@.queues.len() {
                    assert(monitor@.queues =~= monitor@.queues.update(
                        self.channel as int,
                        monitor@.queues[self.channel as int].after_take(),
                    ));
                }
            }
            return SenderStep::Finished;
        }
        match monitor.take_from(self.channel) {
            Some(message) => match message.serialize() {
                Ok(bytes) => SenderStep::Write(bytes),
                Err(e) => SenderStep::Unserializable(e),
            },
            None => SenderStep::Idle,
        }
    }
}

/// How the attempts to bring up the sinks of one family turned out.
#[derive(Clone, Debug)]
pub struct StartOutcome {
    /// Whether the socket of the UDP sender could be bound.
    pub udp_bound: bool,
    /// For each queue-fed sink that the configuration asks for, in the order
    /// of `plan_sender_servers`, whether it came up. A sink without an entry
    /// here did not.
    pub sinks_started: Vec<bool>,
}

/// The sinks of a plan that came up, in the order of the plan.
pub open spec fn started_sinks(plan: Seq<SinkStartView>, started: Seq<bool>) -> Seq<SinkStartView>
    decreases plan.len(),
{
    if plan.len() == 0 {
        Seq::empty()
    } else {
        let earlier = started_sinks(plan.drop_last(), started);
        if plan.len() - 1 < started.len() && started[plan.len() - 1] {
            earlier.push(plan.last())
        } else {
            earlier
        }
    }
}

/// The UDP sender that a family ends up with: the one its configuration
/// asks for, if it asks for one and the socket could be bound.
pub open spec fn started_udp(family: ProtocolFamily, config: SenderServerConfig, bound: bool) -> Option<
    UdpSenderView,
> {
    if config.send_udp@.len() > 0 && bound {
        Some(udp_sender_of(family.label(), texts(config.send_udp@)))
    } else {
        None
    }
}

/// The queue monitor that a family starts out with: its sinks are the
/// configured sinks that came up, in the configured order, each behind an
/// empty, open queue of `SINK_QUEUE_CAPACITY`; a sink that failed to come up
/// is simply absent.
pub open spec fn started_monitor(
    family: ProtocolFamily,
    config: SenderServerConfig,
    outcome: StartOutcome,
) -> MonitorView {
    let starts = started_sinks(sink_starts(family, config), outcome.sinks_started@);
    MonitorView {
        family,
        udp: started_udp(family, config, outcome.udp_bound),
        starts,
        queues: Seq::new(starts.len(), |i: int| QueueState::fresh(SINK_QUEUE_CAPACITY as nat)),
    }
}

/// Where every sink of a plan came up, the started sinks are the plan; in
/// any case they are no more than the plan has.
pub proof fn lemma_started_sinks(plan: Seq<SinkStartView>, started: Seq<bool>)
    ensures
        started_sinks(plan, started).len() <= plan.len(),
        (started.len() >= plan.len() && forall|i: int| 0 <= i < plan.len() ==> started[i])
            ==> started_sinks(plan, started) == plan,
        (forall|i: int| 0 <= i < plan.len() && i < started.len() ==> !started[i]) ==> started_sinks(
            plan,
            started,
        ) == Seq::<SinkStartView>::empty(),
    decreases plan.len(),
{
    if plan.len() > 0 {
        lemma_started_sinks(plan.drop_last(), started);
        if started.len() >= plan.len() && forall|i: int| 0 <= i < plan.len() ==> started[i] {
            assert(plan.drop_last().push(plan.last()) =~= plan);
        }
    }
}

impl QueueMonitor {
    /// Sets up the queue monitor of a family from its configuration, once
    /// every sink that the configuration asks for was tried.
    pub fn start(family: ProtocolFamily, config: &SenderServerConfig, outcome: &StartOutcome) -> (monitor:
        Self)
        ensures
            monitor@ == started_monitor(family, *config, *outcome),
    {
        let udp = if should_start_service(config.send_udp()) {
            let label = family.name();
            start_udp_senders_servers(&label, config.send_udp(), outcome.udp_bound)
        } else {
            None
        };
        let mut monitor = QueueMonitor::new(family, udp);
        let plan = plan_sender_servers(family, config);
        let ghost planned = sink_starts(family, *config);
        let ghost started = outcome.sinks_started@;
        let mut at: usize = 0;
        proof {
            assert(planned.take(0) =~= Seq::<SinkStartView>::empty());
        }
        while at < plan.len()
            invariant
                at <= plan@.len(),
                start_views(plan@) == planned,
                started == outcome.sinks_started@,
                monitor@.family == family,
                monitor@.udp == started_udp(family, *config, outcome.udp_bound),
                monitor@.starts == started_sinks(planned.take(at as int), started),
                monitor@.queues == Seq::new(
                    monitor@.starts.len(),
                    |i: int| QueueState::<Message>::fresh(SINK_QUEUE_CAPACITY as nat),
                ),
            decreases plan@.len() - at,
        {
            proof {
                assert(planned.take(at + 1).drop_last() =~= planned.take(at as int));
                assert(planned.take(at + 1).last() == plan@[at as int]@);
            }
            if at < outcome.sinks_started.len() && outcome.sinks_started[at] {
                monitor.add_sink(plan[at].clone(), SINK_QUEUE_CAPACITY);
                proof {
                    assert(monitor@.queues =~= Seq::new(
                        monitor@.starts.len(),
                        |i: int| QueueState::<Message>::fresh(SINK_QUEUE_CAPACITY as nat),
                    ));
                }
            }
            at = at + 1;
        }
        proof {
            assert(planned.take(at as int) =~= planned);
        }
        monitor
    }
}

/// Sets up the egress side of the router: one queue monitor for each
/// protocol family, from the configuration of the family and the outcome of
/// bringing up its sinks. A sink that failed to come up is left out, and
/// the others start all the same. The two monitors share nothing.
pub fn start_sender_servers(
    acars_config: &SenderServerConfig,
    vdlm_config: &SenderServerConfig,
    acars_outcome: &StartOutcome,
    vdlm_outcome: &StartOutcome,
) -> (monitors: (QueueMonitor, QueueMonitor))
    ensures
        monitors.0@ == started_monitor(ProtocolFamily::Acars, *acars_config, *acars_outcome),
        monitors.1@ == started_monitor(ProtocolFamily::Vdlm2, *vdlm_config, *vdlm_outcome),
{
    let acars = QueueMonitor::start(ProtocolFamily::Acars, acars_config, acars_outcome);
    let vdlm = QueueMonitor::start(ProtocolFamily::Vdlm2, vdlm_config, vdlm_outcome);
    (acars, vdlm)
}

/// Runs the queue monitors of both families, each on the processed messages
/// of its own family, until both queues are drained. A family whose queue
/// was closed shuts down. Neither family sees a message of the other.
pub fn monitor_queues(
    rx_processed_acars: &mut BoundedQueue<Message>,
    rx_processed_vdlm: &mut BoundedQueue<Message>,
    acars: &mut QueueMonitor,
    vdlm: &mut QueueMonitor,
) -> (reports: (Vec<DispatchReport>, Vec<DispatchReport>))
    ensures
        final(rx_processed_acars)@ == (QueueState {
            items: Seq::<Message>::empty(),
            ..old(rx_processed_acars)@
        }),
        final(rx_processed_vdlm)@ == (QueueState {
            items: Seq::<Message>::empty(),
            ..old(rx_processed_vdlm)@
        }),
        final(acars)@ == old(acars)@.after_run(old(rx_processed_acars)@),
        final(vdlm)@ == old(vdlm)@.after_run(old(rx_processed_vdlm)@),
        reports.0@.len() == old(rx_processed_acars)@.items.len(),
        reports.1@.len() == old(rx_processed_vdlm)@.items.len(),
        forall|k: int|
            0 <= k < reports.0@.len() ==> (#[trigger] reports.0@[k]).fits(
                old(acars)@.after_all(old(rx_processed_acars)@.items.take(k)),
                old(rx_processed_acars)@.items[k],
            ),
        forall|k: int|
            0 <= k < reports.1@.len() ==> (#[trigger] reports.1@[k]).fits(
                old(vdlm)@.after_all(old(rx_processed_vdlm)@.items.take(k)),
                old(rx_processed_vdlm)@.items[k],
            ),
{
    let acars_reports = acars.run(rx_processed_acars);
    let vdlm_reports = vdlm.run(rx_processed_vdlm);
    (acars_reports, vdlm_reports)
}

} // verus!
