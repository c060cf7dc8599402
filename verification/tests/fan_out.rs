use acars_router::generics::{SenderServer, SenderServerConfig};
use acars_router::message::Message;
use acars_router::queue::{BoundedQueue, SendError};
use acars_router::queue_monitor::{DispatchReport, QueueMonitor, SinkFailure, UdpDelivery};
use acars_router::sender_servers::{
    monitor_queues, plan_sender_servers, plan_sink, start_sender_servers,
    start_udp_senders_servers, ProtocolFamily, SenderStep, SinkKind, SinkStart, StartOutcome,
    SINK_QUEUE_CAPACITY,
};
use acars_router::udp_sender_server::UDPSenderServer;

fn strings(items: &[&str]) -> Vec<String> {
    items.iter().map(|s| s.to_string()).collect()
}

fn message(text: &str) -> Message {
    Message::parse(text).unwrap()
}

fn sink(name: &str) -> SinkStart {
    SinkStart {
        kind: SinkKind::TcpSend,
        address: format!("{}:1", name),
        proto_name: name.to_string(),
    }
}

fn config(udp: &[&str], tcp: &[&str], serve: &[&str], zmq: &[&str]) -> SenderServerConfig {
    SenderServerConfig {
        send_udp: strings(udp),
        send_tcp: strings(tcp),
        serve_tcp: strings(serve),
        serve_zmq: strings(zmq),
        max_udp_packet_size: 60000,
    }
}

fn drain(monitor: &mut QueueMonitor, position: usize) -> Vec<Message> {
    let mut taken = Vec::new();
    while let Some(m) = monitor.take_from(position) {
        taken.push(m);
    }
    taken
}

#[test]
fn every_sink_receives_a_value_equal_to_the_message() {
    let mut monitor = QueueMonitor::new(ProtocolFamily::Acars, None);
    for name in ["one", "two", "three"] {
        monitor.add_sink(sink(name), 8);
    }
    let sent = message("{\"text\":\"hello\",\"n\":[1,2]}");
    let report = monitor.dispatch(&sent);
    assert!(report.failures.is_empty());
    assert!(matches!(report.udp, UdpDelivery::NoSender));
    for position in 0..3 {
        assert_eq!(drain(&mut monitor, position), vec![sent.clone()]);
    }
}

#[test]
fn full_or_closed_sink_does_not_keep_the_others_from_the_message() {
    let mut monitor = QueueMonitor::new(ProtocolFamily::Vdlm2, None);
    monitor.add_sink(sink("full"), 1);
    monitor.add_sink(sink("open"), 4);
    monitor.add_sink(sink("closed"), 4);
    monitor.add_sink(sink("last"), 4);
    monitor.close_sink(2);
    let first = message("{\"a\":1}");
    let second = message("{\"a\":2}");
    assert!(monitor.dispatch(&first).failures == vec![SinkFailure {
        sink: 2,
        error: SendError::Closed
    }]);
    let report = monitor.dispatch(&second);
    assert_eq!(
        report.failures,
        vec![
            SinkFailure { sink: 0, error: SendError::Full },
            SinkFailure { sink: 2, error: SendError::Closed },
        ]
    );
    assert_eq!(drain(&mut monitor, 0), vec![first.clone()]);
    assert_eq!(drain(&mut monitor, 1), vec![first.clone(), second.clone()]);
    assert_eq!(drain(&mut monitor, 2), Vec::<Message>::new());
    assert_eq!(drain(&mut monitor, 3), vec![first, second]);
}

#[test]
fn stalled_sink_recovers_for_later_messages_only() {
    let mut monitor = QueueMonitor::new(ProtocolFamily::Acars, None);
    monitor.add_sink(sink("slow"), 1);
    monitor.add_sink(sink("fast"), 8);
    let messages: Vec<Message> = (0..3).map(|n| message(&format!("{{\"n\":{}}}", n))).collect();
    assert!(monitor.dispatch(&messages[0]).failures.is_empty());
    assert_eq!(monitor.dispatch(&messages[1]).failures.len(), 1);
    assert_eq!(monitor.take_from(0), Some(messages[0].clone()));
    assert!(monitor.dispatch(&messages[2]).failures.is_empty());
    assert_eq!(drain(&mut monitor, 0), vec![messages[2].clone()]);
    assert_eq!(drain(&mut monitor, 1), messages);
}

#[test]
fn udp_sender_makes_one_datagram_for_each_destination() {
    let sender = UDPSenderServer {
        proto_name: "ACARS_UDP_SEND".to_string(),
        host: strings(&["192.0.2.1:9", "127.0.0.1:5550"]),
    };
    let datagrams = sender.send_message(&message(" {\"a\" : 1} ")).unwrap();
    assert_eq!(datagrams.len(), 2);
    assert_eq!(datagrams[0].destination, "192.0.2.1:9");
    assert_eq!(datagrams[1].destination, "127.0.0.1:5550");
    assert_eq!(datagrams[0].payload, b"{\"a\":1}".to_vec());
    assert_eq!(datagrams[1].payload, b"{\"a\":1}".to_vec());
}

#[test]
fn udp_sender_without_destinations_sends_nothing() {
    let sender = UDPSenderServer { proto_name: "X".to_string(), host: Vec::new() };
    assert!(sender.send_message(&message("1")).unwrap().is_empty());
}

#[test]
fn dispatch_serves_the_udp_sender_and_the_queues() {
    let udp = start_udp_senders_servers(&"ACARS".to_string(), &strings(&["h1:1", "h2:2"]), true);
    let mut monitor = QueueMonitor::new(ProtocolFamily::Acars, udp);
    monitor.add_sink(sink("tcp"), 2);
    let sent = message("{\"k\":\"v\"}");
    let report = monitor.dispatch(&sent);
    match report.udp {
        UdpDelivery::Send(datagrams) => {
            assert_eq!(datagrams.len(), 2);
            assert_eq!(datagrams[0].destination, "h1:1");
            assert_eq!(datagrams[1].destination, "h2:2");
            assert_eq!(datagrams[0].payload, b"{\"k\":\"v\"}".to_vec());
            assert_eq!(datagrams[1].payload, datagrams[0].payload);
        }
        other => panic!("unexpected delivery {:?}", other),
    }
    assert_eq!(monitor.take_from(0), Some(sent));
}

#[test]
fn udp_sender_is_named_after_its_family_and_needs_its_socket() {
    let ports = strings(&["10.0.0.1:5550"]);
    let sender = start_udp_senders_servers(&"VDLM2".to_string(), &ports, true).unwrap();
    assert_eq!(sender.proto_name, "VDLM2_UDP_SEND");
    assert_eq!(sender.host, ports);
    assert!(start_udp_senders_servers(&"VDLM2".to_string(), &ports, false).is_none());
}

#[test]
fn plan_lists_tcp_senders_then_servers_then_publishers() {
    let plan = plan_sender_servers(
        ProtocolFamily::Acars,
        &config(&["u:1"], &["a.example:15550", "b.example:15551"], &["15552"], &["45550", "45551"]),
    );
    let seen: Vec<(SinkKind, &str, &str)> =
        plan.iter().map(|s| (s.kind, s.address.as_str(), s.proto_name.as_str())).collect();
    assert_eq!(
        seen,
        vec![
            (SinkKind::TcpSend, "a.example:15550", "ACARS"),
            (SinkKind::TcpSend, "b.example:15551", "ACARS"),
            (SinkKind::TcpServe, "0.0.0.0:15552", "ACARS"),
            (SinkKind::ZmqServe, "tcp://127.0.0.1:45550", "ZMQ_SENDER_SERVER_ACARS_45550"),
            (SinkKind::ZmqServe, "tcp://127.0.0.1:45551", "ZMQ_SENDER_SERVER_ACARS_45551"),
        ]
    );
}

#[test]
fn plan_names_the_sinks_of_the_other_family() {
    let serve = plan_sink(ProtocolFamily::Vdlm2, SinkKind::TcpServe, &"5555".to_string());
    assert_eq!(serve.address, "0.0.0.0:5555");
    assert_eq!(serve.proto_name, "VDLM2");
    let publish = plan_sink(ProtocolFamily::Vdlm2, SinkKind::ZmqServe, &"45555".to_string());
    assert_eq!(publish.address, "tcp://127.0.0.1:45555");
    assert_eq!(publish.proto_name, "ZMQ_SENDER_SERVER_VDLM_45555");
    assert_eq!(ProtocolFamily::Vdlm2.name(), "VDLM2");
    assert_eq!(ProtocolFamily::Acars.name(), "ACARS");
}

#[test]
fn empty_configuration_starts_nothing() {
    let empty = config(&[], &[], &[], &[]);
    assert!(plan_sender_servers(ProtocolFamily::Acars, &empty).is_empty());
    let outcome = StartOutcome { udp_bound: true, sinks_started: Vec::new() };
    let (mut acars, vdlm) = start_sender_servers(&empty, &empty, &outcome, &outcome);
    assert_eq!(acars.sink_count(), 0);
    assert_eq!(vdlm.sink_count(), 0);
    assert!(acars.udp().is_none());
    assert!(vdlm.udp().is_none());
    let report = acars.dispatch(&message("{}"));
    assert!(report.failures.is_empty());
    assert!(matches!(report.udp, UdpDelivery::NoSender));
}

#[test]
fn sink_that_failed_to_start_is_left_out() {
    let acars = config(&["u:1"], &["a:1", "b:2"], &["3"], &["4"]);
    let vdlm = config(&["v:1"], &[], &["5"], &[]);
    let acars_outcome = StartOutcome { udp_bound: false, sinks_started: vec![true, false, true] };
    let vdlm_outcome = StartOutcome { udp_bound: true, sinks_started: vec![true] };
    let (acars, vdlm) = start_sender_servers(&acars, &vdlm, &acars_outcome, &vdlm_outcome);
    assert_eq!(acars.family(), ProtocolFamily::Acars);
    assert!(acars.udp().is_none());
    assert_eq!(acars.sink_count(), 2);
    assert_eq!(acars.sink_start(0).unwrap().address, "a:1");
    assert_eq!(acars.sink_start(1).unwrap().address, "0.0.0.0:3");
    assert!(acars.sink_start(2).is_none());
    assert_eq!(vdlm.family(), ProtocolFamily::Vdlm2);
    let udp = vdlm.udp().as_ref().unwrap();
    assert_eq!(udp.proto_name, "VDLM2_UDP_SEND");
    assert_eq!(udp.host, strings(&["v:1"]));
    assert_eq!(vdlm.sink_count(), 1);
    assert_eq!(vdlm.sink_start(0).unwrap().kind, SinkKind::TcpServe);
}

#[test]
fn started_sinks_have_queues_of_the_standard_capacity() {
    assert_eq!(SINK_QUEUE_CAPACITY, 32);
    let acars = config(&[], &["a:1"], &[], &[]);
    let none = config(&[], &[], &[], &[]);
    let up = StartOutcome { udp_bound: false, sinks_started: vec![true] };
    let (mut monitor, _) = start_sender_servers(&acars, &none, &up, &up);
    let sent = message("[1]");
    for _ in 0..32 {
        assert!(monitor.dispatch(&sent).failures.is_empty());
    }
    assert_eq!(
        monitor.dispatch(&sent).failures,
        vec![SinkFailure { sink: 0, error: SendError::Full }]
    );
    assert_eq!(drain(&mut monitor, 0).len(), 32);
}

#[test]
fn monitor_drains_the_processed_queue_in_order() {
    let mut monitor = QueueMonitor::new(ProtocolFamily::Acars, None);
    monitor.add_sink(sink("a"), 2);
    monitor.add_sink(sink("b"), 8);
    let mut processed = BoundedQueue::new(8);
    let messages: Vec<Message> = (0..4).map(|n| message(&format!("[{}]", n))).collect();
    for m in &messages {
        processed.try_send(m.clone()).unwrap();
    }
    let reports: Vec<DispatchReport> = monitor.run(&mut processed);
    assert!(processed.is_empty());
    assert_eq!(reports.len(), 4);
    assert!(reports[0].failures.is_empty());
    assert!(reports[1].failures.is_empty());
    assert_eq!(reports[2].failures, vec![SinkFailure { sink: 0, error: SendError::Full }]);
    assert_eq!(reports[3].failures, vec![SinkFailure { sink: 0, error: SendError::Full }]);
    assert_eq!(drain(&mut monitor, 0), messages[..2].to_vec());
    assert_eq!(drain(&mut monitor, 1), messages);
}

#[test]
fn closing_the_processed_queue_shuts_the_sinks_down_after_the_last_message() {
    let mut monitor = QueueMonitor::new(ProtocolFamily::Acars, None);
    monitor.add_sink(sink("a"), 4);
    monitor.add_sink(sink("b"), 4);
    let mut processed = BoundedQueue::new(4);
    processed.try_send(message("[1]")).unwrap();
    assert_eq!(monitor.run(&mut processed).len(), 1);
    assert!(!monitor.is_sink_finished(0));
    processed.try_send(message("[2]")).unwrap();
    processed.close();
    assert_eq!(monitor.run(&mut processed).len(), 1);
    assert!(processed.is_finished());
    assert!(!monitor.is_sink_finished(0));
    assert_eq!(drain(&mut monitor, 0), vec![message("[1]"), message("[2]")]);
    assert!(monitor.is_sink_finished(0));
    assert_eq!(
        monitor.dispatch(&message("[3]")).failures,
        vec![
            SinkFailure { sink: 0, error: SendError::Closed },
            SinkFailure { sink: 1, error: SendError::Closed },
        ]
    );
    assert_eq!(drain(&mut monitor, 1), vec![message("[1]"), message("[2]")]);
}

#[test]
fn shut_down_closes_every_sink_and_keeps_what_waits() {
    let mut monitor = QueueMonitor::new(ProtocolFamily::Vdlm2, None);
    monitor.add_sink(sink("a"), 2);
    monitor.dispatch(&message("{}"));
    monitor.shut_down();
    assert!(!monitor.is_sink_finished(0));
    assert_eq!(monitor.take_from(0), Some(message("{}")));
    assert!(monitor.is_sink_finished(0));
}

#[test]
fn families_never_see_each_others_messages() {
    let mut acars = QueueMonitor::new(ProtocolFamily::Acars, None);
    let mut vdlm = QueueMonitor::new(ProtocolFamily::Vdlm2, None);
    acars.add_sink(sink("a"), 4);
    vdlm.add_sink(sink("v"), 4);
    let mut rx_acars = BoundedQueue::new(4);
    let mut rx_vdlm = BoundedQueue::new(4);
    rx_acars.try_send(message("\"acars-1\"")).unwrap();
    rx_acars.try_send(message("\"acars-2\"")).unwrap();
    rx_vdlm.try_send(message("\"vdlm-1\"")).unwrap();
    let (acars_reports, vdlm_reports) =
        monitor_queues(&mut rx_acars, &mut rx_vdlm, &mut acars, &mut vdlm);
    assert_eq!(acars_reports.len(), 2);
    assert_eq!(vdlm_reports.len(), 1);
    assert_eq!(drain(&mut acars, 0), vec![message("\"acars-1\""), message("\"acars-2\"")]);
    assert_eq!(drain(&mut vdlm, 0), vec![message("\"vdlm-1\"")]);
}

#[test]
fn sender_writes_its_messages_in_order_and_stops_when_closed() {
    let mut monitor = QueueMonitor::new(ProtocolFamily::Acars, None);
    monitor.add_sink(sink("other"), 4);
    let position = monitor.add_sink(sink("mine"), 4);
    assert_eq!(position, 1);
    let sender = SenderServer {
        host: "mine:1".to_string(),
        proto_name: "ACARS".to_string(),
        socket: (),
        channel: position,
    };
    assert!(matches!(sender.send_message(&mut monitor), SenderStep::Idle));
    monitor.dispatch(&message("{\"a\":1}"));
    monitor.dispatch(&message("{\"a\":2}"));
    match sender.send_message(&mut monitor) {
        SenderStep::Write(bytes) => assert_eq!(bytes, b"{\"a\":1}".to_vec()),
        other => panic!("unexpected step {:?}", other),
    }
    monitor.close_sink(position);
    assert!(!monitor.is_sink_finished(position));
    match sender.send_message(&mut monitor) {
        SenderStep::Write(bytes) => assert_eq!(bytes, b"{\"a\":2}".to_vec()),
        other => panic!("unexpected step {:?}", other),
    }
    assert!(monitor.is_sink_finished(position));
    assert!(matches!(sender.send_message(&mut monitor), SenderStep::Finished));
    assert_eq!(drain(&mut monitor, 0).len(), 2);
}

#[test]
fn sender_without_a_queue_is_finished() {
    let mut monitor = QueueMonitor::new(ProtocolFamily::Acars, None);
    let sender = SenderServer {
        host: String::new(),
        proto_name: String::new(),
        socket: 0u8,
        channel: 3,
    };
    assert!(matches!(sender.send_message(&mut monitor), SenderStep::Finished));
    assert_eq!(monitor.take_from(3), None);
    monitor.close_sink(3);
    assert!(monitor.is_sink_finished(3));
}
