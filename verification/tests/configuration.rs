use acars_router::generics::{OutputServerConfig, SenderServerConfig};

#[test]
fn sender_configuration_hands_out_its_lists() {
    let config = SenderServerConfig {
        send_udp: vec!["a:1".to_string()],
        send_tcp: vec!["b:2".to_string(), "c:3".to_string()],
        serve_tcp: vec!["4".to_string()],
        serve_zmq: Vec::new(),
        max_udp_packet_size: 1472,
    };
    assert_eq!(config.send_udp(), &vec!["a:1".to_string()]);
    assert_eq!(config.send_tcp().len(), 2);
    assert_eq!(config.serve_tcp(), &vec!["4".to_string()]);
    assert!(config.serve_zmq().is_empty());
    assert_eq!(*config.max_udp_packet_size(), 1472);
    let copy = config.clone();
    assert_eq!(copy.send_tcp, config.send_tcp);
}

#[test]
fn output_configuration_hands_out_its_lists() {
    let config = OutputServerConfig {
        listen_udp: vec!["5550".to_string()],
        listen_tcp: Vec::new(),
        receive_tcp: vec!["feed.example:15550".to_string()],
        receive_zmq: vec!["feed.example:45550".to_string()],
        reassembly_window: 15,
    };
    assert_eq!(config.listen_udp(), &vec!["5550".to_string()]);
    assert!(config.listen_tcp().is_empty());
    assert_eq!(config.receive_tcp()[0], "feed.example:15550");
    assert_eq!(config.receive_zmq()[0], "feed.example:45550");
    assert_eq!(*config.reassembly_window(), 15);
}
