//! Distribution core of an aircraft-datalink message router: reconnecting
//! line ingestion, bounded per-sink queues and the fan-out of decoded
//! messages to every configured egress sink.

pub mod framing;
pub mod generics;
pub mod helper_functions;
pub mod message;
pub mod queue;
pub mod queue_monitor;
pub mod reconnect;
pub mod sender_servers;
pub mod tcp_receiver_server;
pub mod tcp_serve_server;
pub mod udp_sender_server;
