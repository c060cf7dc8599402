//! Types shared by the servers: the configuration of one protocol family,
//! the generic stream sender and the reconnect options of outbound
//! connections.

use vstd::prelude::*;
use crate::reconnect::ReconnectSchedule;

verus! {

/// A sender that writes every message of one sink queue to one socket of
/// kind `T`: an outbound TCP stream or a bound publish socket.
pub struct SenderServer<T> {
    /// The address the socket is connected or bound to.
    pub host: String,
    /// The label of the sender.
    pub proto_name: String,
    /// The socket to write to. The sender only carries it.
    pub socket: T,
    /// The sink queue that feeds the sender, by its position among the sink
    /// queues of its protocol family.
    pub channel: usize,
}

/// The egress configuration of one protocol family. An empty list switches
/// the kind of sink off.
#[derive(Clone, Debug)]
pub struct SenderServerConfig {
    /// Destinations, as `host:port`, of the UDP sender.
    pub send_udp: Vec<String>,
    /// Destinations, as `host:port`, each served by its own outbound TCP
    /// sender.
    pub send_tcp: Vec<String>,
    /// Ports on which to serve connecting TCP clients.
    pub serve_tcp: Vec<String>,
    /// Ports on which to publish.
    pub serve_zmq: Vec<String>,
    /// Largest UDP payload, in bytes.
    pub max_udp_packet_size: usize,
}

impl SenderServerConfig {
    pub fn send_udp(&self) -> (list: &Vec<String>)
        ensures
            *list == self.send_udp,
    {
        &self.send_udp
    }

    pub fn send_tcp(&self) -> (list: &Vec<String>)
        ensures
            *list == self.send_tcp,
    {
        &self.send_tcp
    }

    pub fn serve_tcp(&self) -> (list: &Vec<String>)
        ensures
            *list == self.serve_tcp,
    {
        &self.serve_tcp
    }

    pub fn serve_zmq(&self) -> (list: &Vec<String>)
        ensures
            *list == self.serve_zmq,
    {
        &self.serve_zmq
    }

    pub fn max_udp_packet_size(&self) -> (size: &usize)
        ensures
            *size == self.max_udp_packet_size,
    {
        &self.max_udp_packet_size
    }
}

/// The ingress configuration of one protocol family. An empty list switches
/// the kind of source off.
#[derive(Clone, Debug)]
pub struct OutputServerConfig {
    /// Ports on which to listen for UDP datagrams.
    pub listen_udp: Vec<String>,
    /// Ports on which to listen for TCP connections.
    pub listen_tcp: Vec<String>,
    /// Remote `host:port` sources of newline-delimited JSON to connect to.
    pub receive_tcp: Vec<String>,
    /// Remote publishers to subscribe to.
    pub receive_zmq: Vec<String>,
    /// Seconds within which the parts of a split message are put together.
    pub reassembly_window: u64,
}

impl OutputServerConfig {
    pub fn listen_udp(&self) -> (list: &Vec<String>)
        ensures
            *list == self.listen_udp,
    {
        &self.listen_udp
    }

    pub fn listen_tcp(&self) -> (list: &Vec<String>)
        ensures
            *list == self.listen_tcp,
    {
        &self.listen_tcp
    }

    pub fn receive_tcp(&self) -> (list: &Vec<String>)
        ensures
            *list == self.receive_tcp,
    {
        &self.receive_tcp
    }

    pub fn receive_zmq(&self) -> (list: &Vec<String>)
        ensures
            *list == self.receive_zmq,
    {
        &self.receive_zmq
    }

    pub fn reassembly_window(&self) -> (window: &u64)
        ensures
            *window == self.reassembly_window,
    {
        &self.reassembly_window
    }
}

/// How an outbound connection behaves when it cannot be established or is
/// lost.
#[derive(Clone, Copy, Debug, PartialEq, Eq, Structural)]
pub struct ReconnectOptions {
    /// Whether the connection gives up for good when its very first attempt
    /// fails.
    pub exit_if_first_connect_fails: bool,
}

impl ReconnectOptions {
    /// The waits between the attempts of one round of reconnecting. Every
    /// round begins with a schedule of its own, at its first wait.
    pub fn retries_to_attempt(&self) -> (schedule: ReconnectSchedule)
        ensures
            schedule@ == 0,
    {
        get_our_standard_reconnect_strategy()
    }
}

/// The reconnect options of every outbound connection of the router: the
/// connection keeps trying when its first attempt fails, and waits between
/// attempts as the standard schedule says.
pub fn reconnect_options() -> (options: ReconnectOptions)
    ensures
        !options.exit_if_first_connect_fails,
{
    ReconnectOptions { exit_if_first_connect_fails: false }
}

/// A fresh instance of the schedule that outbound connections follow: its
/// waits are `wait_secs(0)`, `wait_secs(1)`, ... without end.
pub fn get_our_standard_reconnect_strategy() -> (schedule: ReconnectSchedule)
    ensures
        schedule@ == 0,
{
    ReconnectSchedule::new()
}

} // verus!
