//! The UDP egress sender: every message goes, as one datagram each, to every
//! configured destination.

use vstd::prelude::*;
use crate::helper_functions::texts;
use crate::message::{encoded, JsonError, Message};

verus! {

/// One datagram to put on the wire.
#[derive(Debug)]
pub struct Datagram {
    /// Where it goes: a `host:port` as configured.
    pub destination: String,
    /// What it carries: one encoded message, with no framing around it.
    pub payload: Vec<u8>,
}

/// The destination and payload of each datagram of a list, in order.
pub open spec fn datagram_views(datagrams: Seq<Datagram>) -> Seq<(Seq<char>, Seq<u8>)> {
    Seq::new(datagrams.len(), |i: int| (datagrams[i].destination@, datagrams[i].payload@))
}

/// One datagram with the same payload for each destination, in the order of
/// the destinations.
pub open spec fn broadcast_plan(destinations: Seq<Seq<char>>, payload: Seq<u8>) -> Seq<
    (Seq<char>, Seq<u8>),
> {
    Seq::new(destinations.len(), |i: int| (destinations[i], payload))
}

/// A UDP sender: its label and the destinations it sends to.
#[derive(Debug)]
pub struct UDPSenderServer {
    pub proto_name: String,
    pub host: Vec<String>,
}

/// A UDP sender, with its texts as sequences of characters.
pub ghost struct UdpSenderView {
    pub proto_name: Seq<char>,
    pub destinations: Seq<Seq<char>>,
}

impl View for UDPSenderServer {
    type V = UdpSenderView;

    open spec fn view(&self) -> UdpSenderView {
        UdpSenderView { proto_name: self.proto_name@, destinations: texts(self.host@) }
    }
}

impl UDPSenderServer {
    /// Prepares the sending of one message: the message is encoded once, and
    /// one datagram with that encoding is made out for every destination, in
    /// the configured order. Each datagram is to be sent independently of the
    /// others: the list does not depend on how any send turns out.
    pub fn send_message(&self, message: &Message) -> (r: Result<Vec<Datagram>, JsonError>)
        ensures
            match r {
                Ok(datagrams) => encoded(*message) matches Some(payload) && datagram_views(
                    datagrams@,
                ) == broadcast_plan(self@.destinations, payload),
                Err(_) => encoded(*message) is None,
            },
    {
        match message.serialize() {
            Err(e) => Err(e),
            Ok(payload) => {
                let mut datagrams: Vec<Datagram> = Vec::new();
                let mut at: usize = 0;
                while at < self.host.len()
                    invariant
                        at <= self.host@.len(),
                        datagrams@.len() == at,
                        forall|i: int|
                            0 <= i < at ==> (#[trigger] datagrams@[i]).destination@
                                == self.host@[i]@ && datagrams@[i].payload@ == payload@,
                    decreases self.host@.len() - at,
                {
                    let destination = self.host[at].clone();
                    let copy = copy_bytes(&payload);
                    datagrams.push(Datagram { destination, payload: copy });
                    at = at + 1;
                }
                proof {
                    assert(datagram_views(datagrams@) =~= broadcast_plan(
                        self@.destinations,
                        payload@,
                    ));
                }
                Ok(datagrams)
            },
        }
    }
}

/// A copy of a byte string.
fn copy_bytes(bytes: &Vec<u8>) -> (copy: Vec<u8>)
    ensures
        copy@ == bytes@,
{
    let mut copy: Vec<u8> = Vec::with_capacity(bytes.len());
    let mut at: usize = 0;
    while at < bytes.len()
        invariant
            at <= bytes@.len(),
            copy@ == bytes@.subrange(0, at as int),
        decreases bytes@.len() - at,
    {
        copy.push(bytes[at]);
        assert(copy@ =~= bytes@.subrange(0, at + 1));
        at = at + 1;
    }
    assert(bytes@.subrange(0, at as int) =~= bytes@);
    copy
}

} // verus!
