//! The broadcast server's registry of connected peers. Every accepted
//! connection is entered with an outbound queue of its own, every message
//! for the server is offered to the queue of each peer, and a connection
//! that ends is taken out again.

use vstd::prelude::*;
use crate::message::Message;
use crate::queue::{lemma_offer_all_with_room, BoundedQueue, QueueState, SendError};

verus! {

/// How many messages wait at most for one connected peer.
pub const PEER_QUEUE_CAPACITY: usize = 32;

/// The identity of a connection: the remote address and port. An IPv4
/// address is held in its IPv6-mapped form.
#[derive(Clone, Copy, Debug, PartialEq, Eq, Structural)]
pub struct PeerAddr {
    pub ip: u128,
    pub port: u16,
}

/// A peer that turned a message away, with the reason.
#[derive(Clone, Copy, Debug, PartialEq, Eq, Structural)]
pub struct PeerFailure {
    pub peer: PeerAddr,
    pub error: SendError,
}

struct Peer {
    addr: PeerAddr,
    outbound: BoundedQueue<Message>,
}

/// The peers of one broadcast server: each connected peer with the queue of
/// messages that wait to be written to it.
pub struct Shared {
    peers: Vec<Peer>,
}

/// No address occurs twice among the peers.
spec fn distinct(peers: Seq<Peer>) -> bool {
    forall|i: int, j: int|
        0 <= i < j < peers.len() ==> (#[trigger] peers[i]).addr != (#[trigger] peers[j]).addr
}

/// The peers as a map from address to queue.
spec fn registry_map(peers: Seq<Peer>) -> Map<PeerAddr, QueueState<Message>>
    decreases peers.len(),
{
    if peers.len() == 0 {
        Map::empty()
    } else {
        registry_map(peers.drop_last()).insert(peers.last().addr, peers.last().outbound@)
    }
}

/// The map holds exactly the listed peers, each with its own queue.
proof fn lemma_registry_map(peers: Seq<Peer>)
    requires
        distinct(peers),
    ensures
        registry_map(peers).dom().finite(),
        registry_map(peers).dom().len() == peers.len(),
        forall|i: int|
            0 <= i < peers.len() ==> registry_map(peers).dom().contains(
                (#[trigger] peers[i]).addr,
            ) && registry_map(peers)[peers[i].addr] == peers[i].outbound@,
        forall|addr: PeerAddr| #[trigger]
            registry_map(peers).dom().contains(addr) ==> exists|i: int|
                0 <= i < peers.len() && (#[trigger] peers[i]).addr == addr,
    decreases peers.len(),
{
    if peers.len() > 0 {
        let shorter = peers.drop_last();
        let last = peers.last();
        assert(distinct(shorter)) by {
            assert forall|i: int, j: int| 0 <= i < j < shorter.len() implies (
            #[trigger] shorter[i]).addr != (#[trigger] shorter[j]).addr by {
                assert(shorter[i] == peers[i]);
                assert(shorter[j] == peers[j]);
            }
        }
        lemma_registry_map(shorter);
        assert(!registry_map(shorter).dom().contains(last.addr)) by {
            if registry_map(shorter).dom().contains(last.addr) {
                let i = choose|i: int|
                    0 <= i < shorter.len() && (#[trigger] shorter[i]).addr == last.addr;
                assert(shorter[i] == peers[i]);
                assert(peers[peers.len() - 1] == last);
            }
        }
        assert forall|i: int| 0 <= i < peers.len() implies registry_map(peers).dom().contains(
            (#[trigger] peers[i]).addr,
        ) && registry_map(peers)[peers[i].addr] == peers[i].outbound@ by {
            if i < shorter.len() {
                assert(shorter[i] == peers[i]);
            }
        }
        assert forall|addr: PeerAddr| #[trigger]
            registry_map(peers).dom().contains(addr) implies exists|i: int|
            0 <= i < peers.len() && (#[trigger] peers[i]).addr == addr by {
            if addr == last.addr {
                assert(peers[peers.len() - 1].addr == addr);
            } else {
                let i = choose|i: int|
                    0 <= i < shorter.len() && (#[trigger] shorter[i]).addr == addr;
                assert(shorter[i] == peers[i]);
            }
        }
    }
}

/// Replacing the queue of one listed peer, and nothing else, is an insert
/// into the map at that peer's address.
proof fn lemma_queue_replaced(before: Seq<Peer>, after: Seq<Peer>, position: int)
    requires
        distinct(before),
        0 <= position < before.len(),
        after.len() == before.len(),
        after[position].addr == before[position].addr,
        forall|i: int| 0 <= i < before.len() && i != position ==> after[i] == before[i],
    ensures
        distinct(after),
        registry_map(after) == registry_map(before).insert(
            before[position].addr,
            after[position].outbound@,
        ),
{
    assert(distinct(after)) by {
        assert forall|i: int, j: int| 0 <= i < j < after.len() implies (#[trigger] after[i]).addr
            != (#[trigger] after[j]).addr by {
            assert(after[i].addr == before[i].addr);
            assert(after[j].addr == before[j].addr);
        }
    }
    lemma_registry_map(before);
    lemma_registry_map(after);
    let addr = before[position].addr;
    let expected = registry_map(before).insert(addr, after[position].outbound@);
    assert forall|a: PeerAddr| expected.dom().contains(a) implies #[trigger] registry_map(
        after,
    ).dom().contains(a) && registry_map(after)[a] == expected[a] by {
        if a == addr {
            assert(after[position].addr == addr);
        } else {
            let i = choose|i: int| 0 <= i < before.len() && (#[trigger] before[i]).addr == a;
            assert(after[i].addr == a);
        }
    }
    assert forall|a: PeerAddr| #[trigger]
        registry_map(after).dom().contains(a) implies expected.dom().contains(a) by {
        let i = choose|i: int| 0 <= i < after.len() && (#[trigger] after[i]).addr == a;
        assert(before[i].addr == a);
    }
    assert(registry_map(after) =~= expected);
}

impl View for Shared {
    type V = Map<PeerAddr, QueueState<Message>>;

    /// The registry, as the mapping it stands for: each connected peer's
    /// address, with the state of the peer's outbound queue.
    closed spec fn view(&self) -> Map<PeerAddr, QueueState<Message>> {
        registry_map(self.peers@)
    }
}

/// One of the first `upto` peers turned the message away as `failure` says.
spec fn rejected_before(peers: Seq<Peer>, upto: int, failure: PeerFailure) -> bool {
    exists|i: int|
        0 <= i < upto && (#[trigger] peers[i]).addr == failure.peer
            && peers[i].outbound@.verdict() == Err::<(), SendError>(failure.error)
}

/// The failures name `addr`.
spec fn named_in(failures: Seq<PeerFailure>, addr: PeerAddr) -> bool {
    exists|k: int| 0 <= k < failures.len() && (#[trigger] failures[k]).peer == addr
}

/// Where `addr` stands among the peers, if it is there.
fn position_of(peers: &Vec<Peer>, addr: PeerAddr) -> (position: Option<usize>)
    ensures
        match position {
            Some(i) => i < peers@.len() && peers@[i as int].addr == addr,
            None => forall|i: int| 0 <= i < peers@.len() ==> (#[trigger] peers@[i]).addr != addr,
        },
{
    let mut at: usize = 0;
    while at < peers.len()
        invariant
            at <= peers@.len(),
            forall|i: int| 0 <= i < at ==> (#[trigger] peers@[i]).addr != addr,
        decreases peers@.len() - at,
    {
        if peers[at].addr.ip == addr.ip && peers[at].addr.port == addr.port {
            return Some(at);
        }
        at = at + 1;
    }
    None
}

impl Shared {
    #[verifier::type_invariant]
    spec fn no_peer_twice(self) -> bool {
        distinct(self.peers@)
    }

    /// A registry without peers.
    pub fn new() -> (registry: Self)
        ensures
            registry@ == Map::<PeerAddr, QueueState<Message>>::empty(),
    {
        Shared { peers: Vec::new() }
    }

    /// Number of connected peers.
    pub fn len(&self) -> (count: usize)
        ensures
            self@.dom().finite(),
            count == self@.dom().len(),
    {
        proof {
            use_type_invariant(self);
            lemma_registry_map(self.peers@);
        }
        self.peers.len()
    }

    /// Whether no peer is connected.
    pub fn is_empty(&self) -> (empty: bool)
        ensures
            empty == (self@ == Map::<PeerAddr, QueueState<Message>>::empty()),
    {
        proof {
            use_type_invariant(self);
            lemma_registry_map(self.peers@);
            if self.peers@.len() > 0 {
                assert(self@.dom().contains(self.peers@[0].addr));
            }
        }
        self.peers.len() == 0
    }

    /// Whether the peer at `addr` is registered.
    pub fn contains(&self, addr: PeerAddr) -> (found: bool)
        ensures
            found == self@.dom().contains(addr),
    {
        proof {
            use_type_invariant(self);
            lemma_registry_map(self.peers@);
        }
        position_of(&self.peers, addr).is_some()
    }

    /// Enters the peer at `addr` with its outbound queue. The registry holds
    /// one queue for an address: a queue that was registered for `addr`
    /// before is replaced and handed back.
    pub fn insert(&mut self, addr: PeerAddr, handle: BoundedQueue<Message>) -> (previous: Option<
        BoundedQueue<Message>,
    >)
        ensures
            final(self)@ == old(self)@.insert(addr, handle@),
            match previous {
                Some(queue) => old(self)@.dom().contains(addr) && queue@ == old(self)@[addr],
                None => !old(self)@.dom().contains(addr),
            },
    {
        proof {
            use_type_invariant(&*self);
            lemma_registry_map(self.peers@);
        }
        let mut peers: Vec<Peer> = Vec::new();
        std::mem::swap(&mut peers, &mut self.peers);
        let ghost before = peers@;
        let previous = match position_of(&peers, addr) {
            Some(position) => {
                let mut entry = Peer { addr, outbound: handle };
                std::mem::swap(&mut entry, &mut peers[position]);
                proof {
                    lemma_queue_replaced(before, peers@, position as int);
                }
                Some(entry.outbound)
            },
            None => {
                peers.push(Peer { addr, outbound: handle });
                proof {
                    assert(peers@.drop_last() =~= before);
                    assert(distinct(peers@)) by {
                        assert forall|i: int, j: int| 0 <= i < j < peers@.len() implies (
                        #[trigger] peers@[i]).addr != (#[trigger] peers@[j]).addr by {
                            assert(peers@[i] == before[i]);
                            if j < before.len() {
                                assert(peers@[j] == before[j]);
                            }
                        }
                    }
                }
                None
            },
        };
        self.peers = peers;
        previous
    }

    /// Takes the peer at `addr` out of the registry, as its connection has
    /// ended, and hands back its queue. The other peers stay as they are.
    pub fn remove(&mut self, addr: PeerAddr) -> (removed: Option<BoundedQueue<Message>>)
        ensures
            final(self)@ == old(self)@.remove(addr),
            match removed {
                Some(queue) => old(self)@.dom().contains(addr) && queue@ == old(self)@[addr],
                None => !old(self)@.dom().contains(addr),
            },
    {
        proof {
            use_type_invariant(&*self);
            lemma_registry_map(self.peers@);
        }
        let mut peers: Vec<Peer> = Vec::new();
        std::mem::swap(&mut peers, &mut self.peers);
        let ghost before = peers@;
        let removed = match position_of(&peers, addr) {
            Some(position) => {
                let entry = peers.remove(position);
                proof {
                    assert(distinct(peers@)) by {
                        assert forall|i: int, j: int| 0 <= i < j < peers@.len() implies (
                        #[trigger] peers@[i]).addr != (#[trigger] peers@[j]).addr by {
                            let from_i = if i < position { i } else { i + 1 };
                            let from_j = if j < position { j } else { j + 1 };
                            assert(peers@[i] == before[from_i]);
                            assert(peers@[j] == before[from_j]);
                        }
                    }
                    lemma_registry_map(peers@);
                    let expected = registry_map(before).remove(addr);
                    assert forall|a: PeerAddr| expected.dom().contains(
                        a,
                    ) implies #[trigger] registry_map(peers@).dom().contains(a) && registry_map(
                        peers@,
                    )[a] == expected[a] by {
                        let i = choose|i: int|
                            0 <= i < before.len() && (#[trigger] before[i]).addr == a;
                        let to = if i < position { i } else { i - 1 };
                        assert(peers@[to] == before[i]);
                    }
                    assert forall|a: PeerAddr| #[trigger]
                        registry_map(peers@).dom().contains(a) implies expected.dom().contains(
                        a,
                    ) by {
                        let i = choose|i: int|
                            0 <= i < peers@.len() && (#[trigger] peers@[i]).addr == a;
                        let from = if i < position { i } else { i + 1 };
                        assert(peers@[i] == before[from]);
                        assert(before[from].addr != before[position as int].addr);
                    }
                    assert(registry_map(peers@) =~= expected);
                }
                Some(entry.outbound)
            },
            None => {
                proof {
                    assert(registry_map(before).remove(addr) =~= registry_map(before));
                }
                None
            },
        };
        self.peers = peers;
        removed
    }

    /// Offers one message to every registered peer: each peer's queue is
    /// offered a copy of its own. A queue that is full or closed drops its
    /// copy and is reported; the other peers are served all the same.
    pub fn broadcast(&mut self, message: &Message) -> (failures: Vec<PeerFailure>)
        ensures
            final(self)@ == broadcast_to(old(self)@, *message),
            failures_fit(failures@, old(self)@),
    {
        proof {
            use_type_invariant(&*self);
            lemma_registry_map(self.peers@);
        }
        let mut peers: Vec<Peer> = Vec::new();
        std::mem::swap(&mut peers, &mut self.peers);
        let ghost before = peers@;
        let mut failures: Vec<PeerFailure> = Vec::new();
        let mut at: usize = 0;
        while at < peers.len()
            invariant
                at <= peers@.len(),
                peers@.len() == before.len(),
                distinct(before),
                forall|i: int| 0 <= i < peers@.len() ==> (#[trigger] peers@[i]).addr == before[i].addr,
                forall|i: int|
                    0 <= i < at ==> (#[trigger] peers@[i]).outbound@ == before[i].outbound@.offer(
                        *message,
                    ),
                forall|i: int|
                    at <= i < peers@.len() ==> (#[trigger] peers@[i]).outbound@
                        == before[i].outbound@,
                forall|k: int|
                    0 <= k < failures@.len() ==> rejected_before(
                        before,
                        at as int,
                        #[trigger] failures@[k],
                    ),
                forall|i: int|
                    0 <= i < at && !(#[trigger] before[i]).outbound@.accepts() ==> named_in(
                        failures@,
                        before[i].addr,
                    ),
                forall|j: int, k: int|
                    0 <= j < k < failures@.len() ==> (#[trigger] failures@[j]).peer != (
                    #[trigger] failures@[k]).peer,
            decreases peers@.len() - at,
        {
            let ghost entries = peers@;
            let ghost reported = failures@;
            let copy = message.clone();
            let outcome = peers[at].outbound.try_send(copy);
            proof {
                assert(peers@.len() == entries.len());
                assert(forall|i: int|
                    0 <= i < entries.len() && i != at ==> peers@[i] == entries[i]);
                assert(peers@[at as int].addr == entries[at as int].addr);
            }
            match outcome {
                Ok(()) => {
                    proof {
                        assert forall|k: int| 0 <= k < failures@.len() implies rejected_before(
                            before,
                            at + 1,
                            #[trigger] failures@[k],
                        ) by {
                            assert(rejected_before(before, at as int, failures@[k]));
                        }
                    }
                },
                Err(error) => {
                    failures.push(PeerFailure { peer: peers[at].addr, error });
                    proof {
                        let added = reported.len() as int;
                        assert(failures@[added].peer == before[at as int].addr);
                        assert forall|k: int| 0 <= k < failures@.len() implies rejected_before(
                            before,
                            at + 1,
                            #[trigger] failures@[k],
                        ) by {
                            if k < added {
                                assert(failures@[k] == reported[k]);
                                assert(rejected_before(before, at as int, reported[k]));
                                let i = choose|i: int|
                                    0 <= i < at && (#[trigger] before[i]).addr == reported[k].peer
                                        && before[i].outbound@.verdict() == Err::<(), SendError>(
                                        reported[k].error,
                                    );
                                assert(before[i].addr == failures@[k].peer);
                            } else {
                                assert(before[at as int].addr == failures@[k].peer);
                            }
                        }
                        assert forall|j: int, k: int|
                            0 <= j < k < failures@.len() implies (#[trigger] failures@[j]).peer != (
                        #[trigger] failures@[k]).peer by {
                            assert(failures@[j] == reported[j]);
                            if k == added {
                                assert(rejected_before(before, at as int, reported[j]));
                                let i = choose|i: int|
                                    0 <= i < at && (#[trigger] before[i]).addr == reported[j].peer
                                        && before[i].outbound@.verdict() == Err::<(), SendError>(
                                        reported[j].error,
                                    );
                                assert(before[i].addr != before[at as int].addr);
                            } else {
                                assert(failures@[k] == reported[k]);
                            }
                        }
                        assert forall|i: int|
                            0 <= i < at + 1 && !(#[trigger] before[i]).outbound@.accepts() implies named_in(
                            failures@,
                            before[i].addr,
                        ) by {
                            if i < at {
                                assert(named_in(reported, before[i].addr));
                                let k = choose|k: int|
                                    0 <= k < reported.len() && (#[trigger] reported[k]).peer
                                        == before[i].addr;
                                assert(failures@[k] == reported[k]);
                            } else {
                                assert(failures@[added].peer == before[i].addr);
                            }
                        }
                    }
                },
            }
            at = at + 1;
        }
        proof {
            assert(distinct(peers@)) by {
                assert forall|i: int, j: int| 0 <= i < j < peers@.len() implies (
                #[trigger] peers@[i]).addr != (#[trigger] peers@[j]).addr by {
                    assert(before[i].addr != before[j].addr);
                }
            }
            lemma_registry_map(peers@);
            let expected = broadcast_to(registry_map(before), *message);
            assert forall|a: PeerAddr| expected.dom().contains(a) implies #[trigger] registry_map(
                peers@,
            ).dom().contains(a) && registry_map(peers@)[a] == expected[a] by {
                let i = choose|i: int| 0 <= i < before.len() && (#[trigger] before[i]).addr == a;
                assert(peers@[i].addr == a);
            }
            assert forall|a: PeerAddr| #[trigger]
                registry_map(peers@).dom().contains(a) implies expected.dom().contains(a) by {
                let i = choose|i: int| 0 <= i < peers@.len() && (#[trigger] peers@[i]).addr == a;
                assert(before[i].addr == a);
            }
            assert(registry_map(peers@) =~= expected);
            assert(failures_fit(failures@, registry_map(before))) by {
                assert forall|k: int| 0 <= k < failures@.len() implies registry_map(
                    before,
                ).dom().contains((#[trigger] failures@[k]).peer) && registry_map(
                    before,
                )[failures@[k].peer].verdict() == Err::<(), SendError>(failures@[k].error) by {
                    assert(rejected_before(before, at as int, failures@[k]));
                    let i = choose|i: int|
                        0 <= i < at && (#[trigger] before[i]).addr == failures@[k].peer
                            && before[i].outbound@.verdict() == Err::<(), SendError>(
                            failures@[k].error,
                        );
                    assert(before[i].addr == failures@[k].peer);
                }
                assert forall|a: PeerAddr|
                    registry_map(before).dom().contains(a) && !(#[trigger] registry_map(
                        before,
                    )[a]).accepts() implies exists|k: int|
                    0 <= k < failures@.len() && (#[trigger] failures@[k]).peer == a by {
                    let i = choose|i: int|
                        0 <= i < before.len() && (#[trigger] before[i]).addr == a;
                    assert(!before[i].outbound@.accepts());
                    assert(named_in(failures@, before[i].addr));
                }
            }
        }
        self.peers = peers;
        failures
    }

    /// Takes the oldest waiting message out of the queue of the peer at
    /// `addr`, for the connection to write. Gives nothing where the peer is
    /// not registered or nothing waits for it.
    pub fn take_for(&mut self, addr: PeerAddr) -> (message: Option<Message>)
        ensures
            old(self)@.dom().contains(addr) ==> message == old(self)@[addr].front() && final(self)@
                == old(self)@.insert(addr, old(self)@[addr].after_take()),
            !old(self)@.dom().contains(addr) ==> message is None && final(self)@ == old(self)@,
    {
        proof {
            use_type_invariant(&*self);
            lemma_registry_map(self.peers@);
        }
        let mut peers: Vec<Peer> = Vec::new();
        std::mem::swap(&mut peers, &mut self.peers);
        let ghost before = peers@;
        let message = match position_of(&peers, addr) {
            Some(position) => {
                let message = peers[position].outbound.recv();
                proof {
                    lemma_queue_replaced(before, peers@, position as int);
                }
                message
            },
            None => None,
        };
        self.peers = peers;
        message
    }
}

/// The registry after one message was offered to every peer: the same peers,
/// each queue having taken or dropped the message on its own account.
pub open spec fn broadcast_to(
    registry: Map<PeerAddr, QueueState<Message>>,
    message: Message,
) -> Map<PeerAddr, QueueState<Message>> {
    Map::new(|addr: PeerAddr| registry.dom().contains(addr), |addr: PeerAddr| registry[addr].offer(message))
}

/// The registry after the given messages were broadcast one after the other.
pub open spec fn broadcast_all(
    registry: Map<PeerAddr, QueueState<Message>>,
    messages: Seq<Message>,
) -> Map<PeerAddr, QueueState<Message>>
    decreases messages.len(),
{
    if messages.len() == 0 {
        registry
    } else {
        broadcast_to(broadcast_all(registry, messages.drop_last()), messages.last())
    }
}

/// Whether `failures` reports a broadcast to `registry` rightly: every entry
/// names a registered peer that turned the message away, with its reason;
/// every such peer is named; and none is named twice.
pub open spec fn failures_fit(
    failures: Seq<PeerFailure>,
    registry: Map<PeerAddr, QueueState<Message>>,
) -> bool {
    &&& forall|k: int|
        0 <= k < failures.len() ==> registry.dom().contains((#[trigger] failures[k]).peer)
            && registry[failures[k].peer].verdict() == Err::<(), SendError>(failures[k].error)
    &&& forall|addr: PeerAddr|
        registry.dom().contains(addr) && !(#[trigger] registry[addr]).accepts() ==> exists|k: int|
            0 <= k < failures.len() && (#[trigger] failures[k]).peer == addr
    &&& forall|j: int, k: int|
        0 <= j < k < failures.len() ==> (#[trigger] failures[j]).peer != (
        #[trigger] failures[k]).peer
}

/// Broadcasting never changes who is registered, and what a peer's queue
/// holds after any number of broadcasts is what that queue alone makes of
/// the messages: a peer that is full or closed takes nothing from another.
pub proof fn lemma_broadcast_reaches_each_peer(
    registry: Map<PeerAddr, QueueState<Message>>,
    messages: Seq<Message>,
    addr: PeerAddr,
)
    requires
        registry.dom().contains(addr),
    ensures
        broadcast_all(registry, messages).dom() == registry.dom(),
        broadcast_all(registry, messages)[addr] == registry[addr].offer_all(messages),
    decreases messages.len(),
{
    if messages.len() > 0 {
        lemma_broadcast_reaches_each_peer(registry, messages.drop_last(), addr);
        assert(broadcast_all(registry, messages).dom() =~= registry.dom());
    }
}

/// A peer whose queue is open and has room for the messages receives every
/// broadcast message, in the order of the broadcasts.
pub proof fn lemma_broadcast_fidelity(
    registry: Map<PeerAddr, QueueState<Message>>,
    messages: Seq<Message>,
    addr: PeerAddr,
)
    requires
        registry.dom().contains(addr),
        !registry[addr].closed,
        registry[addr].items.len() + messages.len() <= registry[addr].capacity,
    ensures
        broadcast_all(registry, messages)[addr].items == registry[addr].items + messages,
{
    lemma_broadcast_reaches_each_peer(registry, messages, addr);
    lemma_offer_all_with_room(registry[addr], messages);
}

/// A broadcast sees the registry either before or after a peer comes or
/// goes, never in between: whichever of the two happens first, every other
/// peer ends with the same queue, and only the peer that came or went can
/// tell the difference.
pub proof fn lemma_broadcast_commutes_with_membership(
    registry: Map<PeerAddr, QueueState<Message>>,
    message: Message,
    addr: PeerAddr,
    handle: QueueState<Message>,
)
    ensures
        broadcast_to(registry.insert(addr, handle), message) == broadcast_to(
            registry,
            message,
        ).insert(addr, handle.offer(message)),
        broadcast_to(registry.remove(addr), message) == broadcast_to(registry, message).remove(
            addr,
        ),
{
    assert(broadcast_to(registry.insert(addr, handle), message) =~= broadcast_to(
        registry,
        message,
    ).insert(addr, handle.offer(message)));
    assert(broadcast_to(registry.remove(addr), message) =~= broadcast_to(
        registry,
        message,
    ).remove(addr));
}

/// A connection that was entered and has ended leaves no trace: the
/// registry is as if the peer had never been there, and once every peer is
/// gone the registry is empty.
pub proof fn lemma_removed_peer_is_gone(
    registry: Map<PeerAddr, QueueState<Message>>,
    addr: PeerAddr,
    handle: QueueState<Message>,
)
    ensures
        !registry.remove(addr).dom().contains(addr),
        registry.insert(addr, handle).remove(addr) == registry.remove(addr),
        !registry.dom().contains(addr) ==> registry.insert(addr, handle).remove(addr) == registry,
        registry.dom() =~= set![addr] ==> registry.remove(addr) == Map::<
            PeerAddr,
            QueueState<Message>,
        >::empty(),
{
    assert(registry.insert(addr, handle).remove(addr) =~= registry.remove(addr));
    if !registry.dom().contains(addr) {
        assert(registry.remove(addr) =~= registry);
    }
    if registry.dom() =~= set![addr] {
        assert(registry.remove(addr) =~= Map::<PeerAddr, QueueState<Message>>::empty());
    }
}

} // verus!
