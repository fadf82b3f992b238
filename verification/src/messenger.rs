//! The connection registry: it knows every live connection, the two sets
//! of subscribers and the translation of each connection that leads to a
//! peer, and it alone decides what is written to which socket.
//!
//! The registry is a state machine. Each operation of its mailbox is one
//! step, and each step hands back the frames to write, in order. The
//! sockets themselves stay with the caller.

use crate::codec::{encode, spec_encode};
use crate::packet::{Packet, PacketView};
use crate::shard::{Position, Shard};
use crate::translation::{TranslationInfo, spec_translate, translate_outgoing};
use std::collections::{HashMap, HashSet};
use vstd::prelude::*;
use vstd::std_specs::hash::*;
use vstd::std_specs::iter::IteratorSpec;

verus! {

/// The set of subscribers that a connection joins.
#[derive(Debug, Clone, Copy, PartialEq, Eq, Structural)]
pub enum SubscriberType {
    All,
    LocalOnly,
}

/// Asks for a packet to be sent to one connection.
#[derive(Debug, Clone, PartialEq, Eq)]
pub struct SendPacketMessage {
    pub conn_id: u128,
    pub packet: Packet,
}

/// Asks for the translation of a connection to be set to a shard.
#[derive(Debug, Clone, PartialEq, Eq)]
pub struct UpdateTranslationMessage {
    pub conn_id: u128,
    pub map: Shard,
}

/// Asks for a connection to join a set of subscribers.
#[derive(Debug, Clone, Copy, PartialEq, Eq)]
pub struct SubscribeMessage {
    pub conn_id: u128,
    pub typ: SubscriberType,
}

/// Asks for a packet to be sent to the subscribers.
#[derive(Debug, Clone, PartialEq, Eq)]
pub struct BroadcastPacketMessage {
    pub packet: Packet,
    pub source_conn_id: Option<u128>,
    pub local: bool,
}

/// Announces a connection. Its socket stays with the caller, under the
/// same id.
#[derive(Debug, Clone, Copy, PartialEq, Eq)]
pub struct NewConnectionMessage {
    pub conn_id: u128,
}

/// The operations of the registry's mailbox.
#[derive(Debug, Clone, PartialEq, Eq)]
pub enum MessengerOperations {
    Send(SendPacketMessage),
    Broadcast(BroadcastPacketMessage),
    Subscribe(SubscribeMessage),
    New(NewConnectionMessage),
    UpdateTranslation(UpdateTranslationMessage),
}

/// One frame to write to the socket of one connection.
#[derive(Debug, Clone, PartialEq, Eq)]
pub struct Delivery {
    pub conn_id: u128,
    pub frame: Vec<u8>,
}

/// A delivery, as a mathematical value.
pub struct DeliveryView {
    pub conn_id: u128,
    pub frame: Seq<u8>,
}

impl View for Delivery {
    type V = DeliveryView;

    open spec fn view(&self) -> DeliveryView {
        DeliveryView { conn_id: self.conn_id, frame: self.frame@ }
    }
}

/// The deliveries of a list, as mathematical values.
pub open spec fn delivery_views(list: Seq<Delivery>) -> Seq<DeliveryView> {
    Seq::new(list.len(), |i: int| list[i]@)
}

/// `order` is a walk of `set`: it holds each member of the set once.
pub open spec fn is_walk(order: Seq<u128>, set: Set<u128>) -> bool {
    order.no_duplicates() && order.to_set() == set
}

/// The members of a set, each once, in the order in which the set hands
/// them out. Nothing is known of that order.
pub fn members(set: &HashSet<u128>) -> (list: Vec<u128>)
    ensures
        is_walk(list@, set@),
{
    broadcast use group_hash_axioms;

    let mut list: Vec<u128> = Vec::new();
    let ghost all = set.iter().remaining().unref();
    for k in it: set.iter()
        invariant
            it.seq().unref() == all,
            list@ == all.take(it.index() as int),
    {
        list.push(*k);
        assert(all.take(it.index() + 1) =~= all.take(it.index() as int).push(*k));
    }
    assert(list@ =~= all);
    list
}

/// Those of `order` that get a broadcast: the connections that are known,
/// but for the one to skip.
pub open spec fn recipients(order: Seq<u128>, skip: Option<u128>, known: Set<u128>) -> Seq<u128>
    decreases order.len(),
{
    if order.len() == 0 {
        Seq::empty()
    } else {
        let before = recipients(order.drop_last(), skip, known);
        if known.contains(order.last()) && skip != Some(order.last()) {
            before.push(order.last())
        } else {
            before
        }
    }
}

/// One delivery of `frame` to each of `to`, in order.
pub open spec fn fan_out(to: Seq<u128>, frame: Seq<u8>) -> Seq<DeliveryView> {
    Seq::new(to.len(), |i: int| DeliveryView { conn_id: to[i], frame })
}

/// The state of the registry.
pub struct Registry {
    /// The grid position of the shard that is hosted here, whose frame
    /// outbound packets are in before they are translated.
    pub origin: Position,
    /// The connections that were announced.
    pub connections: HashSet<u128>,
    /// The subscribers that get every broadcast.
    pub all_broadcast_list: HashSet<u128>,
    /// The subscribers that get the broadcasts of local origin only.
    pub local_only_broadcast_list: HashSet<u128>,
    /// The translation of each connection that leads to a peer.
    pub translation_data: HashMap<u128, TranslationInfo>,
}

impl Registry {
    /// The packet as it goes out on a connection: translated where the
    /// connection has a translation, as it is where it has none.
    pub open spec fn outgoing(&self, conn_id: u128, packet: PacketView) -> PacketView {
        if self.translation_data@.contains_key(conn_id) {
            spec_translate(packet, self.origin, self.translation_data@[conn_id].map.position)
        } else {
            packet
        }
    }

    /// What a `Send` delivers: the frame of the outgoing packet to the
    /// connection, if the connection is known and the packet has a frame;
    /// nothing otherwise.
    pub open spec fn send_deliveries(&self, conn_id: u128, packet: PacketView) -> Seq<
        DeliveryView,
    > {
        if !self.connections@.contains(conn_id) {
            Seq::empty()
        } else {
            match spec_encode(self.outgoing(conn_id, packet)) {
                Ok(frame) => Seq::empty().push(DeliveryView { conn_id, frame }),
                Err(_) => Seq::empty(),
            }
        }
    }

    /// What a `Broadcast` delivers when the two sets of subscribers are
    /// walked in the orders `first` and `second`: the frame of the packet,
    /// untranslated, to every known subscriber of the first set but the
    /// source, then, for a broadcast of local origin, to every known
    /// subscriber of the second set; nothing if the packet has no frame.
    pub open spec fn broadcast_deliveries(
        &self,
        packet: PacketView,
        source: Option<u128>,
        local: bool,
        first: Seq<u128>,
        second: Seq<u128>,
    ) -> Seq<DeliveryView> {
        match spec_encode(packet) {
            Err(_) => Seq::empty(),
            Ok(frame) => fan_out(
                recipients(first, source, self.connections@) + (if local {
                    recipients(second, None, self.connections@)
                } else {
                    Seq::empty()
                }),
                frame,
            ),
        }
    }

    /// A registry without connections, for the shard at the origin of the
    /// grid.
    pub fn new() -> (registry: Registry)
        ensures
            registry.origin == (Position { x: 0, z: 0 }),
            registry.connections@ == Set::<u128>::empty(),
            registry.all_broadcast_list@ == Set::<u128>::empty(),
            registry.local_only_broadcast_list@ == Set::<u128>::empty(),
            registry.translation_data@ == Map::<u128, TranslationInfo>::empty(),
    {
        Registry {
            origin: Position { x: 0, z: 0 },
            connections: HashSet::new(),
            all_broadcast_list: HashSet::new(),
            local_only_broadcast_list: HashSet::new(),
            translation_data: HashMap::new(),
        }
    }

    /// Sends a packet to one connection.
    pub fn send(&self, msg: SendPacketMessage) -> (out: Vec<Delivery>)
        ensures
            delivery_views(out@) == self.send_deliveries(msg.conn_id, msg.packet@),
    {
        broadcast use group_hash_axioms;

        let mut out: Vec<Delivery> = Vec::new();
        if !self.connections.contains(&msg.conn_id) {
            assert(delivery_views(out@) =~= Seq::<DeliveryView>::empty());
            return out;
        }
        let packet = match self.translation_data.get(&msg.conn_id) {
            Some(info) => translate_outgoing(msg.packet, self.origin, info),
            None => msg.packet,
        };
        match encode(&packet) {
            Ok(frame) => {
                out.push(Delivery { conn_id: msg.conn_id, frame });
                assert(delivery_views(out@) =~= Seq::<DeliveryView>::empty().push(
                    DeliveryView { conn_id: msg.conn_id, frame: frame@ },
                ));
            },
            Err(_) => {
                assert(delivery_views(out@) =~= Seq::<DeliveryView>::empty());
            },
        }
        out
    }

    /// Appends one delivery of `frame` for each of `order` that gets the
    /// broadcast.
    fn deliver_to(&self, out: &mut Vec<Delivery>, order: &Vec<u128>, skip: Option<u128>, frame: &Vec<u8>)
        ensures
            delivery_views(final(out)@) == delivery_views(old(out)@) + fan_out(
                recipients(order@, skip, self.connections@),
                frame@,
            ),
    {
        broadcast use group_hash_axioms;

        let ghost start = delivery_views(out@);
        let mut i: usize = 0;
        assert(order@.take(0) =~= Seq::<u128>::empty());
        assert(delivery_views(out@) =~= start + fan_out(
            recipients(order@.take(0), skip, self.connections@),
            frame@,
        ));
        while i < order.len()
            invariant
                i <= order.len(),
                delivery_views(out@) == start + fan_out(
                    recipients(order@.take(i as int), skip, self.connections@),
                    frame@,
                ),
            decreases order.len() - i,
        {
            let conn_id: u128 = order[i];
            let skipped: bool = match skip {
                Some(s) => s == conn_id,
                None => false,
            };
            let ghost before = delivery_views(out@);
            proof {
                assert(order@.take(i + 1).drop_last() =~= order@.take(i as int));
            }
            if self.connections.contains(&conn_id) && !skipped {
                let copy = vstd::slice::slice_to_vec(frame.as_slice());
                out.push(Delivery { conn_id, frame: copy });
                assert(delivery_views(out@) =~= before.push(
                    DeliveryView { conn_id, frame: frame@ },
                ));
                assert(delivery_views(out@) =~= start + fan_out(
                    recipients(order@.take(i + 1), skip, self.connections@),
                    frame@,
                ));
            }
            i = i + 1;
        }
        assert(order@.take(order.len() as int) =~= order@);
    }

    /// Sends a packet to the subscribers. The sets of subscribers are
    /// walked in an order of their own.
    pub fn broadcast(&self, msg: BroadcastPacketMessage) -> (out: Vec<Delivery>)
        ensures
            exists|first: Seq<u128>, second: Seq<u128>|
                is_walk(first, self.all_broadcast_list@) && is_walk(
                    second,
                    self.local_only_broadcast_list@,
                ) && delivery_views(out@) == #[trigger] self.broadcast_deliveries(
                    msg.packet@,
                    msg.source_conn_id,
                    msg.local,
                    first,
                    second,
                ),
    {
        let mut out: Vec<Delivery> = Vec::new();
        assert(delivery_views(out@) =~= Seq::<DeliveryView>::empty());
        let first = members(&self.all_broadcast_list);
        let second = members(&self.local_only_broadcast_list);
        match encode(&msg.packet) {
            Ok(frame) => {
                self.deliver_to(&mut out, &first, msg.source_conn_id, &frame);
                let ghost sent = recipients(first@, msg.source_conn_id, self.connections@);
                assert(delivery_views(out@) =~= fan_out(sent, frame@));
                if msg.local {
                    self.deliver_to(&mut out, &second, None, &frame);
                    assert(delivery_views(out@) =~= fan_out(
                        sent + recipients(second@, None, self.connections@),
                        frame@,
                    ));
                } else {
                    assert(sent + Seq::<u128>::empty() =~= sent);
                }
            },
            Err(_) => {},
        }
        assert(delivery_views(out@) == self.broadcast_deliveries(
            msg.packet@,
            msg.source_conn_id,
            msg.local,
            first@,
            second@,
        ));
        out
    }

    /// Joins a connection to a set of subscribers.
    pub fn subscribe(&mut self, msg: SubscribeMessage)
        ensures
            final(self).all_broadcast_list@ == (if msg.typ == SubscriberType::All {
                old(self).all_broadcast_list@.insert(msg.conn_id)
            } else {
                old(self).all_broadcast_list@
            }),
            final(self).local_only_broadcast_list@ == (if msg.typ == SubscriberType::LocalOnly {
                old(self).local_only_broadcast_list@.insert(msg.conn_id)
            } else {
                old(self).local_only_broadcast_list@
            }),
            final(self).origin == old(self).origin,
            final(self).connections == old(self).connections,
            final(self).translation_data == old(self).translation_data,
    {
        broadcast use group_hash_axioms;

        match msg.typ {
            SubscriberType::All => {
                self.all_broadcast_list.insert(msg.conn_id);
            },
            SubscriberType::LocalOnly => {
                self.local_only_broadcast_list.insert(msg.conn_id);
            },
        }
    }

    /// Takes note of a connection.
    pub fn register(&mut self, msg: NewConnectionMessage)
        ensures
            final(self).connections@ == old(self).connections@.insert(msg.conn_id),
            final(self).origin == old(self).origin,
            final(self).all_broadcast_list == old(self).all_broadcast_list,
            final(self).local_only_broadcast_list == old(self).local_only_broadcast_list,
            final(self).translation_data == old(self).translation_data,
    {
        broadcast use group_hash_axioms;

        self.connections.insert(msg.conn_id);
    }

    /// Sets the translation of a connection to a shard, in place of any
    /// that it had.
    pub fn update_translation(&mut self, msg: UpdateTranslationMessage)
        ensures
            final(self).translation_data@ == old(self).translation_data@.insert(
                msg.conn_id,
                (TranslationInfo { state: 0, map: msg.map }),
            ),
            final(self).origin == old(self).origin,
            final(self).connections == old(self).connections,
            final(self).all_broadcast_list == old(self).all_broadcast_list,
            final(self).local_only_broadcast_list == old(self).local_only_broadcast_list,
    {
        broadcast use group_hash_axioms;

        self.translation_data.insert(msg.conn_id, TranslationInfo { state: 0, map: msg.map });
    }

    /// Takes one operation from the mailbox and hands back the frames to
    /// write, in order.
    pub fn handle(&mut self, op: MessengerOperations) -> (out: Vec<Delivery>)
        ensures
            match op {
                MessengerOperations::Send(msg) => {
                    &&& *final(self) == *old(self)
                    &&& delivery_views(out@) == old(self).send_deliveries(msg.conn_id, msg.packet@)
                },
                MessengerOperations::Broadcast(msg) => {
                    &&& *final(self) == *old(self)
                    &&& exists|first: Seq<u128>, second: Seq<u128>|
                        is_walk(first, old(self).all_broadcast_list@) && is_walk(
                            second,
                            old(self).local_only_broadcast_list@,
                        ) && delivery_views(out@) == #[trigger] old(self).broadcast_deliveries(
                            msg.packet@,
                            msg.source_conn_id,
                            msg.local,
                            first,
                            second,
                        )
                },
                MessengerOperations::Subscribe(msg) => {
                    &&& out@.len() == 0
                    &&& final(self).all_broadcast_list@ == (if msg.typ == SubscriberType::All {
                        old(self).all_broadcast_list@.insert(msg.conn_id)
                    } else {
                        old(self).all_broadcast_list@
                    })
                    &&& final(self).local_only_broadcast_list@ == (if msg.typ
                        == SubscriberType::LocalOnly {
                        old(self).local_only_broadcast_list@.insert(msg.conn_id)
                    } else {
                        old(self).local_only_broadcast_list@
                    })
                    &&& final(self).origin == old(self).origin
                    &&& final(self).connections == old(self).connections
                    &&& final(self).translation_data == old(self).translation_data
                },
                MessengerOperations::New(msg) => {
                    &&& out@.len() == 0
                    &&& final(self).connections@ == old(self).connections@.insert(msg.conn_id)
                    &&& final(self).origin == old(self).origin
                    &&& final(self).all_broadcast_list == old(self).all_broadcast_list
                    &&& final(self).local_only_broadcast_list == old(self).local_only_broadcast_list
                    &&& final(self).translation_data == old(self).translation_data
                },
                MessengerOperations::UpdateTranslation(msg) => {
                    &&& out@.len() == 0
                    &&& final(self).translation_data@ == old(self).translation_data@.insert(
                        msg.conn_id,
                        (TranslationInfo { state: 0, map: msg.map }),
                    )
                    &&& final(self).origin == old(self).origin
                    &&& final(self).connections == old(self).connections
                    &&& final(self).all_broadcast_list == old(self).all_broadcast_list
                    &&& final(self).local_only_broadcast_list == old(self).local_only_broadcast_list
                },
            },
    {
        match op {
            MessengerOperations::Send(msg) => self.send(msg),
            MessengerOperations::Broadcast(msg) => self.broadcast(msg),
            MessengerOperations::Subscribe(msg) => {
                self.subscribe(msg);
                Vec::new()
            },
            MessengerOperations::New(msg) => {
                self.register(msg);
                Vec::new()
            },
            MessengerOperations::UpdateTranslation(msg) => {
                self.update_translation(msg);
                Vec::new()
            },
        }
    }
}

/// Whoever gets a broadcast is a known connection of the walk, and is not
/// the connection to skip.
pub proof fn lemma_recipients(order: Seq<u128>, skip: Option<u128>, known: Set<u128>)
    ensures
        forall|i: int|
            0 <= i < recipients(order, skip, known).len() ==> {
                let c = #[trigger] recipients(order, skip, known)[i];
                order.contains(c) && known.contains(c) && skip != Some(c)
            },
    decreases order.len(),
{
    if order.len() > 0 {
        lemma_recipients(order.drop_last(), skip, known);
        let before = recipients(order.drop_last(), skip, known);
        assert forall|i: int| 0 <= i < recipients(order, skip, known).len() implies {
            let c = #[trigger] recipients(order, skip, known)[i];
            order.contains(c) && known.contains(c) && skip != Some(c)
        } by {
            let c = recipients(order, skip, known)[i];
            if i < before.len() {
                assert(before[i] == c);
                let j = choose|j: int| 0 <= j < order.drop_last().len() && order.drop_last()[j] == c;
                assert(order[j] == c);
            } else {
                assert(order[order.len() - 1] == c);
            }
        }
    }
}

/// A broadcast never goes back to its source, unless the source has
/// subscribed to the broadcasts of local origin and the broadcast is one
/// of them.
pub proof fn lemma_broadcast_skips_source(
    registry: Registry,
    packet: PacketView,
    source: u128,
    local: bool,
    first: Seq<u128>,
    second: Seq<u128>,
)
    requires
        is_walk(second, registry.local_only_broadcast_list@),
        !(local && registry.local_only_broadcast_list@.contains(source)),
    ensures
        forall|i: int|
            0 <= i < registry.broadcast_deliveries(
                packet,
                Some(source),
                local,
                first,
                second,
            ).len() ==> (#[trigger] registry.broadcast_deliveries(
                packet,
                Some(source),
                local,
                first,
                second,
            )[i]).conn_id != source,
{
    lemma_recipients(first, Some(source), registry.connections@);
    lemma_recipients(second, None, registry.connections@);
    let one = recipients(first, Some(source), registry.connections@);
    let two = recipients(second, None, registry.connections@);
    assert forall|i: int| 0 <= i < two.len() && local implies two[i] != source by {
        assert(second.contains(two[i]));
        assert(second.to_set().contains(two[i]));
    }
}

/// The sending side of the registry's mailbox.
pub trait Messenger {
    /// The operations that were put into the mailbox and not yet taken
    /// out, oldest first.
    spec fn queued(&self) -> Seq<MessengerOperations>;

    fn send_packet(&mut self, conn_id: u128, packet: Packet)
        ensures
            final(self).queued() == old(self).queued().push(
                MessengerOperations::Send(SendPacketMessage { conn_id, packet }),
            ),
    ;

    fn broadcast_packet(&mut self, packet: Packet, source_conn_id: Option<u128>, local: bool)
        ensures
            final(self).queued() == old(self).queued().push(
                MessengerOperations::Broadcast(
                    BroadcastPacketMessage { packet, source_conn_id, local },
                ),
            ),
    ;

    fn subscribe(&mut self, conn_id: u128, typ: SubscriberType)
        ensures
            final(self).queued() == old(self).queued().push(
                MessengerOperations::Subscribe(SubscribeMessage { conn_id, typ }),
            ),
    ;

    fn new_connection(&mut self, conn_id: u128)
        ensures
            final(self).queued() == old(self).queued().push(
                MessengerOperations::New(NewConnectionMessage { conn_id }),
            ),
    ;

    fn update_translation(&mut self, conn_id: u128, map: Shard)
        ensures
            final(self).queued() == old(self).queued().push(
                MessengerOperations::UpdateTranslation(UpdateTranslationMessage { conn_id, map }),
            ),
    ;
}

impl Messenger for Vec<MessengerOperations> {
    open spec fn queued(&self) -> Seq<MessengerOperations> {
        self@
    }

    fn send_packet(&mut self, conn_id: u128, packet: Packet) {
        self.push(MessengerOperations::Send(SendPacketMessage { conn_id, packet }));
    }

    fn broadcast_packet(&mut self, packet: Packet, source_conn_id: Option<u128>, local: bool) {
        self.push(
            MessengerOperations::Broadcast(BroadcastPacketMessage { packet, source_conn_id, local }),
        );
    }

    fn subscribe(&mut self, conn_id: u128, typ: SubscriberType) {
        self.push(MessengerOperations::Subscribe(SubscribeMessage { conn_id, typ }));
    }

    fn new_connection(&mut self, conn_id: u128) {
        self.push(MessengerOperations::New(NewConnectionMessage { conn_id }));
    }

    fn update_translation(&mut self, conn_id: u128, map: Shard) {
        self.push(MessengerOperations::UpdateTranslation(UpdateTranslationMessage { conn_id, map }));
    }
}

} // verus!
