//! The patchwork: the ordered list of shards and, for each player's
//! connection, the anchor that says which shard owns the player's packet
//! stream. The router resolves the shard of every position that a player
//! reports, moves the anchor when the player crosses a border, and sends
//! each packet on to where the anchor points.

use crate::binary64::{floor_shifted, floor_shifted_of};
use crate::ids::{fresh_id, is_random_id};
use crate::messenger::{
    MessengerOperations, NewConnectionMessage, SendPacketMessage, UpdateTranslationMessage,
};
use crate::packet::{Handshake, Packet, PacketKind};
use crate::shard::{ENTITY_ID_BLOCK_SIZE, Peer, Position, Shard};
use std::collections::HashMap;
use vstd::prelude::*;
use vstd::std_specs::hash::*;

verus! {

/// The number of binary places by which a world coordinate is shifted to
/// give its grid cell: a cell is `CHUNK_SIZE`, two to this power, wide.
pub const CHUNK_SHIFT: u32 = 4;

/// The protocol version that a handshake to a peer names.
pub const PROTOCOL_VERSION: i32 = 404;

/// The state that a handshake to a peer asks for: play, as a proxy.
pub const PEER_PLAY_STATE: i32 = 4;

/// The most shards that a patchwork holds: each has a grid position of its
/// own in one row.
pub const MAX_SHARDS: usize = 0x7fff_ffff;

/// Asks for a shard that the peer hosts to be added.
#[derive(Debug, Clone, PartialEq, Eq)]
pub struct NewMapMessage {
    pub peer: Peer,
}

/// A packet that a player's connection sent, to be routed.
#[derive(Debug, Clone, PartialEq, Eq)]
pub struct RouteMessage {
    pub packet: Packet,
    pub conn_id: u128,
}

/// The operations of the router's mailbox.
#[derive(Debug, Clone, PartialEq, Eq)]
pub enum PatchworkStateOperations {
    New(NewMapMessage),
    RoutePlayerPacket(RouteMessage),
    Report,
}

/// Tells the keeper of the players that what is meant for the player on
/// the local connection is from now on written to the remote one.
#[derive(Debug, Clone, Copy, PartialEq, Eq, Structural)]
pub struct CrossBorderMessage {
    pub local_conn_id: u128,
    pub remote_conn_id: u128,
}

/// Which shard owns a player's packet stream, and the proxy connection to
/// the peer that hosts it, if a peer does.
#[derive(Debug, Clone, Copy, PartialEq, Eq, Structural)]
pub struct Anchor {
    pub map_index: usize,
    pub conn_id: Option<u128>,
}

/// What the caller is to do for the router, in order.
#[derive(Debug, Clone, PartialEq, Eq)]
pub enum RouteAction {
    /// Hand the packet to the gameplay router, under the connection that
    /// sent it.
    Gameplay(RouteMessage),
    /// Put the operation into the registry's mailbox.
    Messenger(MessengerOperations),
    /// Tell the keeper of the players of the bridge.
    CrossBorder(CrossBorderMessage),
}

/// Why a packet was not routed.
#[derive(Debug, Clone, Copy, PartialEq, Eq, Structural)]
pub enum RouteError {
    /// No shard has the grid cell of the position that the packet reports.
    NoShard,
}

/// What a reported position means for a player's anchor.
#[derive(Debug, Clone, Copy, PartialEq, Eq, Structural)]
pub enum Crossing {
    /// The packet reports no position, or one in the shard of the anchor.
    Stay,
    /// No shard has the grid cell of the position.
    NoShard,
    /// The position is in another shard, which is hosted here.
    ToLocal(usize),
    /// The position is in another shard, which a peer hosts.
    ToRemote(usize),
}

/// The grid cell of the position that a packet reports, if it reports one:
/// each coordinate divided by the width of a cell and rounded down.
pub open spec fn reported_cell(packet: Packet) -> Option<Position> {
    match packet {
        Packet::PlayerPosition(p) => Some(
            Position {
                x: floor_shifted(p.x, CHUNK_SHIFT as nat),
                z: floor_shifted(p.z, CHUNK_SHIFT as nat),
            },
        ),
        Packet::PlayerPositionAndLook(p) => Some(
            Position {
                x: floor_shifted(p.x, CHUNK_SHIFT as nat),
                z: floor_shifted(p.z, CHUNK_SHIFT as nat),
            },
        ),
        _ => None,
    }
}

/// The grid cell of the position that a packet reports, if it reports one.
pub fn extract_map_position(packet: &Packet) -> (cell: Option<Position>)
    ensures
        cell == reported_cell(*packet),
{
    match packet {
        Packet::PlayerPosition(p) => Some(
            Position {
                x: floor_shifted_of(p.x, CHUNK_SHIFT),
                z: floor_shifted_of(p.z, CHUNK_SHIFT),
            },
        ),
        Packet::PlayerPositionAndLook(p) => Some(
            Position {
                x: floor_shifted_of(p.x, CHUNK_SHIFT),
                z: floor_shifted_of(p.z, CHUNK_SHIFT),
            },
        ),
        _ => None,
    }
}

/// The index of the first shard at the grid position, if there is one.
pub open spec fn resolve(maps: Seq<Shard>, position: Position) -> Option<int>
    decreases maps.len(),
{
    if maps.len() == 0 {
        None
    } else {
        match resolve(maps.drop_last(), position) {
            Some(i) => Some(i),
            None => if maps.last().position == position {
                Some(maps.len() - 1)
            } else {
                None
            },
        }
    }
}

/// The entity ids that the shard with this block owns, as a range that
/// leaves its upper end out.
pub open spec fn entity_id_range(block: i32) -> (int, int) {
    (block * ENTITY_ID_BLOCK_SIZE, (block + 1) * ENTITY_ID_BLOCK_SIZE)
}

/// The packet is the handshake that opens a proxy connection to a peer.
pub open spec fn is_peer_handshake(packet: Packet) -> bool {
    &&& packet matches Packet::Handshake(h)
    &&& h.protocol_version == PROTOCOL_VERSION
    &&& h.server_address@ == Seq::<char>::empty()
    &&& h.server_port == 0
    &&& h.next_state == PEER_PLAY_STATE
}

/// The actions open a proxy connection for a player who crosses into the
/// shard at `position`: the connection is registered, its translation is
/// set to that shard, the handshake is sent over it, and the keeper of the
/// players is told of the bridge.
pub open spec fn opens_proxy(
    actions: Seq<RouteAction>,
    local_conn_id: u128,
    proxy: u128,
    position: Position,
) -> bool {
    &&& actions.len() == 4
    &&& actions[0] == RouteAction::Messenger(
        MessengerOperations::New(NewConnectionMessage { conn_id: proxy }),
    )
    &&& actions[1] == RouteAction::Messenger(
        MessengerOperations::UpdateTranslation(
            UpdateTranslationMessage {
                conn_id: proxy,
                map: Shard { position, entity_id_block: 0, peer_connection: None },
            },
        ),
    )
    &&& actions[2] matches RouteAction::Messenger(MessengerOperations::Send(m))
    &&& m.conn_id == proxy
    &&& is_peer_handshake(m.packet)
    &&& actions[3] == RouteAction::CrossBorder(
        CrossBorderMessage { local_conn_id, remote_conn_id: proxy },
    )
}

impl Anchor {
    /// The anchor of a player who has just come: the first shard, without a
    /// proxy.
    pub open spec fn initial() -> Anchor {
        Anchor { map_index: 0, conn_id: None }
    }

    /// Anchors a player to the shard that a peer hosts at `position`, over
    /// the proxy connection with the given id, and says what opens that
    /// connection.
    pub fn connect_as(local_conn_id: u128, map_index: usize, position: Position, proxy: u128) -> (r:
        (Anchor, Vec<RouteAction>))
        ensures
            r.0 == (Anchor { map_index, conn_id: Some(proxy) }),
            opens_proxy(r.1@, local_conn_id, proxy, position),
    {
        let mut actions: Vec<RouteAction> = Vec::new();
        actions.push(
            RouteAction::Messenger(MessengerOperations::New(NewConnectionMessage { conn_id: proxy })),
        );
        actions.push(
            RouteAction::Messenger(
                MessengerOperations::UpdateTranslation(
                    UpdateTranslationMessage { conn_id: proxy, map: Shard::new(position, 0) },
                ),
            ),
        );
        actions.push(
            RouteAction::Messenger(
                MessengerOperations::Send(
                    SendPacketMessage {
                        conn_id: proxy,
                        packet: Packet::Handshake(
                            Handshake {
                                protocol_version: PROTOCOL_VERSION,
                                server_address: String::new(),
                                server_port: 0,
                                next_state: PEER_PLAY_STATE,
                            },
                        ),
                    },
                ),
            ),
        );
        actions.push(
            RouteAction::CrossBorder(CrossBorderMessage { local_conn_id, remote_conn_id: proxy }),
        );
        (Anchor { map_index, conn_id: Some(proxy) }, actions)
    }

    /// Anchors a player to the shard that a peer hosts at `position`, over
    /// a proxy connection with a fresh id, and says what opens that
    /// connection.
    pub fn connect(local_conn_id: u128, map_index: usize, position: Position) -> (r: (
        Anchor,
        Vec<RouteAction>,
    ))
        ensures
            r.0.map_index == map_index,
            r.0.conn_id matches Some(proxy) && is_random_id(proxy) && opens_proxy(
                r.1@,
                local_conn_id,
                proxy,
                position,
            ),
    {
        let proxy: u128 = fresh_id();
        Anchor::connect_as(local_conn_id, map_index, position, proxy)
    }
}

/// The shards and the anchors.
pub struct Patchwork {
    pub maps: Vec<Shard>,
    pub player_anchors: HashMap<u128, Anchor>,
}

impl Patchwork {
    /// The patchwork is in order: it has a first shard, which is hosted
    /// here; the shards stand in one row, each at the grid position of its
    /// index and with the block of entity ids of its index; and every
    /// anchor points to a shard, with a proxy connection exactly when a
    /// peer hosts that shard.
    pub open spec fn wf(&self) -> bool {
        &&& 1 <= self.maps@.len() <= MAX_SHARDS
        &&& self.maps@[0].peer_connection is None
        &&& forall|i: int|
            0 <= i < self.maps@.len() ==> (#[trigger] self.maps@[i]).position == (Position {
                x: i as i32,
                z: 0,
            }) && self.maps@[i].entity_id_block == i
        &&& forall|c: u128| #[trigger]
            self.player_anchors@.contains_key(c) ==> self.anchor_fits(self.player_anchors@[c])
    }

    /// The anchor points to a shard, with a proxy connection exactly when
    /// a peer hosts that shard.
    pub open spec fn anchor_fits(&self, anchor: Anchor) -> bool {
        &&& anchor.map_index < self.maps@.len()
        &&& anchor.conn_id is Some <==> self.maps@[anchor.map_index as int].peer_connection is Some
    }

    /// The anchor of a connection: the one on record, or the initial one.
    pub open spec fn anchor_of(&self, conn_id: u128) -> Anchor {
        if self.player_anchors@.contains_key(conn_id) {
            self.player_anchors@[conn_id]
        } else {
            Anchor::initial()
        }
    }

    /// What the position that a packet reports means for the anchor of the
    /// connection that sent it.
    pub open spec fn crossing(&self, conn_id: u128, packet: Packet) -> Crossing {
        match reported_cell(packet) {
            None => Crossing::Stay,
            Some(cell) => match resolve(self.maps@, cell) {
                None => Crossing::NoShard,
                Some(i) => if i == self.anchor_of(conn_id).map_index {
                    Crossing::Stay
                } else if self.maps@[i].peer_connection is Some {
                    Crossing::ToRemote(i as usize)
                } else {
                    Crossing::ToLocal(i as usize)
                },
            },
        }
    }

    /// The anchor of the connection after the packet: moved to a shard
    /// that is hosted here as soon as the player stands in it; moved to a
    /// shard that a peer hosts once the peer was reached, over the proxy
    /// connection; left as it was otherwise.
    pub open spec fn anchor_after(
        &self,
        conn_id: u128,
        packet: Packet,
        peer_reachable: bool,
        proxy: u128,
    ) -> Anchor {
        match self.crossing(conn_id, packet) {
            Crossing::ToLocal(i) => Anchor { map_index: i, conn_id: None },
            Crossing::ToRemote(i) => if peer_reachable {
                Anchor { map_index: i, conn_id: Some(proxy) }
            } else {
                self.anchor_of(conn_id)
            },
            _ => self.anchor_of(conn_id),
        }
    }

    /// The last step of routing, for a player with this anchor: the packet
    /// goes to the gameplay router where the anchor is local, and over the
    /// proxy connection where it is remote, unless it is `Unknown`, which
    /// is dropped there.
    pub open spec fn hand_over(anchor: Anchor, msg: RouteMessage) -> Seq<RouteAction> {
        match anchor.conn_id {
            None => Seq::empty().push(RouteAction::Gameplay(msg)),
            Some(proxy) => if msg.packet is Unknown {
                Seq::empty()
            } else {
                Seq::empty().push(
                    RouteAction::Messenger(
                        MessengerOperations::Send(
                            SendPacketMessage { conn_id: proxy, packet: msg.packet },
                        ),
                    ),
                )
            },
        }
    }

    /// The actions route the packet: where the player crosses into a shard
    /// that a peer hosts and the peer was reached, they open the proxy
    /// connection first; then, in every case, they hand the packet over
    /// as the anchor after the packet says.
    pub open spec fn routes(
        &self,
        msg: RouteMessage,
        peer_reachable: bool,
        proxy: u128,
        actions: Seq<RouteAction>,
    ) -> bool {
        let anchor = self.anchor_after(msg.conn_id, msg.packet, peer_reachable, proxy);
        let last = Patchwork::hand_over(anchor, msg);
        match self.crossing(msg.conn_id, msg.packet) {
            Crossing::ToRemote(i) => if peer_reachable {
                &&& actions.len() == 4 + last.len()
                &&& opens_proxy(actions.take(4), msg.conn_id, proxy, self.maps@[i as int].position)
                &&& actions.skip(4) == last
            } else {
                actions == last
            },
            _ => actions == last,
        }
    }

    /// A patchwork of one shard, hosted here, at the origin of the grid.
    pub fn new() -> (patchwork: Patchwork)
        ensures
            patchwork.wf(),
            patchwork.maps@.len() == 1,
            patchwork.player_anchors@ == Map::<u128, Anchor>::empty(),
    {
        let mut maps: Vec<Shard> = Vec::new();
        maps.push(Shard::new(Position { x: 0, z: 0 }, 0));
        Patchwork { maps, player_anchors: HashMap::new() }
    }

    /// The block of entity ids that the next shard gets.
    pub fn next_entity_id_block(&self) -> (block: i32)
        requires
            self.maps@.len() <= MAX_SHARDS,
        ensures
            block == self.maps@.len(),
    {
        self.maps.len() as i32
    }

    /// The grid position that the next shard gets: the shards stand in one
    /// row.
    pub fn next_position(&self) -> (position: Position)
        requires
            self.maps@.len() <= MAX_SHARDS,
        ensures
            position == (Position { x: self.maps@.len() as i32, z: 0 }),
    {
        Position { x: self.maps.len() as i32, z: 0 }
    }

    /// Adds a shard that is hosted here, at the end of the row.
    pub fn create_local_map(&mut self)
        requires
            old(self).wf(),
            old(self).maps@.len() < MAX_SHARDS,
        ensures
            final(self).wf(),
            final(self).player_anchors == old(self).player_anchors,
            final(self).maps@ == old(self).maps@.push(
                Shard {
                    position: Position { x: old(self).maps@.len() as i32, z: 0 },
                    entity_id_block: old(self).maps@.len() as i32,
                    peer_connection: None,
                },
            ),
    {
        let shard = Shard::new(self.next_position(), self.next_entity_id_block());
        self.maps.push(shard);
    }

    /// Adds a shard that the peer hosts, at the end of the row.
    pub fn add_peer_map(&mut self, peer: Peer)
        requires
            old(self).wf(),
            old(self).maps@.len() < MAX_SHARDS,
        ensures
            final(self).wf(),
            final(self).player_anchors == old(self).player_anchors,
            final(self).maps@.len() == old(self).maps@.len() + 1,
            final(self).maps@.drop_last() == old(self).maps@,
            final(self).maps@.last()@.peer == Some(peer@),
    {
        let shard = Shard::remote(self.next_position(), self.next_entity_id_block(), peer);
        self.maps.push(shard);
        assert(self.maps@.drop_last() =~= old(self).maps@);
    }

    /// The index of the first shard at the grid position, if there is one.
    pub fn position_map_index(&self, position: Position) -> (index: Option<usize>)
        ensures
            match index {
                Some(i) => resolve(self.maps@, position) == Some(i as int),
                None => resolve(self.maps@, position) == None::<int>,
            },
    {
        let mut i: usize = 0;
        proof {
            lemma_resolve(self.maps@, position);
        }
        while i < self.maps.len()
            invariant
                i <= self.maps@.len(),
                forall|j: int| 0 <= j < i ==> (#[trigger] self.maps@[j]).position != position,
                resolve(self.maps@, position) matches Some(k) ==> 0 <= k < self.maps@.len()
                    && self.maps@[k].position == position && forall|j: int|
                    0 <= j < k ==> (#[trigger] self.maps@[j]).position != position,
                resolve(self.maps@, position) is None ==> forall|j: int|
                    0 <= j < self.maps@.len() ==> (#[trigger] self.maps@[j]).position != position,
            decreases self.maps.len() - i,
        {
            if self.maps[i].position == position {
                return Some(i);
            }
            i = i + 1;
        }
        None
    }

    /// The shards that are hosted here, by index, in the order of the row:
    /// each of them is to introduce itself.
    pub fn report(&self) -> (local: Vec<usize>)
        ensures
            forall|k: int|
                0 <= k < local@.len() ==> (#[trigger] local@[k]) < self.maps@.len()
                    && self.maps@[local@[k] as int].peer_connection is None,
            forall|k: int, l: int| 0 <= k < l < local@.len() ==> local@[k] < local@[l],
            forall|i: int|
                0 <= i < self.maps@.len() && (#[trigger] self.maps@[i]).peer_connection is None
                    ==> local@.contains(i as usize),
    {
        let mut local: Vec<usize> = Vec::new();
        let mut i: usize = 0;
        while i < self.maps.len()
            invariant
                i <= self.maps@.len(),
                forall|k: int|
                    0 <= k < local@.len() ==> (#[trigger] local@[k]) < i
                        && self.maps@[local@[k] as int].peer_connection is None,
                forall|k: int, l: int| 0 <= k < l < local@.len() ==> local@[k] < local@[l],
                forall|j: int|
                    0 <= j < i && (#[trigger] self.maps@[j]).peer_connection is None
                        ==> local@.contains(j as usize),
            decreases self.maps.len() - i,
        {
            if !self.maps[i].is_remote() {
                let ghost before = local@;
                local.push(i);
                assert forall|j: int|
                    0 <= j < i + 1 && (#[trigger] self.maps@[j]).peer_connection is None implies local@.contains(
                    j as usize,
                ) by {
                    if j < i {
                        let k = choose|k: int| 0 <= k < before.len() && before[k] == j as usize;
                        assert(local@[k] == j as usize);
                    } else {
                        assert(local@[local@.len() - 1] == j as usize);
                    }
                }
            }
            i = i + 1;
        }
        local
    }

    /// What the position that a packet reports means for the anchor of the
    /// connection that sent it. Where the answer is a shard that a peer
    /// hosts, the peer is to be reached before the packet is routed.
    pub fn crossing_target(&self, msg: &RouteMessage) -> (crossing: Crossing)
        requires
            self.wf(),
        ensures
            crossing == self.crossing(msg.conn_id, msg.packet),
            crossing matches Crossing::ToLocal(i) ==> i < self.maps@.len()
                && self.maps@[i as int].peer_connection is None,
            crossing matches Crossing::ToRemote(i) ==> i < self.maps@.len()
                && self.maps@[i as int].peer_connection is Some,
    {
        broadcast use group_hash_axioms;

        let cell = match extract_map_position(&msg.packet) {
            Some(cell) => cell,
            None => { return Crossing::Stay; },
        };
        let index = match self.position_map_index(cell) {
            Some(index) => index,
            None => { return Crossing::NoShard; },
        };
        proof {
            lemma_resolve(self.maps@, cell);
        }
        let current: usize = match self.player_anchors.get(&msg.conn_id) {
            Some(anchor) => anchor.map_index,
            None => 0,
        };
        if index == current {
            Crossing::Stay
        } else if self.maps[index].is_remote() {
            Crossing::ToRemote(index)
        } else {
            Crossing::ToLocal(index)
        }
    }

    /// Routes a packet of a player, with `proxy` as the id of the proxy
    /// connection that a crossing to a peer opens.
    ///
    /// The anchor of the connection is put on record. Where no shard has
    /// the grid cell of the position that the packet reports, that is all,
    /// and the packet is dropped. Otherwise the anchor moves as
    /// `anchor_after` says, a proxy connection is opened where it moved to
    /// a peer, and the packet is handed over as `hand_over` says.
    pub fn route_player_packet_as(&mut self, msg: RouteMessage, peer_reachable: bool, proxy: u128) -> (r:
        Result<Vec<RouteAction>, RouteError>)
        requires
            old(self).wf(),
        ensures
            final(self).wf(),
            final(self).maps == old(self).maps,
            final(self).player_anchors@ == old(self).player_anchors@.insert(
                msg.conn_id,
                old(self).anchor_after(msg.conn_id, msg.packet, peer_reachable, proxy),
            ),
            r is Err <==> old(self).crossing(msg.conn_id, msg.packet) == Crossing::NoShard,
            r matches Ok(actions) ==> old(self).routes(msg, peer_reachable, proxy, actions@),
    {
        broadcast use group_hash_axioms;

        let crossing = self.crossing_target(&msg);
        let before: Anchor = match self.player_anchors.get(&msg.conn_id) {
            Some(anchor) => *anchor,
            None => Anchor { map_index: 0, conn_id: None },
        };
        let mut actions: Vec<RouteAction> = Vec::new();
        let anchor: Anchor = match crossing {
            Crossing::NoShard => {
                self.player_anchors.insert(msg.conn_id, before);
                return Err(RouteError::NoShard);
            },
            Crossing::Stay => before,
            Crossing::ToLocal(i) => Anchor { map_index: i, conn_id: None },
            Crossing::ToRemote(i) => {
                if peer_reachable {
                    let (moved, opening) = Anchor::connect_as(
                        msg.conn_id,
                        i,
                        self.maps[i].position,
                        proxy,
                    );
                    actions = opening;
                    moved
                } else {
                    before
                }
            },
        };
        assert(self.anchor_fits(before));
        assert(self.anchor_fits(anchor));
        self.player_anchors.insert(msg.conn_id, anchor);
        assert forall|c: u128| #[trigger]
            self.player_anchors@.contains_key(c) implies self.anchor_fits(
            self.player_anchors@[c],
        ) by {
            if c != msg.conn_id {
                assert(old(self).player_anchors@.contains_key(c));
            }
        }
        let ghost opening = actions@;
        match anchor.conn_id {
            None => {
                actions.push(RouteAction::Gameplay(msg));
            },
            Some(to) => {
                match msg.packet {
                    Packet::Unknown => {},
                    _ => {
                        actions.push(
                            RouteAction::Messenger(
                                MessengerOperations::Send(
                                    SendPacketMessage { conn_id: to, packet: msg.packet },
                                ),
                            ),
                        );
                    },
                }
            },
        }
        proof {
            let last = Patchwork::hand_over(anchor, msg);
            assert(actions@ =~= opening + last);
            if opening.len() == 4 {
                assert(actions@.take(4) =~= opening);
                assert(actions@.skip(4) =~= last);
            } else {
                assert(opening.len() == 0);
                assert(actions@ =~= last);
            }
        }
        Ok(actions)
    }

    /// Routes a packet of a player. A crossing to a peer opens a proxy
    /// connection with a fresh id.
    pub fn route_player_packet(&mut self, msg: RouteMessage, peer_reachable: bool) -> (r: Result<
        Vec<RouteAction>,
        RouteError,
    >)
        requires
            old(self).wf(),
        ensures
            final(self).wf(),
            final(self).maps == old(self).maps,
            r is Err <==> old(self).crossing(msg.conn_id, msg.packet) == Crossing::NoShard,
            exists|proxy: u128|
                is_random_id(proxy) && #[trigger] final(self).player_anchors@ == old(
                    self,
                ).player_anchors@.insert(
                    msg.conn_id,
                    old(self).anchor_after(msg.conn_id, msg.packet, peer_reachable, proxy),
                ) && (r matches Ok(actions) ==> old(self).routes(
                    msg,
                    peer_reachable,
                    proxy,
                    actions@,
                )),
    {
        let proxy: u128 = fresh_id();
        self.route_player_packet_as(msg, peer_reachable, proxy)
    }
}

/// What `resolve` finds: the shard at the position with the least index,
/// and nothing exactly when no shard is at the position.
pub proof fn lemma_resolve(maps: Seq<Shard>, position: Position)
    ensures
        resolve(maps, position) matches Some(k) ==> 0 <= k < maps.len() && maps[k].position
            == position && forall|j: int| 0 <= j < k ==> (#[trigger] maps[j]).position != position,
        resolve(maps, position) is None ==> forall|j: int|
            0 <= j < maps.len() ==> (#[trigger] maps[j]).position != position,
    decreases maps.len(),
{
    if maps.len() > 0 {
        lemma_resolve(maps.drop_last(), position);
        assert forall|j: int| 0 <= j < maps.len() - 1 implies maps.drop_last()[j] == maps[j] by {}
        match resolve(maps.drop_last(), position) {
            Some(k) => {
                assert(maps.drop_last()[k] == maps[k]);
                assert forall|j: int| 0 <= j < k implies (#[trigger] maps[j]).position
                    != position by {
                    assert(maps.drop_last()[j] == maps[j]);
                }
            },
            None => {
                assert forall|j: int| 0 <= j < maps.len() - 1 implies (#[trigger] maps[j]).position
                    != position by {
                    assert(maps.drop_last()[j] == maps[j]);
                }
            },
        }
    }
}

/// Where no two shards share a grid position, the shard at a position is
/// the one that `resolve` finds.
pub proof fn lemma_resolve_unique(maps: Seq<Shard>, position: Position, i: int)
    requires
        forall|j: int, k: int|
            0 <= j < k < maps.len() ==> (#[trigger] maps[j]).position != (#[trigger] maps[k]).position,
        0 <= i < maps.len(),
        maps[i].position == position,
    ensures
        resolve(maps, position) == Some(i),
{
    lemma_resolve(maps, position);
}

/// In a patchwork that is in order no two shards share a grid position.
pub proof fn lemma_positions_unique(patchwork: Patchwork)
    requires
        patchwork.wf(),
    ensures
        forall|j: int, k: int|
            0 <= j < k < patchwork.maps@.len() ==> (#[trigger] patchwork.maps@[j]).position != (
            #[trigger] patchwork.maps@[k]).position,
{
}

/// The shard of index `k` owns the entity ids from `k` times the size of a
/// block up to, and without, `k + 1` times that size, and the ids of two
/// shards never overlap.
pub proof fn lemma_entity_blocks(patchwork: Patchwork, j: int, k: int)
    requires
        patchwork.wf(),
        0 <= j < patchwork.maps@.len(),
        0 <= k < patchwork.maps@.len(),
        j != k,
    ensures
        entity_id_range(patchwork.maps@[k].entity_id_block) == (
            k * ENTITY_ID_BLOCK_SIZE,
            (k + 1) * ENTITY_ID_BLOCK_SIZE,
        ),
        entity_id_range(patchwork.maps@[j].entity_id_block).1 <= entity_id_range(
            patchwork.maps@[k].entity_id_block,
        ).0 || entity_id_range(patchwork.maps@[k].entity_id_block).1 <= entity_id_range(
            patchwork.maps@[j].entity_id_block,
        ).0,
{
}

/// A packet that reports a position in the shard of the player's anchor
/// leaves the anchor as it is; where that shard is hosted here, the packet
/// goes to the gameplay router and nowhere else.
pub proof fn lemma_stay(
    patchwork: Patchwork,
    msg: RouteMessage,
    peer_reachable: bool,
    proxy: u128,
    actions: Seq<RouteAction>,
)
    requires
        patchwork.wf(),
        reported_cell(msg.packet) matches Some(cell) && resolve(patchwork.maps@, cell) == Some(
            patchwork.anchor_of(msg.conn_id).map_index as int,
        ),
        patchwork.routes(msg, peer_reachable, proxy, actions),
    ensures
        patchwork.anchor_after(msg.conn_id, msg.packet, peer_reachable, proxy)
            == patchwork.anchor_of(msg.conn_id),
        patchwork.anchor_of(msg.conn_id).conn_id is None ==> actions == Seq::<
            RouteAction,
        >::empty().push(RouteAction::Gameplay(msg)),
{
}

/// An `Unknown` packet is never forwarded: whatever the anchor, no action
/// puts it into the registry's mailbox.
pub proof fn lemma_unknown_is_not_forwarded(
    patchwork: Patchwork,
    msg: RouteMessage,
    peer_reachable: bool,
    proxy: u128,
    actions: Seq<RouteAction>,
)
    requires
        msg.packet is Unknown,
        patchwork.routes(msg, peer_reachable, proxy, actions),
    ensures
        forall|k: int| 0 <= k < actions.len() ==> !(#[trigger] actions[k] is Messenger),
        patchwork.anchor_of(msg.conn_id).conn_id is Some ==> actions.len() == 0,
{
}

} // verus!
