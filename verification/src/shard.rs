//! Shards: the regions of the world grid, each hosted here or by a peer
//! server.

use vstd::prelude::*;

verus! {

/// The width of a grid cell in world units, along each axis.
pub const CHUNK_SIZE: i32 = 16;

/// The number of entity ids in the block that a shard owns.
pub const ENTITY_ID_BLOCK_SIZE: i32 = 1000;

/// A cell of the world grid.
#[derive(Debug, Clone, Copy, PartialEq, Eq, Structural)]
pub struct Position {
    pub x: i32,
    pub z: i32,
}

/// Where a peer server listens.
#[derive(Debug, Clone, PartialEq, Eq)]
pub struct Peer {
    pub address: String,
    pub port: u16,
}

/// A peer, as a mathematical value.
pub struct PeerView {
    pub address: Seq<char>,
    pub port: u16,
}

impl View for Peer {
    type V = PeerView;

    open spec fn view(&self) -> PeerView {
        PeerView { address: self.address@, port: self.port }
    }
}

impl Peer {
    /// A peer with the same address and port.
    pub fn duplicate(&self) -> (copy: Peer)
        ensures
            copy@ == self@,
    {
        Peer { address: self.address.clone(), port: self.port }
    }
}

/// The link of a shard to the peer that hosts it.
#[derive(Debug, Clone, PartialEq, Eq)]
pub struct PeerConnection {
    pub peer: Peer,
}

/// One shard of the world: a cell of the grid with the block of entity ids
/// that it owns. It is hosted by a peer exactly when it has a peer
/// connection.
#[derive(Debug, Clone, PartialEq, Eq)]
pub struct Shard {
    pub position: Position,
    pub entity_id_block: i32,
    pub peer_connection: Option<PeerConnection>,
}

/// A shard, as a mathematical value.
pub struct ShardView {
    pub position: Position,
    pub entity_id_block: i32,
    pub peer: Option<PeerView>,
}

impl View for Shard {
    type V = ShardView;

    open spec fn view(&self) -> ShardView {
        ShardView {
            position: self.position,
            entity_id_block: self.entity_id_block,
            peer: match self.peer_connection {
                Some(link) => Some(link.peer@),
                None => None,
            },
        }
    }
}

impl Shard {
    /// A shard that is hosted here.
    pub fn new(position: Position, entity_id_block: i32) -> (shard: Shard)
        ensures
            shard == (Shard { position, entity_id_block, peer_connection: None }),
    {
        Shard { position, entity_id_block, peer_connection: None }
    }

    /// A shard that the peer hosts.
    pub fn remote(position: Position, entity_id_block: i32, peer: Peer) -> (shard: Shard)
        ensures
            shard@ == (ShardView { position, entity_id_block, peer: Some(peer@) }),
    {
        Shard { position, entity_id_block, peer_connection: Some(PeerConnection { peer }) }
    }

    /// The shard is hosted by a peer.
    pub fn is_remote(&self) -> (remote: bool)
        ensures
            remote == self@.peer.is_some(),
    {
        self.peer_connection.is_some()
    }

    /// A shard with the same position, block and peer.
    pub fn duplicate(&self) -> (copy: Shard)
        ensures
            copy@ == self@,
    {
        match &self.peer_connection {
            Some(link) => Shard::remote(self.position, self.entity_id_block, link.peer.duplicate()),
            None => Shard::new(self.position, self.entity_id_block),
        }
    }
}

} // verus!
