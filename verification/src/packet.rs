//! The packet catalogue: every known kind of packet with the protocol
//! state in which it is valid, its wire id, and its ordered, typed fields.

use crate::field::{FieldValue, Role, SectionView, WireType};
use vstd::prelude::*;

verus! {

/// The bits of a binary64 floating-point number, as they stand on the wire.
pub type Binary64 = u64;

/// The bits of a binary32 floating-point number, as they stand on the wire.
pub type Binary32 = u32;

/// The number of biome entries in a chunk column.
pub const BIOME_COUNT: usize = 256;

/// One section of a chunk column: the packed block ids and the two light
/// arrays, each of `LIGHT_BYTES` bytes.
#[derive(Debug, Clone, PartialEq, Eq)]
pub struct ChunkSection {
    pub bits_per_block: u8,
    pub data_array: Vec<i64>,
    pub block_light: Vec<u8>,
    pub sky_light: Vec<u8>,
}

impl View for ChunkSection {
    type V = SectionView;

    open spec fn view(&self) -> SectionView {
        SectionView {
            bits_per_block: self.bits_per_block,
            data_array: self.data_array@,
            block_light: self.block_light@,
            sky_light: self.sky_light@,
        }
    }
}

/// Opens a connection and names the protocol state that follows.
#[derive(Debug, Clone, PartialEq, Eq)]
pub struct Handshake {
    pub protocol_version: i32,
    pub server_address: String,
    pub server_port: u16,
    pub next_state: i32,
}

impl Handshake {
    /// The fields in wire order.
    pub open spec fn fields(&self) -> Seq<FieldValue> {
        Seq::empty()
            .push(FieldValue::VarInt(self.protocol_version))
            .push(FieldValue::Text(self.server_address@))
            .push(FieldValue::UShort(self.server_port))
            .push(FieldValue::VarInt(self.next_state))
    }
}

/// Asks for the server's status.
#[derive(Debug, Clone, PartialEq, Eq)]
pub struct StatusRequest {}

impl StatusRequest {
    /// The fields in wire order.
    pub open spec fn fields(&self) -> Seq<FieldValue> {
        Seq::empty()
    }
}

/// Asks for the payload to be echoed.
#[derive(Debug, Clone, PartialEq, Eq)]
pub struct Ping {
    pub payload: i64,
}

impl Ping {
    /// The fields in wire order.
    pub open spec fn fields(&self) -> Seq<FieldValue> {
        Seq::empty()
            .push(FieldValue::Long(self.payload))
    }
}

/// Starts the login of the named player.
#[derive(Debug, Clone, PartialEq, Eq)]
pub struct LoginStart {
    pub username: String,
}

impl LoginStart {
    /// The fields in wire order.
    pub open spec fn fields(&self) -> Seq<FieldValue> {
        Seq::empty()
            .push(FieldValue::Text(self.username@))
    }
}

/// Answers a heartbeat.
#[derive(Debug, Clone, PartialEq, Eq)]
pub struct KeepAlive {
    pub id: i64,
}

impl KeepAlive {
    /// The fields in wire order.
    pub open spec fn fields(&self) -> Seq<FieldValue> {
        Seq::empty()
            .push(FieldValue::Long(self.id))
    }
}

/// Reports where the player stands.
#[derive(Debug, Clone, PartialEq, Eq)]
pub struct PlayerPosition {
    pub x: Binary64,
    pub feet_y: Binary64,
    pub z: Binary64,
    pub on_ground: bool,
}

impl PlayerPosition {
    /// The fields in wire order.
    pub open spec fn fields(&self) -> Seq<FieldValue> {
        Seq::empty()
            .push(FieldValue::Double(self.x))
            .push(FieldValue::Double(self.feet_y))
            .push(FieldValue::Double(self.z))
            .push(FieldValue::Boolean(self.on_ground))
    }
}

/// Reports where the player stands and where the player looks.
#[derive(Debug, Clone, PartialEq, Eq)]
pub struct PlayerPositionAndLook {
    pub x: Binary64,
    pub feet_y: Binary64,
    pub z: Binary64,
    pub yaw: Binary32,
    pub pitch: Binary32,
    pub on_ground: bool,
}

impl PlayerPositionAndLook {
    /// The fields in wire order.
    pub open spec fn fields(&self) -> Seq<FieldValue> {
        Seq::empty()
            .push(FieldValue::Double(self.x))
            .push(FieldValue::Double(self.feet_y))
            .push(FieldValue::Double(self.z))
            .push(FieldValue::Float(self.yaw))
            .push(FieldValue::Float(self.pitch))
            .push(FieldValue::Boolean(self.on_ground))
    }
}

/// Reports where the player looks.
#[derive(Debug, Clone, PartialEq, Eq)]
pub struct PlayerLook {
    pub yaw: Binary32,
    pub pitch: Binary32,
    pub on_ground: bool,
}

impl PlayerLook {
    /// The fields in wire order.
    pub open spec fn fields(&self) -> Seq<FieldValue> {
        Seq::empty()
            .push(FieldValue::Float(self.yaw))
            .push(FieldValue::Float(self.pitch))
            .push(FieldValue::Boolean(self.on_ground))
    }
}

/// Asks a peer to report the state of its shard.
#[derive(Debug, Clone, PartialEq, Eq)]
pub struct ReportState {}

impl ReportState {
    /// The fields in wire order.
    pub open spec fn fields(&self) -> Seq<FieldValue> {
        Seq::empty()
    }
}

/// Introduces a player who crosses into a peer's shard.
#[derive(Debug, Clone, PartialEq, Eq)]
pub struct BorderCrossLogin {
    pub x: Binary64,
    pub feet_y: Binary64,
    pub z: Binary64,
    pub yaw: Binary32,
    pub pitch: Binary32,
    pub on_ground: bool,
    pub username: String,
    pub entity_id: i32,
}

impl BorderCrossLogin {
    /// The fields in wire order.
    pub open spec fn fields(&self) -> Seq<FieldValue> {
        Seq::empty()
            .push(FieldValue::Double(self.x))
            .push(FieldValue::Double(self.feet_y))
            .push(FieldValue::Double(self.z))
            .push(FieldValue::Float(self.yaw))
            .push(FieldValue::Float(self.pitch))
            .push(FieldValue::Boolean(self.on_ground))
            .push(FieldValue::Text(self.username@))
            .push(FieldValue::Int(self.entity_id))
    }
}

/// Echoes the payload of a ping.
#[derive(Debug, Clone, PartialEq, Eq)]
pub struct Pong {
    pub payload: i64,
}

impl Pong {
    /// The fields in wire order.
    pub open spec fn fields(&self) -> Seq<FieldValue> {
        Seq::empty()
            .push(FieldValue::Long(self.payload))
    }
}

/// Gives the server's status.
#[derive(Debug, Clone, PartialEq, Eq)]
pub struct StatusResponse {
    pub json_response: String,
}

impl StatusResponse {
    /// The fields in wire order.
    pub open spec fn fields(&self) -> Seq<FieldValue> {
        Seq::empty()
            .push(FieldValue::Text(self.json_response@))
    }
}

/// Confirms a login.
#[derive(Debug, Clone, PartialEq, Eq)]
pub struct LoginSuccess {
    pub uuid: String,
    pub username: String,
}

impl LoginSuccess {
    /// The fields in wire order.
    pub open spec fn fields(&self) -> Seq<FieldValue> {
        Seq::empty()
            .push(FieldValue::Text(self.uuid@))
            .push(FieldValue::Text(self.username@))
    }
}

/// Admits the player to the game.
#[derive(Debug, Clone, PartialEq, Eq)]
pub struct JoinGame {
    pub entity_id: i32,
    pub gamemode: u8,
    pub dimension: i32,
    pub difficulty: u8,
    pub max_players: u8,
    pub level_type: String,
    pub reduced_debug_info: bool,
}

impl JoinGame {
    /// The fields in wire order.
    pub open spec fn fields(&self) -> Seq<FieldValue> {
        Seq::empty()
            .push(FieldValue::Int(self.entity_id))
            .push(FieldValue::UByte(self.gamemode))
            .push(FieldValue::Int(self.dimension))
            .push(FieldValue::UByte(self.difficulty))
            .push(FieldValue::UByte(self.max_players))
            .push(FieldValue::Text(self.level_type@))
            .push(FieldValue::Boolean(self.reduced_debug_info))
    }
}

/// Places the player.
#[derive(Debug, Clone, PartialEq, Eq)]
pub struct ClientboundPlayerPositionAndLook {
    pub x: Binary64,
    pub y: Binary64,
    pub z: Binary64,
    pub yaw: Binary32,
    pub pitch: Binary32,
    pub flags: i8,
    pub teleport_id: i32,
}

impl ClientboundPlayerPositionAndLook {
    /// The fields in wire order.
    pub open spec fn fields(&self) -> Seq<FieldValue> {
        Seq::empty()
            .push(FieldValue::Double(self.x))
            .push(FieldValue::Double(self.y))
            .push(FieldValue::Double(self.z))
            .push(FieldValue::Float(self.yaw))
            .push(FieldValue::Float(self.pitch))
            .push(FieldValue::Byte(self.flags))
            .push(FieldValue::VarInt(self.teleport_id))
    }
}

/// Carries one chunk column.
#[derive(Debug, Clone, PartialEq, Eq)]
pub struct ChunkData {
    pub chunk_x: i32,
    pub chunk_z: i32,
    pub full_chunk: bool,
    pub primary_bit_mask: i32,
    pub size: i32,
    pub data: ChunkSection,
    pub biomes: Vec<i32>,
    pub number_of_block_entities: i32,
}

impl ChunkData {
    /// The fields in wire order.
    pub open spec fn fields(&self) -> Seq<FieldValue> {
        Seq::empty()
            .push(FieldValue::Int(self.chunk_x))
            .push(FieldValue::Int(self.chunk_z))
            .push(FieldValue::Boolean(self.full_chunk))
            .push(FieldValue::VarInt(self.primary_bit_mask))
            .push(FieldValue::VarInt(self.size))
            .push(FieldValue::Section(self.data@))
            .push(FieldValue::IntArray(self.biomes@))
            .push(FieldValue::VarInt(self.number_of_block_entities))
    }
}

/// Lists a player.
#[derive(Debug, Clone, PartialEq, Eq)]
pub struct PlayerInfo {
    pub action: i32,
    pub number_of_players: i32,
    pub uuid: u128,
    pub name: String,
    pub number_of_properties: i32,
    pub gamemode: i32,
    pub ping: i32,
    pub has_display_name: bool,
}

impl PlayerInfo {
    /// The fields in wire order.
    pub open spec fn fields(&self) -> Seq<FieldValue> {
        Seq::empty()
            .push(FieldValue::VarInt(self.action))
            .push(FieldValue::VarInt(self.number_of_players))
            .push(FieldValue::Uuid(self.uuid))
            .push(FieldValue::Text(self.name@))
            .push(FieldValue::VarInt(self.number_of_properties))
            .push(FieldValue::VarInt(self.gamemode))
            .push(FieldValue::VarInt(self.ping))
            .push(FieldValue::Boolean(self.has_display_name))
    }
}

/// Shows another player.
#[derive(Debug, Clone, PartialEq, Eq)]
pub struct SpawnPlayer {
    pub entity_id: i32,
    pub uuid: u128,
    pub x: Binary64,
    pub y: Binary64,
    pub z: Binary64,
    pub yaw: u8,
    pub pitch: u8,
    pub entity_metadata_terminator: u8,
}

impl SpawnPlayer {
    /// The fields in wire order.
    pub open spec fn fields(&self) -> Seq<FieldValue> {
        Seq::empty()
            .push(FieldValue::VarInt(self.entity_id))
            .push(FieldValue::Uuid(self.uuid))
            .push(FieldValue::Double(self.x))
            .push(FieldValue::Double(self.y))
            .push(FieldValue::Double(self.z))
            .push(FieldValue::UByte(self.yaw))
            .push(FieldValue::UByte(self.pitch))
            .push(FieldValue::UByte(self.entity_metadata_terminator))
    }
}

/// Turns an entity's head.
#[derive(Debug, Clone, PartialEq, Eq)]
pub struct EntityHeadLook {
    pub entity_id: i32,
    pub angle: u8,
}

impl EntityHeadLook {
    /// The fields in wire order.
    pub open spec fn fields(&self) -> Seq<FieldValue> {
        Seq::empty()
            .push(FieldValue::VarInt(self.entity_id))
            .push(FieldValue::UByte(self.angle))
    }
}

/// Removes entities.
#[derive(Debug, Clone, PartialEq, Eq)]
pub struct DestroyEntities {
    pub entity_ids: Vec<i32>,
}

impl DestroyEntities {
    /// The fields in wire order.
    pub open spec fn fields(&self) -> Seq<FieldValue> {
        Seq::empty()
            .push(FieldValue::VarIntArray(self.entity_ids@))
    }
}

/// Moves and turns an entity.
#[derive(Debug, Clone, PartialEq, Eq)]
pub struct EntityLookAndMove {
    pub entity_id: i32,
    pub delta_x: i16,
    pub delta_y: i16,
    pub delta_z: i16,
    pub yaw: u8,
    pub pitch: u8,
    pub on_ground: bool,
}

impl EntityLookAndMove {
    /// The fields in wire order.
    pub open spec fn fields(&self) -> Seq<FieldValue> {
        Seq::empty()
            .push(FieldValue::VarInt(self.entity_id))
            .push(FieldValue::Short(self.delta_x))
            .push(FieldValue::Short(self.delta_y))
            .push(FieldValue::Short(self.delta_z))
            .push(FieldValue::UByte(self.yaw))
            .push(FieldValue::UByte(self.pitch))
            .push(FieldValue::Boolean(self.on_ground))
    }
}

/// The kinds of packet in the catalogue, and `Unknown` for every frame
/// that the catalogue does not list.
#[derive(Debug, Clone, Copy, PartialEq, Eq, Structural)]
pub enum PacketKind {
    Handshake,
    StatusRequest,
    Ping,
    LoginStart,
    KeepAlive,
    PlayerPosition,
    PlayerPositionAndLook,
    PlayerLook,
    ReportState,
    BorderCrossLogin,
    Pong,
    StatusResponse,
    LoginSuccess,
    JoinGame,
    ClientboundPlayerPositionAndLook,
    ChunkData,
    PlayerInfo,
    SpawnPlayer,
    EntityHeadLook,
    DestroyEntities,
    EntityLookAndMove,
    Unknown,
}

/// A packet: one of the kinds of the catalogue with its fields, or
/// `Unknown`.
#[derive(Debug, Clone, PartialEq, Eq)]
pub enum Packet {
    Handshake(Handshake),
    StatusRequest(StatusRequest),
    Ping(Ping),
    LoginStart(LoginStart),
    KeepAlive(KeepAlive),
    PlayerPosition(PlayerPosition),
    PlayerPositionAndLook(PlayerPositionAndLook),
    PlayerLook(PlayerLook),
    ReportState(ReportState),
    BorderCrossLogin(BorderCrossLogin),
    Pong(Pong),
    StatusResponse(StatusResponse),
    LoginSuccess(LoginSuccess),
    JoinGame(JoinGame),
    ClientboundPlayerPositionAndLook(ClientboundPlayerPositionAndLook),
    ChunkData(ChunkData),
    PlayerInfo(PlayerInfo),
    SpawnPlayer(SpawnPlayer),
    EntityHeadLook(EntityHeadLook),
    DestroyEntities(DestroyEntities),
    EntityLookAndMove(EntityLookAndMove),
    Unknown,
}

/// A packet as a mathematical value: its kind and its fields in wire order.
pub struct PacketView {
    pub kind: PacketKind,
    pub fields: Seq<FieldValue>,
}

impl View for Packet {
    type V = PacketView;

    open spec fn view(&self) -> PacketView {
        match self {
            Packet::Handshake(p) => PacketView { kind: PacketKind::Handshake, fields: p.fields() },
            Packet::StatusRequest(p) => PacketView { kind: PacketKind::StatusRequest, fields: p.fields() },
            Packet::Ping(p) => PacketView { kind: PacketKind::Ping, fields: p.fields() },
            Packet::LoginStart(p) => PacketView { kind: PacketKind::LoginStart, fields: p.fields() },
            Packet::KeepAlive(p) => PacketView { kind: PacketKind::KeepAlive, fields: p.fields() },
            Packet::PlayerPosition(p) => PacketView { kind: PacketKind::PlayerPosition, fields: p.fields() },
            Packet::PlayerPositionAndLook(p) => PacketView { kind: PacketKind::PlayerPositionAndLook, fields: p.fields() },
            Packet::PlayerLook(p) => PacketView { kind: PacketKind::PlayerLook, fields: p.fields() },
            Packet::ReportState(p) => PacketView { kind: PacketKind::ReportState, fields: p.fields() },
            Packet::BorderCrossLogin(p) => PacketView { kind: PacketKind::BorderCrossLogin, fields: p.fields() },
            Packet::Pong(p) => PacketView { kind: PacketKind::Pong, fields: p.fields() },
            Packet::StatusResponse(p) => PacketView { kind: PacketKind::StatusResponse, fields: p.fields() },
            Packet::LoginSuccess(p) => PacketView { kind: PacketKind::LoginSuccess, fields: p.fields() },
            Packet::JoinGame(p) => PacketView { kind: PacketKind::JoinGame, fields: p.fields() },
            Packet::ClientboundPlayerPositionAndLook(p) => PacketView { kind: PacketKind::ClientboundPlayerPositionAndLook, fields: p.fields() },
            Packet::ChunkData(p) => PacketView { kind: PacketKind::ChunkData, fields: p.fields() },
            Packet::PlayerInfo(p) => PacketView { kind: PacketKind::PlayerInfo, fields: p.fields() },
            Packet::SpawnPlayer(p) => PacketView { kind: PacketKind::SpawnPlayer, fields: p.fields() },
            Packet::EntityHeadLook(p) => PacketView { kind: PacketKind::EntityHeadLook, fields: p.fields() },
            Packet::DestroyEntities(p) => PacketView { kind: PacketKind::DestroyEntities, fields: p.fields() },
            Packet::EntityLookAndMove(p) => PacketView { kind: PacketKind::EntityLookAndMove, fields: p.fields() },
            Packet::Unknown => PacketView { kind: PacketKind::Unknown, fields: Seq::empty() },
        }
    }
}

impl Packet {
    /// The kind of this packet.
    pub fn kind(&self) -> (kind: PacketKind)
        ensures
            kind == self@.kind,
    {
        match self {
            Packet::Handshake(_) => PacketKind::Handshake,
            Packet::StatusRequest(_) => PacketKind::StatusRequest,
            Packet::Ping(_) => PacketKind::Ping,
            Packet::LoginStart(_) => PacketKind::LoginStart,
            Packet::KeepAlive(_) => PacketKind::KeepAlive,
            Packet::PlayerPosition(_) => PacketKind::PlayerPosition,
            Packet::PlayerPositionAndLook(_) => PacketKind::PlayerPositionAndLook,
            Packet::PlayerLook(_) => PacketKind::PlayerLook,
            Packet::ReportState(_) => PacketKind::ReportState,
            Packet::BorderCrossLogin(_) => PacketKind::BorderCrossLogin,
            Packet::Pong(_) => PacketKind::Pong,
            Packet::StatusResponse(_) => PacketKind::StatusResponse,
            Packet::LoginSuccess(_) => PacketKind::LoginSuccess,
            Packet::JoinGame(_) => PacketKind::JoinGame,
            Packet::ClientboundPlayerPositionAndLook(_) => PacketKind::ClientboundPlayerPositionAndLook,
            Packet::ChunkData(_) => PacketKind::ChunkData,
            Packet::PlayerInfo(_) => PacketKind::PlayerInfo,
            Packet::SpawnPlayer(_) => PacketKind::SpawnPlayer,
            Packet::EntityHeadLook(_) => PacketKind::EntityHeadLook,
            Packet::DestroyEntities(_) => PacketKind::DestroyEntities,
            Packet::EntityLookAndMove(_) => PacketKind::EntityLookAndMove,
            Packet::Unknown => PacketKind::Unknown,
        }
    }
}

/// The wire id of a kind; -1 for `Unknown`, which has none.
pub open spec fn packet_id(kind: PacketKind) -> i32 {
    match kind {
        PacketKind::Handshake => 0x00,
        PacketKind::StatusRequest => 0x00,
        PacketKind::Ping => 0x01,
        PacketKind::LoginStart => 0x00,
        PacketKind::KeepAlive => 0x21,
        PacketKind::PlayerPosition => 0x10,
        PacketKind::PlayerPositionAndLook => 0x11,
        PacketKind::PlayerLook => 0x12,
        PacketKind::ReportState => 0x01,
        PacketKind::BorderCrossLogin => 0xa0,
        PacketKind::Pong => 0x01,
        PacketKind::StatusResponse => 0x00,
        PacketKind::LoginSuccess => 0x02,
        PacketKind::JoinGame => 0x25,
        PacketKind::ClientboundPlayerPositionAndLook => 0x32,
        PacketKind::ChunkData => 0x22,
        PacketKind::PlayerInfo => 0x30,
        PacketKind::SpawnPlayer => 0x05,
        PacketKind::EntityHeadLook => 0x39,
        PacketKind::DestroyEntities => 0x35,
        PacketKind::EntityLookAndMove => 0x29,
        PacketKind::Unknown => -1i32,
    }
}

/// The protocol state in which a kind is valid; `None` for a kind that is
/// valid in every state.
pub open spec fn packet_state(kind: PacketKind) -> Option<i32> {
    match kind {
        PacketKind::Handshake => Some(0),
        PacketKind::StatusRequest => Some(1),
        PacketKind::Ping => Some(1),
        PacketKind::LoginStart => Some(2),
        PacketKind::KeepAlive => Some(3),
        PacketKind::PlayerPosition => Some(3),
        PacketKind::PlayerPositionAndLook => None,
        PacketKind::PlayerLook => Some(3),
        PacketKind::ReportState => Some(6),
        PacketKind::BorderCrossLogin => None,
        PacketKind::Pong => Some(99),
        PacketKind::StatusResponse => Some(99),
        PacketKind::LoginSuccess => Some(99),
        PacketKind::JoinGame => Some(99),
        PacketKind::ClientboundPlayerPositionAndLook => Some(99),
        PacketKind::ChunkData => None,
        PacketKind::PlayerInfo => None,
        PacketKind::SpawnPlayer => None,
        PacketKind::EntityHeadLook => None,
        PacketKind::DestroyEntities => None,
        PacketKind::EntityLookAndMove => None,
        PacketKind::Unknown => None,
    }
}

/// The kind is valid in the protocol state.
pub open spec fn valid_in(kind: PacketKind, state: i32) -> bool {
    match packet_state(kind) {
        Some(s) => s == state,
        None => true,
    }
}

/// The wire types of a kind's fields, in wire order.
pub open spec fn layout(kind: PacketKind) -> Seq<WireType> {
    match kind {
        PacketKind::Handshake => seq![
            WireType::VarInt,
            WireType::Text,
            WireType::UShort,
            WireType::VarInt,
        ],
        PacketKind::StatusRequest => Seq::empty(),
        PacketKind::Ping => seq![WireType::Long],
        PacketKind::LoginStart => seq![WireType::Text],
        PacketKind::KeepAlive => seq![WireType::Long],
        PacketKind::PlayerPosition => seq![
            WireType::Double,
            WireType::Double,
            WireType::Double,
            WireType::Boolean,
        ],
        PacketKind::PlayerPositionAndLook => seq![
            WireType::Double,
            WireType::Double,
            WireType::Double,
            WireType::Float,
            WireType::Float,
            WireType::Boolean,
        ],
        PacketKind::PlayerLook => seq![WireType::Float, WireType::Float, WireType::Boolean],
        PacketKind::ReportState => Seq::empty(),
        PacketKind::BorderCrossLogin => seq![
            WireType::Double,
            WireType::Double,
            WireType::Double,
            WireType::Float,
            WireType::Float,
            WireType::Boolean,
            WireType::Text,
            WireType::Int,
        ],
        PacketKind::Pong => seq![WireType::Long],
        PacketKind::StatusResponse => seq![WireType::Text],
        PacketKind::LoginSuccess => seq![WireType::Text, WireType::Text],
        PacketKind::JoinGame => seq![
            WireType::Int,
            WireType::UByte,
            WireType::Int,
            WireType::UByte,
            WireType::UByte,
            WireType::Text,
            WireType::Boolean,
        ],
        PacketKind::ClientboundPlayerPositionAndLook => seq![
            WireType::Double,
            WireType::Double,
            WireType::Double,
            WireType::Float,
            WireType::Float,
            WireType::Byte,
            WireType::VarInt,
        ],
        PacketKind::ChunkData => seq![
            WireType::Int,
            WireType::Int,
            WireType::Boolean,
            WireType::VarInt,
            WireType::VarInt,
            WireType::Section,
            WireType::IntArray(BIOME_COUNT),
            WireType::VarInt,
        ],
        PacketKind::PlayerInfo => seq![
            WireType::VarInt,
            WireType::VarInt,
            WireType::Uuid,
            WireType::Text,
            WireType::VarInt,
            WireType::VarInt,
            WireType::VarInt,
            WireType::Boolean,
        ],
        PacketKind::SpawnPlayer => seq![
            WireType::VarInt,
            WireType::Uuid,
            WireType::Double,
            WireType::Double,
            WireType::Double,
            WireType::UByte,
            WireType::UByte,
            WireType::UByte,
        ],
        PacketKind::EntityHeadLook => seq![WireType::VarInt, WireType::UByte],
        PacketKind::DestroyEntities => seq![WireType::VarIntArray],
        PacketKind::EntityLookAndMove => seq![
            WireType::VarInt,
            WireType::Short,
            WireType::Short,
            WireType::Short,
            WireType::UByte,
            WireType::UByte,
            WireType::Boolean,
        ],
        PacketKind::Unknown => Seq::empty(),
    }
}

/// The roles of a kind's fields, in wire order.
pub open spec fn roles(kind: PacketKind) -> Seq<Role> {
    match kind {
        PacketKind::Handshake => seq![Role::Plain, Role::Plain, Role::Plain, Role::Plain],
        PacketKind::StatusRequest => Seq::empty(),
        PacketKind::Ping => seq![Role::Plain],
        PacketKind::LoginStart => seq![Role::Plain],
        PacketKind::KeepAlive => seq![Role::Plain],
        PacketKind::PlayerPosition => seq![Role::EntityX, Role::Plain, Role::Plain, Role::Plain],
        PacketKind::PlayerPositionAndLook => seq![
            Role::EntityX,
            Role::Plain,
            Role::Plain,
            Role::Plain,
            Role::Plain,
            Role::Plain,
        ],
        PacketKind::PlayerLook => seq![Role::Plain, Role::Plain, Role::Plain],
        PacketKind::ReportState => Seq::empty(),
        PacketKind::BorderCrossLogin => seq![
            Role::EntityX,
            Role::Plain,
            Role::Plain,
            Role::Plain,
            Role::Plain,
            Role::Plain,
            Role::Plain,
            Role::EntityId,
        ],
        PacketKind::Pong => seq![Role::Plain],
        PacketKind::StatusResponse => seq![Role::Plain],
        PacketKind::LoginSuccess => seq![Role::Plain, Role::Plain],
        PacketKind::JoinGame => seq![
            Role::EntityId,
            Role::Plain,
            Role::Plain,
            Role::Plain,
            Role::Plain,
            Role::Plain,
            Role::Plain,
        ],
        PacketKind::ClientboundPlayerPositionAndLook => seq![
            Role::Plain,
            Role::Plain,
            Role::Plain,
            Role::Plain,
            Role::Plain,
            Role::Plain,
            Role::Plain,
        ],
        PacketKind::ChunkData => seq![
            Role::ChunkX,
            Role::Plain,
            Role::Plain,
            Role::Plain,
            Role::Plain,
            Role::Plain,
            Role::Plain,
            Role::Plain,
        ],
        PacketKind::PlayerInfo => seq![
            Role::Plain,
            Role::Plain,
            Role::Plain,
            Role::Plain,
            Role::Plain,
            Role::Plain,
            Role::Plain,
            Role::Plain,
        ],
        PacketKind::SpawnPlayer => seq![
            Role::EntityId,
            Role::Plain,
            Role::EntityX,
            Role::Plain,
            Role::Plain,
            Role::Plain,
            Role::Plain,
            Role::Plain,
        ],
        PacketKind::EntityHeadLook => seq![Role::EntityId, Role::Plain],
        PacketKind::DestroyEntities => seq![Role::EntityId],
        PacketKind::EntityLookAndMove => seq![
            Role::EntityId,
            Role::Plain,
            Role::Plain,
            Role::Plain,
            Role::Plain,
            Role::Plain,
            Role::Plain,
        ],
        PacketKind::Unknown => Seq::empty(),
    }
}

/// The kind that a frame with this id carries in this protocol state:
/// the first entry of the catalogue that matches, `Unknown` if none does.
pub open spec fn lookup(state: i32, id: i32) -> PacketKind {
    if state == 0 && id == 0x00 {
        PacketKind::Handshake
    } else if state == 1 && id == 0x00 {
        PacketKind::StatusRequest
    } else if state == 1 && id == 0x01 {
        PacketKind::Ping
    } else if state == 2 && id == 0x00 {
        PacketKind::LoginStart
    } else if state == 3 && id == 0x21 {
        PacketKind::KeepAlive
    } else if state == 3 && id == 0x10 {
        PacketKind::PlayerPosition
    } else if id == 0x11 {
        PacketKind::PlayerPositionAndLook
    } else if state == 3 && id == 0x12 {
        PacketKind::PlayerLook
    } else if state == 6 && id == 0x01 {
        PacketKind::ReportState
    } else if id == 0xa0 {
        PacketKind::BorderCrossLogin
    } else if state == 99 && id == 0x01 {
        PacketKind::Pong
    } else if state == 99 && id == 0x00 {
        PacketKind::StatusResponse
    } else if state == 99 && id == 0x02 {
        PacketKind::LoginSuccess
    } else if state == 99 && id == 0x25 {
        PacketKind::JoinGame
    } else if state == 99 && id == 0x32 {
        PacketKind::ClientboundPlayerPositionAndLook
    } else if id == 0x22 {
        PacketKind::ChunkData
    } else if id == 0x30 {
        PacketKind::PlayerInfo
    } else if id == 0x05 {
        PacketKind::SpawnPlayer
    } else if id == 0x39 {
        PacketKind::EntityHeadLook
    } else if id == 0x35 {
        PacketKind::DestroyEntities
    } else if id == 0x29 {
        PacketKind::EntityLookAndMove
    } else {
        PacketKind::Unknown
    }
}

/// Looks a frame's id up in the catalogue.
pub fn find_kind(state: i32, id: i32) -> (kind: PacketKind)
    ensures
        kind == lookup(state, id),
{
    if state == 0 && id == 0x00 {
        PacketKind::Handshake
    } else if state == 1 && id == 0x00 {
        PacketKind::StatusRequest
    } else if state == 1 && id == 0x01 {
        PacketKind::Ping
    } else if state == 2 && id == 0x00 {
        PacketKind::LoginStart
    } else if state == 3 && id == 0x21 {
        PacketKind::KeepAlive
    } else if state == 3 && id == 0x10 {
        PacketKind::PlayerPosition
    } else if id == 0x11 {
        PacketKind::PlayerPositionAndLook
    } else if state == 3 && id == 0x12 {
        PacketKind::PlayerLook
    } else if state == 6 && id == 0x01 {
        PacketKind::ReportState
    } else if id == 0xa0 {
        PacketKind::BorderCrossLogin
    } else if state == 99 && id == 0x01 {
        PacketKind::Pong
    } else if state == 99 && id == 0x00 {
        PacketKind::StatusResponse
    } else if state == 99 && id == 0x02 {
        PacketKind::LoginSuccess
    } else if state == 99 && id == 0x25 {
        PacketKind::JoinGame
    } else if state == 99 && id == 0x32 {
        PacketKind::ClientboundPlayerPositionAndLook
    } else if id == 0x22 {
        PacketKind::ChunkData
    } else if id == 0x30 {
        PacketKind::PlayerInfo
    } else if id == 0x05 {
        PacketKind::SpawnPlayer
    } else if id == 0x39 {
        PacketKind::EntityHeadLook
    } else if id == 0x35 {
        PacketKind::DestroyEntities
    } else if id == 0x29 {
        PacketKind::EntityLookAndMove
    } else {
        PacketKind::Unknown
    }
}

impl PacketKind {
    /// The wire id of this kind; -1 for `Unknown`.
    pub fn id(self) -> (id: i32)
        ensures
            id == packet_id(self),
    {
        match self {
            PacketKind::Handshake => 0x00,
            PacketKind::StatusRequest => 0x00,
            PacketKind::Ping => 0x01,
            PacketKind::LoginStart => 0x00,
            PacketKind::KeepAlive => 0x21,
            PacketKind::PlayerPosition => 0x10,
            PacketKind::PlayerPositionAndLook => 0x11,
            PacketKind::PlayerLook => 0x12,
            PacketKind::ReportState => 0x01,
            PacketKind::BorderCrossLogin => 0xa0,
            PacketKind::Pong => 0x01,
            PacketKind::StatusResponse => 0x00,
            PacketKind::LoginSuccess => 0x02,
            PacketKind::JoinGame => 0x25,
            PacketKind::ClientboundPlayerPositionAndLook => 0x32,
            PacketKind::ChunkData => 0x22,
            PacketKind::PlayerInfo => 0x30,
            PacketKind::SpawnPlayer => 0x05,
            PacketKind::EntityHeadLook => 0x39,
            PacketKind::DestroyEntities => 0x35,
            PacketKind::EntityLookAndMove => 0x29,
            PacketKind::Unknown => -1,
        }
    }

    /// The protocol state in which this kind is valid, if it is bound to one.
    pub fn state(self) -> (state: Option<i32>)
        ensures
            state == packet_state(self),
    {
        match self {
            PacketKind::Handshake => Some(0),
            PacketKind::StatusRequest => Some(1),
            PacketKind::Ping => Some(1),
            PacketKind::LoginStart => Some(2),
            PacketKind::KeepAlive => Some(3),
            PacketKind::PlayerPosition => Some(3),
            PacketKind::PlayerPositionAndLook => None,
            PacketKind::PlayerLook => Some(3),
            PacketKind::ReportState => Some(6),
            PacketKind::BorderCrossLogin => None,
            PacketKind::Pong => Some(99),
            PacketKind::StatusResponse => Some(99),
            PacketKind::LoginSuccess => Some(99),
            PacketKind::JoinGame => Some(99),
            PacketKind::ClientboundPlayerPositionAndLook => Some(99),
            PacketKind::ChunkData => None,
            PacketKind::PlayerInfo => None,
            PacketKind::SpawnPlayer => None,
            PacketKind::EntityHeadLook => None,
            PacketKind::DestroyEntities => None,
            PacketKind::EntityLookAndMove => None,
            PacketKind::Unknown => None,
        }
    }
}

/// Every kind of the catalogue is found again by its own id, in every
/// state in which it is valid: no earlier entry hides it.
pub proof fn lemma_lookup_finds(kind: PacketKind, state: i32)
    requires
        kind != PacketKind::Unknown,
        valid_in(kind, state),
    ensures
        lookup(state, packet_id(kind)) == kind,
{
}

/// A frame is `Unknown` exactly when no entry of the catalogue has its id
/// in its state.
pub proof fn lemma_lookup_unknown(state: i32, id: i32)
    ensures
        lookup(state, id) == PacketKind::Unknown <==> forall|kind: PacketKind|
            kind != PacketKind::Unknown ==> !(#[trigger] packet_id(kind) == id && valid_in(
                kind,
                state,
            )),
{
    let found = lookup(state, id);
    if found != PacketKind::Unknown {
        assert(packet_id(found) == id && valid_in(found, state));
    }
}

} // verus!
