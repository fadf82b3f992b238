//! Translation between shard frames: the coordinates of an outbound packet
//! are rebased from the frame of the shard that sends it to the frame of
//! the shard that receives it.

use crate::binary64::{OFFSET_LIMIT, SIGN_WEIGHT, is_finite, offset_bits, offset_by};
use crate::exact::{is_exact_sum, lemma_offset_round_trip};
use crate::field::{FieldValue, Role};
use crate::packet::{
    Binary64, Packet, PacketKind, PacketView, roles,
    BorderCrossLogin, ChunkData, ClientboundPlayerPositionAndLook, DestroyEntities,
    EntityHeadLook, EntityLookAndMove, Handshake, JoinGame, KeepAlive, LoginStart, LoginSuccess,
    Ping, PlayerInfo, PlayerLook, PlayerPosition, PlayerPositionAndLook, Pong, ReportState,
    SpawnPlayer, StatusRequest, StatusResponse,
};
use crate::shard::{CHUNK_SIZE, Position, Shard};
use crate::wire::signed_of;
use vstd::arithmetic::div_mod::{lemma_fundamental_div_mod, lemma_fundamental_div_mod_converse};
use vstd::prelude::*;

verus! {

/// What the registry knows of a connection that leads to a peer: the shard
/// that the peer hosts, and the protocol state that the peer expects.
#[derive(Debug, Clone, PartialEq, Eq)]
pub struct TranslationInfo {
    pub state: i32,
    pub map: Shard,
}

/// The offset, in world units for entities and in chunks for chunks, that
/// takes a coordinate from the frame of the shard at `from` to the frame
/// of the shard at `to`: the origin of the first is taken away and the
/// origin of the second is added.
pub open spec fn frame_offset(from: Position, to: Position) -> int {
    CHUNK_SIZE * (to.x - from.x)
}

/// The 32-bit integer that `v` is, once bits beyond the 32nd are dropped.
pub open spec fn wrapped(v: int) -> i32 {
    signed_of(v % 0x1_0000_0000)
}

/// One field after the translation by `offset`: an X coordinate of an
/// entity or of a chunk is moved, every other field stays.
pub open spec fn translate_value(v: FieldValue, role: Role, offset: int) -> FieldValue {
    match (role, v) {
        (Role::EntityX, FieldValue::Double(bits)) => FieldValue::Double(offset_by(bits, offset)),
        (Role::ChunkX, FieldValue::Int(x)) => FieldValue::Int(wrapped(x + offset)),
        _ => v,
    }
}

/// The fields after the translation by `offset`, each by its role.
pub open spec fn translate_fields(fields: Seq<FieldValue>, roles: Seq<Role>, offset: int) -> Seq<
    FieldValue,
> {
    Seq::new(fields.len(), |i: int| translate_value(fields[i], roles[i], offset))
}

/// The packet as it reads in the frame of the shard at `to`, when it was
/// written in the frame of the shard at `from`.
pub open spec fn spec_translate(p: PacketView, from: Position, to: Position) -> PacketView {
    PacketView {
        kind: p.kind,
        fields: translate_fields(p.fields, roles(p.kind), frame_offset(from, to)),
    }
}

/// The offset between the frames of two shards.
pub fn frame_offset_of(from: Position, to: Position) -> (offset: i64)
    ensures
        offset == frame_offset(from, to),
        -OFFSET_LIMIT < offset < OFFSET_LIMIT,
{
    (CHUNK_SIZE as i64) * (to.x as i64 - from.x as i64)
}

/// A chunk coordinate moved by `offset`, wrapping around the ends of the
/// 32-bit range.
pub fn move_chunk(x: i32, offset: i64) -> (moved: i32)
    requires
        -OFFSET_LIMIT < offset < OFFSET_LIMIT,
    ensures
        moved == wrapped(x + offset),
{
    let sum: i64 = x as i64 + offset;
    let pattern: i64 = (sum + OFFSET_LIMIT) % 0x1_0000_0000;
    if pattern < 0x8000_0000 {
        pattern as i32
    } else {
        (pattern - 0x1_0000_0000) as i32
    }
}

impl Handshake {
    /// This packet after the translation by `offset`.
    pub fn translated(self, offset: i64) -> (moved: Handshake)
        requires
            -OFFSET_LIMIT < offset < OFFSET_LIMIT,
        ensures
            moved.fields() == translate_fields(
                self.fields(),
                roles(PacketKind::Handshake),
                offset as int,
            ),
    {
        assert(self.fields() =~= translate_fields(
            self.fields(),
            roles(PacketKind::Handshake),
            offset as int,
        ));
        self
    }
}

impl StatusRequest {
    /// This packet after the translation by `offset`.
    pub fn translated(self, offset: i64) -> (moved: StatusRequest)
        requires
            -OFFSET_LIMIT < offset < OFFSET_LIMIT,
        ensures
            moved.fields() == translate_fields(
                self.fields(),
                roles(PacketKind::StatusRequest),
                offset as int,
            ),
    {
        assert(self.fields() =~= translate_fields(
            self.fields(),
            roles(PacketKind::StatusRequest),
            offset as int,
        ));
        self
    }
}

impl Ping {
    /// This packet after the translation by `offset`.
    pub fn translated(self, offset: i64) -> (moved: Ping)
        requires
            -OFFSET_LIMIT < offset < OFFSET_LIMIT,
        ensures
            moved.fields() == translate_fields(
                self.fields(),
                roles(PacketKind::Ping),
                offset as int,
            ),
    {
        assert(self.fields() =~= translate_fields(
            self.fields(),
            roles(PacketKind::Ping),
            offset as int,
        ));
        self
    }
}

impl LoginStart {
    /// This packet after the translation by `offset`.
    pub fn translated(self, offset: i64) -> (moved: LoginStart)
        requires
            -OFFSET_LIMIT < offset < OFFSET_LIMIT,
        ensures
            moved.fields() == translate_fields(
                self.fields(),
                roles(PacketKind::LoginStart),
                offset as int,
            ),
    {
        assert(self.fields() =~= translate_fields(
            self.fields(),
            roles(PacketKind::LoginStart),
            offset as int,
        ));
        self
    }
}

impl KeepAlive {
    /// This packet after the translation by `offset`.
    pub fn translated(self, offset: i64) -> (moved: KeepAlive)
        requires
            -OFFSET_LIMIT < offset < OFFSET_LIMIT,
        ensures
            moved.fields() == translate_fields(
                self.fields(),
                roles(PacketKind::KeepAlive),
                offset as int,
            ),
    {
        assert(self.fields() =~= translate_fields(
            self.fields(),
            roles(PacketKind::KeepAlive),
            offset as int,
        ));
        self
    }
}

impl PlayerPosition {
    /// This packet after the translation by `offset`.
    pub fn translated(self, offset: i64) -> (moved: PlayerPosition)
        requires
            -OFFSET_LIMIT < offset < OFFSET_LIMIT,
        ensures
            moved.fields() == translate_fields(
                self.fields(),
                roles(PacketKind::PlayerPosition),
                offset as int,
            ),
    {
        let mut moved = self;
        moved.x = offset_bits(moved.x, offset);
        assert(moved.fields() =~= translate_fields(
            self.fields(),
            roles(PacketKind::PlayerPosition),
            offset as int,
        ));
        moved
    }
}

impl PlayerPositionAndLook {
    /// This packet after the translation by `offset`.
    pub fn translated(self, offset: i64) -> (moved: PlayerPositionAndLook)
        requires
            -OFFSET_LIMIT < offset < OFFSET_LIMIT,
        ensures
            moved.fields() == translate_fields(
                self.fields(),
                roles(PacketKind::PlayerPositionAndLook),
                offset as int,
            ),
    {
        let mut moved = self;
        moved.x = offset_bits(moved.x, offset);
        assert(moved.fields() =~= translate_fields(
            self.fields(),
            roles(PacketKind::PlayerPositionAndLook),
            offset as int,
        ));
        moved
    }
}

impl PlayerLook {
    /// This packet after the translation by `offset`.
    pub fn translated(self, offset: i64) -> (moved: PlayerLook)
        requires
            -OFFSET_LIMIT < offset < OFFSET_LIMIT,
        ensures
            moved.fields() == translate_fields(
                self.fields(),
                roles(PacketKind::PlayerLook),
                offset as int,
            ),
    {
        assert(self.fields() =~= translate_fields(
            self.fields(),
            roles(PacketKind::PlayerLook),
            offset as int,
        ));
        self
    }
}

impl ReportState {
    /// This packet after the translation by `offset`.
    pub fn translated(self, offset: i64) -> (moved: ReportState)
        requires
            -OFFSET_LIMIT < offset < OFFSET_LIMIT,
        ensures
            moved.fields() == translate_fields(
                self.fields(),
                roles(PacketKind::ReportState),
                offset as int,
            ),
    {
        assert(self.fields() =~= translate_fields(
            self.fields(),
            roles(PacketKind::ReportState),
            offset as int,
        ));
        self
    }
}

impl BorderCrossLogin {
    /// This packet after the translation by `offset`.
    pub fn translated(self, offset: i64) -> (moved: BorderCrossLogin)
        requires
            -OFFSET_LIMIT < offset < OFFSET_LIMIT,
        ensures
            moved.fields() == translate_fields(
                self.fields(),
                roles(PacketKind::BorderCrossLogin),
                offset as int,
            ),
    {
        let mut moved = self;
        moved.x = offset_bits(moved.x, offset);
        assert(moved.fields() =~= translate_fields(
            self.fields(),
            roles(PacketKind::BorderCrossLogin),
            offset as int,
        ));
        moved
    }
}

impl Pong {
    /// This packet after the translation by `offset`.
    pub fn translated(self, offset: i64) -> (moved: Pong)
        requires
            -OFFSET_LIMIT < offset < OFFSET_LIMIT,
        ensures
            moved.fields() == translate_fields(
                self.fields(),
                roles(PacketKind::Pong),
                offset as int,
            ),
    {
        assert(self.fields() =~= translate_fields(
            self.fields(),
            roles(PacketKind::Pong),
            offset as int,
        ));
        self
    }
}

impl StatusResponse {
    /// This packet after the translation by `offset`.
    pub fn translated(self, offset: i64) -> (moved: StatusResponse)
        requires
            -OFFSET_LIMIT < offset < OFFSET_LIMIT,
        ensures
            moved.fields() == translate_fields(
                self.fields(),
                roles(PacketKind::StatusResponse),
                offset as int,
            ),
    {
        assert(self.fields() =~= translate_fields(
            self.fields(),
            roles(PacketKind::StatusResponse),
            offset as int,
        ));
        self
    }
}

impl LoginSuccess {
    /// This packet after the translation by `offset`.
    pub fn translated(self, offset: i64) -> (moved: LoginSuccess)
        requires
            -OFFSET_LIMIT < offset < OFFSET_LIMIT,
        ensures
            moved.fields() == translate_fields(
                self.fields(),
                roles(PacketKind::LoginSuccess),
                offset as int,
            ),
    {
        assert(self.fields() =~= translate_fields(
            self.fields(),
            roles(PacketKind::LoginSuccess),
            offset as int,
        ));
        self
    }
}

impl JoinGame {
    /// This packet after the translation by `offset`.
    pub fn translated(self, offset: i64) -> (moved: JoinGame)
        requires
            -OFFSET_LIMIT < offset < OFFSET_LIMIT,
        ensures
            moved.fields() == translate_fields(
                self.fields(),
                roles(PacketKind::JoinGame),
                offset as int,
            ),
    {
        assert(self.fields() =~= translate_fields(
            self.fields(),
            roles(PacketKind::JoinGame),
            offset as int,
        ));
        self
    }
}

impl ClientboundPlayerPositionAndLook {
    /// This packet after the translation by `offset`.
    pub fn translated(self, offset: i64) -> (moved: ClientboundPlayerPositionAndLook)
        requires
            -OFFSET_LIMIT < offset < OFFSET_LIMIT,
        ensures
            moved.fields() == translate_fields(
                self.fields(),
                roles(PacketKind::ClientboundPlayerPositionAndLook),
                offset as int,
            ),
    {
        assert(self.fields() =~= translate_fields(
            self.fields(),
            roles(PacketKind::ClientboundPlayerPositionAndLook),
            offset as int,
        ));
        self
    }
}

impl ChunkData {
    /// This packet after the translation by `offset`.
    pub fn translated(self, offset: i64) -> (moved: ChunkData)
        requires
            -OFFSET_LIMIT < offset < OFFSET_LIMIT,
        ensures
            moved.fields() == translate_fields(
                self.fields(),
                roles(PacketKind::ChunkData),
                offset as int,
            ),
    {
        let mut moved = self;
        moved.chunk_x = move_chunk(moved.chunk_x, offset);
        assert(moved.fields() =~= translate_fields(
            self.fields(),
            roles(PacketKind::ChunkData),
            offset as int,
        ));
        moved
    }
}

impl PlayerInfo {
    /// This packet after the translation by `offset`.
    pub fn translated(self, offset: i64) -> (moved: PlayerInfo)
        requires
            -OFFSET_LIMIT < offset < OFFSET_LIMIT,
        ensures
            moved.fields() == translate_fields(
                self.fields(),
                roles(PacketKind::PlayerInfo),
                offset as int,
            ),
    {
        assert(self.fields() =~= translate_fields(
            self.fields(),
            roles(PacketKind::PlayerInfo),
            offset as int,
        ));
        self
    }
}

impl SpawnPlayer {
    /// This packet after the translation by `offset`.
    pub fn translated(self, offset: i64) -> (moved: SpawnPlayer)
        requires
            -OFFSET_LIMIT < offset < OFFSET_LIMIT,
        ensures
            moved.fields() == translate_fields(
                self.fields(),
                roles(PacketKind::SpawnPlayer),
                offset as int,
            ),
    {
        let mut moved = self;
        moved.x = offset_bits(moved.x, offset);
        assert(moved.fields() =~= translate_fields(
            self.fields(),
            roles(PacketKind::SpawnPlayer),
            offset as int,
        ));
        moved
    }
}

impl EntityHeadLook {
    /// This packet after the translation by `offset`.
    pub fn translated(self, offset: i64) -> (moved: EntityHeadLook)
        requires
            -OFFSET_LIMIT < offset < OFFSET_LIMIT,
        ensures
            moved.fields() == translate_fields(
                self.fields(),
                roles(PacketKind::EntityHeadLook),
                offset as int,
            ),
    {
        assert(self.fields() =~= translate_fields(
            self.fields(),
            roles(PacketKind::EntityHeadLook),
            offset as int,
        ));
        self
    }
}

impl DestroyEntities {
    /// This packet after the translation by `offset`.
    pub fn translated(self, offset: i64) -> (moved: DestroyEntities)
        requires
            -OFFSET_LIMIT < offset < OFFSET_LIMIT,
        ensures
            moved.fields() == translate_fields(
                self.fields(),
                roles(PacketKind::DestroyEntities),
                offset as int,
            ),
    {
        assert(self.fields() =~= translate_fields(
            self.fields(),
            roles(PacketKind::DestroyEntities),
            offset as int,
        ));
        self
    }
}

impl EntityLookAndMove {
    /// This packet after the translation by `offset`.
    pub fn translated(self, offset: i64) -> (moved: EntityLookAndMove)
        requires
            -OFFSET_LIMIT < offset < OFFSET_LIMIT,
        ensures
            moved.fields() == translate_fields(
                self.fields(),
                roles(PacketKind::EntityLookAndMove),
                offset as int,
            ),
    {
        assert(self.fields() =~= translate_fields(
            self.fields(),
            roles(PacketKind::EntityLookAndMove),
            offset as int,
        ));
        self
    }
}

/// Rebases a packet from the frame of the shard at `from` to the frame of
/// the shard at `to`.
pub fn translate(packet: Packet, from: Position, to: Position) -> (moved: Packet)
    ensures
        moved@ == spec_translate(packet@, from, to),
{
    let offset: i64 = frame_offset_of(from, to);
    match packet {
        Packet::Handshake(p) => Packet::Handshake(p.translated(offset)),
        Packet::StatusRequest(p) => Packet::StatusRequest(p.translated(offset)),
        Packet::Ping(p) => Packet::Ping(p.translated(offset)),
        Packet::LoginStart(p) => Packet::LoginStart(p.translated(offset)),
        Packet::KeepAlive(p) => Packet::KeepAlive(p.translated(offset)),
        Packet::PlayerPosition(p) => Packet::PlayerPosition(p.translated(offset)),
        Packet::PlayerPositionAndLook(p) => Packet::PlayerPositionAndLook(p.translated(offset)),
        Packet::PlayerLook(p) => Packet::PlayerLook(p.translated(offset)),
        Packet::ReportState(p) => Packet::ReportState(p.translated(offset)),
        Packet::BorderCrossLogin(p) => Packet::BorderCrossLogin(p.translated(offset)),
        Packet::Pong(p) => Packet::Pong(p.translated(offset)),
        Packet::StatusResponse(p) => Packet::StatusResponse(p.translated(offset)),
        Packet::LoginSuccess(p) => Packet::LoginSuccess(p.translated(offset)),
        Packet::JoinGame(p) => Packet::JoinGame(p.translated(offset)),
        Packet::ClientboundPlayerPositionAndLook(p) => Packet::ClientboundPlayerPositionAndLook(p.translated(offset)),
        Packet::ChunkData(p) => Packet::ChunkData(p.translated(offset)),
        Packet::PlayerInfo(p) => Packet::PlayerInfo(p.translated(offset)),
        Packet::SpawnPlayer(p) => Packet::SpawnPlayer(p.translated(offset)),
        Packet::EntityHeadLook(p) => Packet::EntityHeadLook(p.translated(offset)),
        Packet::DestroyEntities(p) => Packet::DestroyEntities(p.translated(offset)),
        Packet::EntityLookAndMove(p) => Packet::EntityLookAndMove(p.translated(offset)),
        Packet::Unknown => {
            assert(packet@.fields =~= translate_fields(
                packet@.fields,
                roles(packet@.kind),
                frame_offset(from, to),
            ));
            Packet::Unknown
        },
    }
}

/// Rebases an outbound packet from the frame of the shard at `source`,
/// which sends it, to the frame of the shard that the connection leads to.
pub fn translate_outgoing(packet: Packet, source: Position, info: &TranslationInfo) -> (moved:
    Packet)
    ensures
        moved@ == spec_translate(packet@, source, info.map.position),
{
    translate(packet, source, info.map.position)
}

/// The offset moves the coordinate exactly: the sum of the two is itself
/// a binary64 number, and the coordinate is not the negative zero, which
/// no sum gives back. An offset of 0 moves every coordinate exactly, and
/// so does every offset what is not finite: both stay as they are.
pub open spec fn moves_exactly(bits: Binary64, offset: int) -> bool {
    offset == 0 || !is_finite(bits) || (bits != SIGN_WEIGHT && is_exact_sum(
        bits,
        offset,
        offset_by(bits, offset),
    ))
}

/// The offset moves every X coordinate of an entity in the packet
/// exactly.
pub open spec fn entities_move_exactly(p: PacketView, offset: int) -> bool {
    forall|i: int|
        0 <= i < p.fields.len() && roles(p.kind)[i] == Role::EntityX ==> (
        #[trigger] p.fields[i] matches FieldValue::Double(bits) ==> moves_exactly(bits, offset))
}

/// A chunk coordinate that is moved by an offset and then by its opposite
/// is what it was, whether or not it went around the ends of the range.
pub proof fn lemma_chunk_round_trip(x: i32, offset: int)
    ensures
        wrapped(wrapped(x + offset) - offset) == x,
{
    let there = wrapped(x + offset) as int;
    let span: int = 0x1_0000_0000;
    let first = (x + offset) % span;
    lemma_fundamental_div_mod(x + offset, span);
    let turns = (x + offset) / span;
    assert(there == first || there == first - span);
    let carried: int = if there == first {
        0
    } else {
        1
    };
    let pattern: int = if x < 0 {
        x + span
    } else {
        x as int
    };
    let borrowed: int = if x < 0 {
        1
    } else {
        0
    };
    assert(there - offset == span * (-turns - carried - borrowed) + pattern) by (nonlinear_arith)
        requires
            x + offset == span * turns + first,
            there == first - span * carried,
            pattern == x + span * borrowed,
    ;
    lemma_fundamental_div_mod_converse(there - offset, span, -turns - carried - borrowed, pattern);
}

/// A packet that is rebased from one frame to another and back again is
/// what it was, bit for bit, wherever the way there moves the X
/// coordinates of its entities exactly. The coordinates of chunks are
/// always restored, and every other field is left alone both times.
pub proof fn lemma_translate_round_trip(p: PacketView, a: Position, b: Position)
    requires
        entities_move_exactly(p, frame_offset(a, b)),
    ensures
        spec_translate(spec_translate(p, a, b), b, a) == p,
{
    let offset = frame_offset(a, b);
    assert(frame_offset(b, a) == -offset) by (nonlinear_arith)
        requires
            offset == CHUNK_SIZE * (b.x - a.x),
            frame_offset(b, a) == CHUNK_SIZE * (a.x - b.x),
    ;
    let there = spec_translate(p, a, b);
    let back = spec_translate(there, b, a);
    assert forall|i: int| 0 <= i < p.fields.len() implies back.fields[i] == p.fields[i] by {
        let role = roles(p.kind)[i];
        match (role, p.fields[i]) {
            (Role::EntityX, FieldValue::Double(bits)) => {
                assert(moves_exactly(bits, offset));
                lemma_offset_round_trip(bits, offset);
            },
            (Role::ChunkX, FieldValue::Int(x)) => {
                lemma_chunk_round_trip(x, offset);
            },
            _ => {},
        }
    }
    assert(back.fields =~= p.fields);
}

} // verus!
