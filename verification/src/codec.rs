//! The packet codec: frames are written from packets and packets are read
//! from frames, field by field as the catalogue lays them out.
//!
//! A frame is a VarInt byte count, then the VarInt packet id, then the
//! fields of the packet.

use crate::field::{
    FieldValue, LIGHT_BYTES, SectionView, WireType, conforms, conforms_all, encode_fields,
    encode_section, lemma_encode_fields_push, lemma_fields_window, lemma_parse_fields_step,
    lemma_window_split, parse_fields, parse_section, section_fits,
};
use crate::packet::{
    BIOME_COUNT, ChunkSection, Packet, PacketKind, PacketView, find_kind, layout,
    lemma_lookup_finds, lookup, packet_id, valid_in,
    BorderCrossLogin, ChunkData, ClientboundPlayerPositionAndLook, DestroyEntities,
    EntityHeadLook, EntityLookAndMove, Handshake, JoinGame, KeepAlive, LoginStart, LoginSuccess,
    Ping, PlayerInfo, PlayerLook, PlayerPosition, PlayerPositionAndLook, Pong, ReportState,
    SpawnPlayer, StatusRequest, StatusResponse,
};
use crate::wire::{
    DecodeError, MAX_LENGTH, lemma_varint_len, lemma_varint_window, parse_varint, put_bool,
    put_bytes, put_i16, put_i32, put_i64, put_i8, put_int_run, put_long_array, put_string,
    put_u128, put_u16, put_u32, put_u64, put_u8, put_varint, put_varint_array, read_bool,
    read_bytes, read_i16, read_i32, read_i64, read_i8, read_int_run, read_long_array,
    read_string, read_u128, read_u16, read_u32, read_u64, read_u8, read_varint,
    read_varint_array, spec_varint, unsigned_of,
};
use vstd::prelude::*;

verus! {

/// The packet that the fields in `body` make when they are read as those
/// of `kind`. Bytes after the last field are left unread.
pub open spec fn spec_decode_kind(kind: PacketKind, body: Seq<u8>) -> Result<
    PacketView,
    DecodeError,
> {
    if kind == PacketKind::Unknown {
        Ok(PacketView { kind, fields: Seq::empty() })
    } else {
        match parse_fields(layout(kind), body, 0, Seq::empty()) {
            Err(e) => Err(e),
            Ok((fields, _)) => Ok(PacketView { kind, fields }),
        }
    }
}

/// The result `r` of reading a packet says the same as the spec-level `d`.
pub open spec fn same_packet(r: Result<Packet, DecodeError>, d: Result<PacketView, DecodeError>)
    -> bool {
    match r {
        Ok(p) => d == Ok::<PacketView, DecodeError>(p@),
        Err(e) => d == Err::<PacketView, DecodeError>(e),
    }
}

/// Why a packet could not be written.
#[derive(Debug, Clone, Copy, PartialEq, Eq, Structural)]
pub enum EncodeError {
    /// The packet is `Unknown`, which has no wire form.
    UnknownPacket,
    /// A string or an array is too long for its length prefix, or an array
    /// of fixed size has another size.
    InvalidField,
    /// The id and the fields together are too long for the frame's length
    /// prefix.
    FrameTooLong,
}

impl ChunkSection {
    /// Appends the wire form of this section. `false` comes back when the
    /// section does not fit its wire type; what `out` then holds is not
    /// said.
    pub fn write(&self, out: &mut Vec<u8>) -> (done: bool)
        ensures
            done <==> section_fits(self@),
            done ==> final(out)@ == old(out)@ + encode_section(self@),
    {
        if self.data_array.len() > MAX_LENGTH || self.block_light.len() != LIGHT_BYTES
            || self.sky_light.len() != LIGHT_BYTES {
            return false;
        }
        put_u8(out, self.bits_per_block);
        let counted: bool = put_long_array(out, &self.data_array);
        put_bytes(out, self.block_light.as_slice());
        put_bytes(out, self.sky_light.as_slice());
        assert(out@ =~= old(out)@ + encode_section(self@));
        true
    }

    /// Reads a section at `pos`.
    pub fn read(bytes: &[u8], pos: usize) -> (r: Result<(ChunkSection, usize), DecodeError>)
        ensures
            match r {
                Ok((v, next)) => parse_section(bytes@, pos as int) == Ok::<
                    (SectionView, int),
                    DecodeError,
                >((v@, next as int)),
                Err(e) => parse_section(bytes@, pos as int) == Err::<
                    (SectionView, int),
                    DecodeError,
                >(e),
            },
    {
        let (bits_per_block, at1) = match read_u8(bytes, pos) {
            Ok(found) => found,
            Err(e) => { return Err(e); },
        };
        let (data_array, at2) = match read_long_array(bytes, at1) {
            Ok(found) => found,
            Err(e) => { return Err(e); },
        };
        let (block_light, at3) = match read_bytes(bytes, at2, LIGHT_BYTES) {
            Ok(found) => found,
            Err(e) => { return Err(e); },
        };
        let (sky_light, at4) = match read_bytes(bytes, at3, LIGHT_BYTES) {
            Ok(found) => found,
            Err(e) => { return Err(e); },
        };
        Ok((ChunkSection { bits_per_block, data_array, block_light, sky_light }, at4))
    }
}

impl Handshake {
    /// Appends the wire forms of the fields. `false` comes back when a field
    /// does not fit its wire type; what `out` then holds is not said.
    pub fn write_fields(&self, out: &mut Vec<u8>) -> (done: bool)
        ensures
            done <==> conforms_all(self.fields(), layout(PacketKind::Handshake)),
            done ==> final(out)@ == old(out)@ + encode_fields(self.fields()),
    {
        let ghost f0 = Seq::<FieldValue>::empty();
        put_varint(out, self.protocol_version);
        let ghost f1 = f0.push(FieldValue::VarInt(self.protocol_version));
        proof {
            lemma_encode_fields_push(f0, FieldValue::VarInt(self.protocol_version));
        }
        if !put_string(out, &self.server_address) {
            assert(!conforms(self.fields()[1], layout(PacketKind::Handshake)[1]));
            return false;
        }
        let ghost f2 = f1.push(FieldValue::Text(self.server_address@));
        proof {
            lemma_encode_fields_push(f1, FieldValue::Text(self.server_address@));
        }
        put_u16(out, self.server_port);
        let ghost f3 = f2.push(FieldValue::UShort(self.server_port));
        proof {
            lemma_encode_fields_push(f2, FieldValue::UShort(self.server_port));
        }
        put_varint(out, self.next_state);
        let ghost f4 = f3.push(FieldValue::VarInt(self.next_state));
        proof {
            lemma_encode_fields_push(f3, FieldValue::VarInt(self.next_state));
        }
        assert(out@ =~= old(out)@ + encode_fields(f4));
        true
    }

    /// Reads the fields at `pos`.
    pub fn read_fields(bytes: &[u8], pos: usize) -> (r: Result<(Handshake, usize), DecodeError>)
        ensures
            match r {
                Ok((p, next)) => parse_fields(
                    layout(PacketKind::Handshake),
                    bytes@,
                    pos as int,
                    Seq::empty(),
                ) == Ok::<(Seq<FieldValue>, int), DecodeError>((p.fields(), next as int)),
                Err(e) => parse_fields(
                    layout(PacketKind::Handshake),
                    bytes@,
                    pos as int,
                    Seq::empty(),
                ) == Err::<(Seq<FieldValue>, int), DecodeError>(e),
            },
    {
        let ghost layout = layout(PacketKind::Handshake);
        let ghost f0 = Seq::<FieldValue>::empty();
        proof {
            lemma_parse_fields_step(layout, bytes@, pos as int, f0);
        }
        let (protocol_version, at1) = match read_varint(bytes, pos) {
            Ok(found) => found,
            Err(e) => { return Err(e); },
        };
        let ghost f1 = f0.push(FieldValue::VarInt(protocol_version));
        proof {
            lemma_parse_fields_step(layout, bytes@, at1 as int, f1);
        }
        let (server_address, at2) = match read_string(bytes, at1) {
            Ok(found) => found,
            Err(e) => { return Err(e); },
        };
        let ghost f2 = f1.push(FieldValue::Text(server_address@));
        proof {
            lemma_parse_fields_step(layout, bytes@, at2 as int, f2);
        }
        let (server_port, at3) = match read_u16(bytes, at2) {
            Ok(found) => found,
            Err(e) => { return Err(e); },
        };
        let ghost f3 = f2.push(FieldValue::UShort(server_port));
        proof {
            lemma_parse_fields_step(layout, bytes@, at3 as int, f3);
        }
        let (next_state, at4) = match read_varint(bytes, at3) {
            Ok(found) => found,
            Err(e) => { return Err(e); },
        };
        let ghost f4 = f3.push(FieldValue::VarInt(next_state));
        proof {
            lemma_parse_fields_step(layout, bytes@, at4 as int, f4);
        }
        Ok((Handshake { protocol_version, server_address, server_port, next_state }, at4))
    }

    /// Reads a packet of this kind from the fields of a frame.
    pub fn decode(body: &[u8]) -> (r: Result<Packet, DecodeError>)
        ensures
            same_packet(r, spec_decode_kind(PacketKind::Handshake, body@)),
    {
        match Handshake::read_fields(body, 0) {
            Ok((p, _)) => Ok(Packet::Handshake(p)),
            Err(e) => Err(e),
        }
    }
}

impl StatusRequest {
    /// Appends the wire forms of the fields. `false` comes back when a field
    /// does not fit its wire type; what `out` then holds is not said.
    pub fn write_fields(&self, out: &mut Vec<u8>) -> (done: bool)
        ensures
            done <==> conforms_all(self.fields(), layout(PacketKind::StatusRequest)),
            done ==> final(out)@ == old(out)@ + encode_fields(self.fields()),
    {
        true
    }

    /// Reads the fields at `pos`.
    pub fn read_fields(bytes: &[u8], pos: usize) -> (r: Result<(StatusRequest, usize), DecodeError>)
        ensures
            match r {
                Ok((p, next)) => parse_fields(
                    layout(PacketKind::StatusRequest),
                    bytes@,
                    pos as int,
                    Seq::empty(),
                ) == Ok::<(Seq<FieldValue>, int), DecodeError>((p.fields(), next as int)),
                Err(e) => parse_fields(
                    layout(PacketKind::StatusRequest),
                    bytes@,
                    pos as int,
                    Seq::empty(),
                ) == Err::<(Seq<FieldValue>, int), DecodeError>(e),
            },
    {
        let ghost layout = layout(PacketKind::StatusRequest);
        let ghost f0 = Seq::<FieldValue>::empty();
        proof {
            lemma_parse_fields_step(layout, bytes@, pos as int, f0);
        }
        Ok((StatusRequest {}, pos))
    }

    /// Reads a packet of this kind from the fields of a frame.
    pub fn decode(body: &[u8]) -> (r: Result<Packet, DecodeError>)
        ensures
            same_packet(r, spec_decode_kind(PacketKind::StatusRequest, body@)),
    {
        match StatusRequest::read_fields(body, 0) {
            Ok((p, _)) => Ok(Packet::StatusRequest(p)),
            Err(e) => Err(e),
        }
    }
}

impl Ping {
    /// Appends the wire forms of the fields. `false` comes back when a field
    /// does not fit its wire type; what `out` then holds is not said.
    pub fn write_fields(&self, out: &mut Vec<u8>) -> (done: bool)
        ensures
            done <==> conforms_all(self.fields(), layout(PacketKind::Ping)),
            done ==> final(out)@ == old(out)@ + encode_fields(self.fields()),
    {
        let ghost f0 = Seq::<FieldValue>::empty();
        put_i64(out, self.payload);
        let ghost f1 = f0.push(FieldValue::Long(self.payload));
        proof {
            lemma_encode_fields_push(f0, FieldValue::Long(self.payload));
        }
        assert(out@ =~= old(out)@ + encode_fields(f1));
        true
    }

    /// Reads the fields at `pos`.
    pub fn read_fields(bytes: &[u8], pos: usize) -> (r: Result<(Ping, usize), DecodeError>)
        ensures
            match r {
                Ok((p, next)) => parse_fields(
                    layout(PacketKind::Ping),
                    bytes@,
                    pos as int,
                    Seq::empty(),
                ) == Ok::<(Seq<FieldValue>, int), DecodeError>((p.fields(), next as int)),
                Err(e) => parse_fields(
                    layout(PacketKind::Ping),
                    bytes@,
                    pos as int,
                    Seq::empty(),
                ) == Err::<(Seq<FieldValue>, int), DecodeError>(e),
            },
    {
        let ghost layout = layout(PacketKind::Ping);
        let ghost f0 = Seq::<FieldValue>::empty();
        proof {
            lemma_parse_fields_step(layout, bytes@, pos as int, f0);
        }
        let (payload, at1) = match read_i64(bytes, pos) {
            Ok(found) => found,
            Err(e) => { return Err(e); },
        };
        let ghost f1 = f0.push(FieldValue::Long(payload));
        proof {
            lemma_parse_fields_step(layout, bytes@, at1 as int, f1);
        }
        Ok((Ping { payload }, at1))
    }

    /// Reads a packet of this kind from the fields of a frame.
    pub fn decode(body: &[u8]) -> (r: Result<Packet, DecodeError>)
        ensures
            same_packet(r, spec_decode_kind(PacketKind::Ping, body@)),
    {
        match Ping::read_fields(body, 0) {
            Ok((p, _)) => Ok(Packet::Ping(p)),
            Err(e) => Err(e),
        }
    }
}

impl LoginStart {
    /// Appends the wire forms of the fields. `false` comes back when a field
    /// does not fit its wire type; what `out` then holds is not said.
    pub fn write_fields(&self, out: &mut Vec<u8>) -> (done: bool)
        ensures
            done <==> conforms_all(self.fields(), layout(PacketKind::LoginStart)),
            done ==> final(out)@ == old(out)@ + encode_fields(self.fields()),
    {
        let ghost f0 = Seq::<FieldValue>::empty();
        if !put_string(out, &self.username) {
            assert(!conforms(self.fields()[0], layout(PacketKind::LoginStart)[0]));
            return false;
        }
        let ghost f1 = f0.push(FieldValue::Text(self.username@));
        proof {
            lemma_encode_fields_push(f0, FieldValue::Text(self.username@));
        }
        assert(out@ =~= old(out)@ + encode_fields(f1));
        true
    }

    /// Reads the fields at `pos`.
    pub fn read_fields(bytes: &[u8], pos: usize) -> (r: Result<(LoginStart, usize), DecodeError>)
        ensures
            match r {
                Ok((p, next)) => parse_fields(
                    layout(PacketKind::LoginStart),
                    bytes@,
                    pos as int,
                    Seq::empty(),
                ) == Ok::<(Seq<FieldValue>, int), DecodeError>((p.fields(), next as int)),
                Err(e) => parse_fields(
                    layout(PacketKind::LoginStart),
                    bytes@,
                    pos as int,
                    Seq::empty(),
                ) == Err::<(Seq<FieldValue>, int), DecodeError>(e),
            },
    {
        let ghost layout = layout(PacketKind::LoginStart);
        let ghost f0 = Seq::<FieldValue>::empty();
        proof {
            lemma_parse_fields_step(layout, bytes@, pos as int, f0);
        }
        let (username, at1) = match read_string(bytes, pos) {
            Ok(found) => found,
            Err(e) => { return Err(e); },
        };
        let ghost f1 = f0.push(FieldValue::Text(username@));
        proof {
            lemma_parse_fields_step(layout, bytes@, at1 as int, f1);
        }
        Ok((LoginStart { username }, at1))
    }

    /// Reads a packet of this kind from the fields of a frame.
    pub fn decode(body: &[u8]) -> (r: Result<Packet, DecodeError>)
        ensures
            same_packet(r, spec_decode_kind(PacketKind::LoginStart, body@)),
    {
        match LoginStart::read_fields(body, 0) {
            Ok((p, _)) => Ok(Packet::LoginStart(p)),
            Err(e) => Err(e),
        }
    }
}

impl KeepAlive {
    /// Appends the wire forms of the fields. `false` comes back when a field
    /// does not fit its wire type; what `out` then holds is not said.
    pub fn write_fields(&self, out: &mut Vec<u8>) -> (done: bool)
        ensures
            done <==> conforms_all(self.fields(), layout(PacketKind::KeepAlive)),
            done ==> final(out)@ == old(out)@ + encode_fields(self.fields()),
    {
        let ghost f0 = Seq::<FieldValue>::empty();
        put_i64(out, self.id);
        let ghost f1 = f0.push(FieldValue::Long(self.id));
        proof {
            lemma_encode_fields_push(f0, FieldValue::Long(self.id));
        }
        assert(out@ =~= old(out)@ + encode_fields(f1));
        true
    }

    /// Reads the fields at `pos`.
    pub fn read_fields(bytes: &[u8], pos: usize) -> (r: Result<(KeepAlive, usize), DecodeError>)
        ensures
            match r {
                Ok((p, next)) => parse_fields(
                    layout(PacketKind::KeepAlive),
                    bytes@,
                    pos as int,
                    Seq::empty(),
                ) == Ok::<(Seq<FieldValue>, int), DecodeError>((p.fields(), next as int)),
                Err(e) => parse_fields(
                    layout(PacketKind::KeepAlive),
                    bytes@,
                    pos as int,
                    Seq::empty(),
                ) == Err::<(Seq<FieldValue>, int), DecodeError>(e),
            },
    {
        let ghost layout = layout(PacketKind::KeepAlive);
        let ghost f0 = Seq::<FieldValue>::empty();
        proof {
            lemma_parse_fields_step(layout, bytes@, pos as int, f0);
        }
        let (id, at1) = match read_i64(bytes, pos) {
            Ok(found) => found,
            Err(e) => { return Err(e); },
        };
        let ghost f1 = f0.push(FieldValue::Long(id));
        proof {
            lemma_parse_fields_step(layout, bytes@, at1 as int, f1);
        }
        Ok((KeepAlive { id }, at1))
    }

    /// Reads a packet of this kind from the fields of a frame.
    pub fn decode(body: &[u8]) -> (r: Result<Packet, DecodeError>)
        ensures
            same_packet(r, spec_decode_kind(PacketKind::KeepAlive, body@)),
    {
        match KeepAlive::read_fields(body, 0) {
            Ok((p, _)) => Ok(Packet::KeepAlive(p)),
            Err(e) => Err(e),
        }
    }
}

impl PlayerPosition {
    /// Appends the wire forms of the fields. `false` comes back when a field
    /// does not fit its wire type; what `out` then holds is not said.
    pub fn write_fields(&self, out: &mut Vec<u8>) -> (done: bool)
        ensures
            done <==> conforms_all(self.fields(), layout(PacketKind::PlayerPosition)),
            done ==> final(out)@ == old(out)@ + encode_fields(self.fields()),
    {
        let ghost f0 = Seq::<FieldValue>::empty();
        put_u64(out, self.x);
        let ghost f1 = f0.push(FieldValue::Double(self.x));
        proof {
            lemma_encode_fields_push(f0, FieldValue::Double(self.x));
        }
        put_u64(out, self.feet_y);
        let ghost f2 = f1.push(FieldValue::Double(self.feet_y));
        proof {
            lemma_encode_fields_push(f1, FieldValue::Double(self.feet_y));
        }
        put_u64(out, self.z);
        let ghost f3 = f2.push(FieldValue::Double(self.z));
        proof {
            lemma_encode_fields_push(f2, FieldValue::Double(self.z));
        }
        put_bool(out, self.on_ground);
        let ghost f4 = f3.push(FieldValue::Boolean(self.on_ground));
        proof {
            lemma_encode_fields_push(f3, FieldValue::Boolean(self.on_ground));
        }
        assert(out@ =~= old(out)@ + encode_fields(f4));
        true
    }

    /// Reads the fields at `pos`.
    pub fn read_fields(bytes: &[u8], pos: usize) -> (r: Result<(PlayerPosition, usize), DecodeError>)
        ensures
            match r {
                Ok((p, next)) => parse_fields(
                    layout(PacketKind::PlayerPosition),
                    bytes@,
                    pos as int,
                    Seq::empty(),
                ) == Ok::<(Seq<FieldValue>, int), DecodeError>((p.fields(), next as int)),
                Err(e) => parse_fields(
                    layout(PacketKind::PlayerPosition),
                    bytes@,
                    pos as int,
                    Seq::empty(),
                ) == Err::<(Seq<FieldValue>, int), DecodeError>(e),
            },
    {
        let ghost layout = layout(PacketKind::PlayerPosition);
        let ghost f0 = Seq::<FieldValue>::empty();
        proof {
            lemma_parse_fields_step(layout, bytes@, pos as int, f0);
        }
        let (x, at1) = match read_u64(bytes, pos) {
            Ok(found) => found,
            Err(e) => { return Err(e); },
        };
        let ghost f1 = f0.push(FieldValue::Double(x));
        proof {
            lemma_parse_fields_step(layout, bytes@, at1 as int, f1);
        }
        let (feet_y, at2) = match read_u64(bytes, at1) {
            Ok(found) => found,
            Err(e) => { return Err(e); },
        };
        let ghost f2 = f1.push(FieldValue::Double(feet_y));
        proof {
            lemma_parse_fields_step(layout, bytes@, at2 as int, f2);
        }
        let (z, at3) = match read_u64(bytes, at2) {
            Ok(found) => found,
            Err(e) => { return Err(e); },
        };
        let ghost f3 = f2.push(FieldValue::Double(z));
        proof {
            lemma_parse_fields_step(layout, bytes@, at3 as int, f3);
        }
        let (on_ground, at4) = match read_bool(bytes, at3) {
            Ok(found) => found,
            Err(e) => { return Err(e); },
        };
        let ghost f4 = f3.push(FieldValue::Boolean(on_ground));
        proof {
            lemma_parse_fields_step(layout, bytes@, at4 as int, f4);
        }
        Ok((PlayerPosition { x, feet_y, z, on_ground }, at4))
    }

    /// Reads a packet of this kind from the fields of a frame.
    pub fn decode(body: &[u8]) -> (r: Result<Packet, DecodeError>)
        ensures
            same_packet(r, spec_decode_kind(PacketKind::PlayerPosition, body@)),
    {
        match PlayerPosition::read_fields(body, 0) {
            Ok((p, _)) => Ok(Packet::PlayerPosition(p)),
            Err(e) => Err(e),
        }
    }
}

impl PlayerPositionAndLook {
    /// Appends the wire forms of the fields. `false` comes back when a field
    /// does not fit its wire type; what `out` then holds is not said.
    pub fn write_fields(&self, out: &mut Vec<u8>) -> (done: bool)
        ensures
            done <==> conforms_all(self.fields(), layout(PacketKind::PlayerPositionAndLook)),
            done ==> final(out)@ == old(out)@ + encode_fields(self.fields()),
    {
        let ghost f0 = Seq::<FieldValue>::empty();
        put_u64(out, self.x);
        let ghost f1 = f0.push(FieldValue::Double(self.x));
        proof {
            lemma_encode_fields_push(f0, FieldValue::Double(self.x));
        }
        put_u64(out, self.feet_y);
        let ghost f2 = f1.push(FieldValue::Double(self.feet_y));
        proof {
            lemma_encode_fields_push(f1, FieldValue::Double(self.feet_y));
        }
        put_u64(out, self.z);
        let ghost f3 = f2.push(FieldValue::Double(self.z));
        proof {
            lemma_encode_fields_push(f2, FieldValue::Double(self.z));
        }
        put_u32(out, self.yaw);
        let ghost f4 = f3.push(FieldValue::Float(self.yaw));
        proof {
            lemma_encode_fields_push(f3, FieldValue::Float(self.yaw));
        }
        put_u32(out, self.pitch);
        let ghost f5 = f4.push(FieldValue::Float(self.pitch));
        proof {
            lemma_encode_fields_push(f4, FieldValue::Float(self.pitch));
        }
        put_bool(out, self.on_ground);
        let ghost f6 = f5.push(FieldValue::Boolean(self.on_ground));
        proof {
            lemma_encode_fields_push(f5, FieldValue::Boolean(self.on_ground));
        }
        assert(out@ =~= old(out)@ + encode_fields(f6));
        true
    }

    /// Reads the fields at `pos`.
    pub fn read_fields(bytes: &[u8], pos: usize) -> (r: Result<(PlayerPositionAndLook, usize), DecodeError>)
        ensures
            match r {
                Ok((p, next)) => parse_fields(
                    layout(PacketKind::PlayerPositionAndLook),
                    bytes@,
                    pos as int,
                    Seq::empty(),
                ) == Ok::<(Seq<FieldValue>, int), DecodeError>((p.fields(), next as int)),
                Err(e) => parse_fields(
                    layout(PacketKind::PlayerPositionAndLook),
                    bytes@,
                    pos as int,
                    Seq::empty(),
                ) == Err::<(Seq<FieldValue>, int), DecodeError>(e),
            },
    {
        let ghost layout = layout(PacketKind::PlayerPositionAndLook);
        let ghost f0 = Seq::<FieldValue>::empty();
        proof {
            lemma_parse_fields_step(layout, bytes@, pos as int, f0);
        }
        let (x, at1) = match read_u64(bytes, pos) {
            Ok(found) => found,
            Err(e) => { return Err(e); },
        };
        let ghost f1 = f0.push(FieldValue::Double(x));
        proof {
            lemma_parse_fields_step(layout, bytes@, at1 as int, f1);
        }
        let (feet_y, at2) = match read_u64(bytes, at1) {
            Ok(found) => found,
            Err(e) => { return Err(e); },
        };
        let ghost f2 = f1.push(FieldValue::Double(feet_y));
        proof {
            lemma_parse_fields_step(layout, bytes@, at2 as int, f2);
        }
        let (z, at3) = match read_u64(bytes, at2) {
            Ok(found) => found,
            Err(e) => { return Err(e); },
        };
        let ghost f3 = f2.push(FieldValue::Double(z));
        proof {
            lemma_parse_fields_step(layout, bytes@, at3 as int, f3);
        }
        let (yaw, at4) = match read_u32(bytes, at3) {
            Ok(found) => found,
            Err(e) => { return Err(e); },
        };
        let ghost f4 = f3.push(FieldValue::Float(yaw));
        proof {
            lemma_parse_fields_step(layout, bytes@, at4 as int, f4);
        }
        let (pitch, at5) = match read_u32(bytes, at4) {
            Ok(found) => found,
            Err(e) => { return Err(e); },
        };
        let ghost f5 = f4.push(FieldValue::Float(pitch));
        proof {
            lemma_parse_fields_step(layout, bytes@, at5 as int, f5);
        }
        let (on_ground, at6) = match read_bool(bytes, at5) {
            Ok(found) => found,
            Err(e) => { return Err(e); },
        };
        let ghost f6 = f5.push(FieldValue::Boolean(on_ground));
        proof {
            lemma_parse_fields_step(layout, bytes@, at6 as int, f6);
        }
        Ok((PlayerPositionAndLook { x, feet_y, z, yaw, pitch, on_ground }, at6))
    }

    /// Reads a packet of this kind from the fields of a frame.
    pub fn decode(body: &[u8]) -> (r: Result<Packet, DecodeError>)
        ensures
            same_packet(r, spec_decode_kind(PacketKind::PlayerPositionAndLook, body@)),
    {
        match PlayerPositionAndLook::read_fields(body, 0) {
            Ok((p, _)) => Ok(Packet::PlayerPositionAndLook(p)),
            Err(e) => Err(e),
        }
    }
}

impl PlayerLook {
    /// Appends the wire forms of the fields. `false` comes back when a field
    /// does not fit its wire type; what `out` then holds is not said.
    pub fn write_fields(&self, out: &mut Vec<u8>) -> (done: bool)
        ensures
            done <==> conforms_all(self.fields(), layout(PacketKind::PlayerLook)),
            done ==> final(out)@ == old(out)@ + encode_fields(self.fields()),
    {
        let ghost f0 = Seq::<FieldValue>::empty();
        put_u32(out, self.yaw);
        let ghost f1 = f0.push(FieldValue::Float(self.yaw));
        proof {
            lemma_encode_fields_push(f0, FieldValue::Float(self.yaw));
        }
        put_u32(out, self.pitch);
        let ghost f2 = f1.push(FieldValue::Float(self.pitch));
        proof {
            lemma_encode_fields_push(f1, FieldValue::Float(self.pitch));
        }
        put_bool(out, self.on_ground);
        let ghost f3 = f2.push(FieldValue::Boolean(self.on_ground));
        proof {
            lemma_encode_fields_push(f2, FieldValue::Boolean(self.on_ground));
        }
        assert(out@ =~= old(out)@ + encode_fields(f3));
        true
    }

    /// Reads the fields at `pos`.
    pub fn read_fields(bytes: &[u8], pos: usize) -> (r: Result<(PlayerLook, usize), DecodeError>)
        ensures
            match r {
                Ok((p, next)) => parse_fields(
                    layout(PacketKind::PlayerLook),
                    bytes@,
                    pos as int,
                    Seq::empty(),
                ) == Ok::<(Seq<FieldValue>, int), DecodeError>((p.fields(), next as int)),
                Err(e) => parse_fields(
                    layout(PacketKind::PlayerLook),
                    bytes@,
                    pos as int,
                    Seq::empty(),
                ) == Err::<(Seq<FieldValue>, int), DecodeError>(e),
            },
    {
        let ghost layout = layout(PacketKind::PlayerLook);
        let ghost f0 = Seq::<FieldValue>::empty();
        proof {
            lemma_parse_fields_step(layout, bytes@, pos as int, f0);
        }
        let (yaw, at1) = match read_u32(bytes, pos) {
            Ok(found) => found,
            Err(e) => { return Err(e); },
        };
        let ghost f1 = f0.push(FieldValue::Float(yaw));
        proof {
            lemma_parse_fields_step(layout, bytes@, at1 as int, f1);
        }
        let (pitch, at2) = match read_u32(bytes, at1) {
            Ok(found) => found,
            Err(e) => { return Err(e); },
        };
        let ghost f2 = f1.push(FieldValue::Float(pitch));
        proof {
            lemma_parse_fields_step(layout, bytes@, at2 as int, f2);
        }
        let (on_ground, at3) = match read_bool(bytes, at2) {
            Ok(found) => found,
            Err(e) => { return Err(e); },
        };
        let ghost f3 = f2.push(FieldValue::Boolean(on_ground));
        proof {
            lemma_parse_fields_step(layout, bytes@, at3 as int, f3);
        }
        Ok((PlayerLook { yaw, pitch, on_ground }, at3))
    }

    /// Reads a packet of this kind from the fields of a frame.
    pub fn decode(body: &[u8]) -> (r: Result<Packet, DecodeError>)
        ensures
            same_packet(r, spec_decode_kind(PacketKind::PlayerLook, body@)),
    {
        match PlayerLook::read_fields(body, 0) {
            Ok((p, _)) => Ok(Packet::PlayerLook(p)),
            Err(e) => Err(e),
        }
    }
}

impl ReportState {
    /// Appends the wire forms of the fields. `false` comes back when a field
    /// does not fit its wire type; what `out` then holds is not said.
    pub fn write_fields(&self, out: &mut Vec<u8>) -> (done: bool)
        ensures
            done <==> conforms_all(self.fields(), layout(PacketKind::ReportState)),
            done ==> final(out)@ == old(out)@ + encode_fields(self.fields()),
    {
        true
    }

    /// Reads the fields at `pos`.
    pub fn read_fields(bytes: &[u8], pos: usize) -> (r: Result<(ReportState, usize), DecodeError>)
        ensures
            match r {
                Ok((p, next)) => parse_fields(
                    layout(PacketKind::ReportState),
                    bytes@,
                    pos as int,
                    Seq::empty(),
                ) == Ok::<(Seq<FieldValue>, int), DecodeError>((p.fields(), next as int)),
                Err(e) => parse_fields(
                    layout(PacketKind::ReportState),
                    bytes@,
                    pos as int,
                    Seq::empty(),
                ) == Err::<(Seq<FieldValue>, int), DecodeError>(e),
            },
    {
        let ghost layout = layout(PacketKind::ReportState);
        let ghost f0 = Seq::<FieldValue>::empty();
        proof {
            lemma_parse_fields_step(layout, bytes@, pos as int, f0);
        }
        Ok((ReportState {}, pos))
    }

    /// Reads a packet of this kind from the fields of a frame.
    pub fn decode(body: &[u8]) -> (r: Result<Packet, DecodeError>)
        ensures
            same_packet(r, spec_decode_kind(PacketKind::ReportState, body@)),
    {
        match ReportState::read_fields(body, 0) {
            Ok((p, _)) => Ok(Packet::ReportState(p)),
            Err(e) => Err(e),
        }
    }
}

impl BorderCrossLogin {
    /// Appends the wire forms of the fields. `false` comes back when a field
    /// does not fit its wire type; what `out` then holds is not said.
    pub fn write_fields(&self, out: &mut Vec<u8>) -> (done: bool)
        ensures
            done <==> conforms_all(self.fields(), layout(PacketKind::BorderCrossLogin)),
            done ==> final(out)@ == old(out)@ + encode_fields(self.fields()),
    {
        let ghost f0 = Seq::<FieldValue>::empty();
        put_u64(out, self.x);
        let ghost f1 = f0.push(FieldValue::Double(self.x));
        proof {
            lemma_encode_fields_push(f0, FieldValue::Double(self.x));
        }
        put_u64(out, self.feet_y);
        let ghost f2 = f1.push(FieldValue::Double(self.feet_y));
        proof {
            lemma_encode_fields_push(f1, FieldValue::Double(self.feet_y));
        }
        put_u64(out, self.z);
        let ghost f3 = f2.push(FieldValue::Double(self.z));
        proof {
            lemma_encode_fields_push(f2, FieldValue::Double(self.z));
        }
        put_u32(out, self.yaw);
        let ghost f4 = f3.push(FieldValue::Float(self.yaw));
        proof {
            lemma_encode_fields_push(f3, FieldValue::Float(self.yaw));
        }
        put_u32(out, self.pitch);
        let ghost f5 = f4.push(FieldValue::Float(self.pitch));
        proof {
            lemma_encode_fields_push(f4, FieldValue::Float(self.pitch));
        }
        put_bool(out, self.on_ground);
        let ghost f6 = f5.push(FieldValue::Boolean(self.on_ground));
        proof {
            lemma_encode_fields_push(f5, FieldValue::Boolean(self.on_ground));
        }
        if !put_string(out, &self.username) {
            assert(!conforms(self.fields()[6], layout(PacketKind::BorderCrossLogin)[6]));
            return false;
        }
        let ghost f7 = f6.push(FieldValue::Text(self.username@));
        proof {
            lemma_encode_fields_push(f6, FieldValue::Text(self.username@));
        }
        put_i32(out, self.entity_id);
        let ghost f8 = f7.push(FieldValue::Int(self.entity_id));
        proof {
            lemma_encode_fields_push(f7, FieldValue::Int(self.entity_id));
        }
        assert(out@ =~= old(out)@ + encode_fields(f8));
        true
    }

    /// Reads the fields at `pos`.
    pub fn read_fields(bytes: &[u8], pos: usize) -> (r: Result<(BorderCrossLogin, usize), DecodeError>)
        ensures
            match r {
                Ok((p, next)) => parse_fields(
                    layout(PacketKind::BorderCrossLogin),
                    bytes@,
                    pos as int,
                    Seq::empty(),
                ) == Ok::<(Seq<FieldValue>, int), DecodeError>((p.fields(), next as int)),
                Err(e) => parse_fields(
                    layout(PacketKind::BorderCrossLogin),
                    bytes@,
                    pos as int,
                    Seq::empty(),
                ) == Err::<(Seq<FieldValue>, int), DecodeError>(e),
            },
    {
        let ghost layout = layout(PacketKind::BorderCrossLogin);
        let ghost f0 = Seq::<FieldValue>::empty();
        proof {
            lemma_parse_fields_step(layout, bytes@, pos as int, f0);
        }
        let (x, at1) = match read_u64(bytes, pos) {
            Ok(found) => found,
            Err(e) => { return Err(e); },
        };
        let ghost f1 = f0.push(FieldValue::Double(x));
        proof {
            lemma_parse_fields_step(layout, bytes@, at1 as int, f1);
        }
        let (feet_y, at2) = match read_u64(bytes, at1) {
            Ok(found) => found,
            Err(e) => { return Err(e); },
        };
        let ghost f2 = f1.push(FieldValue::Double(feet_y));
        proof {
            lemma_parse_fields_step(layout, bytes@, at2 as int, f2);
        }
        let (z, at3) = match read_u64(bytes, at2) {
            Ok(found) => found,
            Err(e) => { return Err(e); },
        };
        let ghost f3 = f2.push(FieldValue::Double(z));
        proof {
            lemma_parse_fields_step(layout, bytes@, at3 as int, f3);
        }
        let (yaw, at4) = match read_u32(bytes, at3) {
            Ok(found) => found,
            Err(e) => { return Err(e); },
        };
        let ghost f4 = f3.push(FieldValue::Float(yaw));
        proof {
            lemma_parse_fields_step(layout, bytes@, at4 as int, f4);
        }
        let (pitch, at5) = match read_u32(bytes, at4) {
            Ok(found) => found,
            Err(e) => { return Err(e); },
        };
        let ghost f5 = f4.push(FieldValue::Float(pitch));
        proof {
            lemma_parse_fields_step(layout, bytes@, at5 as int, f5);
        }
        let (on_ground, at6) = match read_bool(bytes, at5) {
            Ok(found) => found,
            Err(e) => { return Err(e); },
        };
        let ghost f6 = f5.push(FieldValue::Boolean(on_ground));
        proof {
            lemma_parse_fields_step(layout, bytes@, at6 as int, f6);
        }
        let (username, at7) = match read_string(bytes, at6) {
            Ok(found) => found,
            Err(e) => { return Err(e); },
        };
        let ghost f7 = f6.push(FieldValue::Text(username@));
        proof {
            lemma_parse_fields_step(layout, bytes@, at7 as int, f7);
        }
        let (entity_id, at8) = match read_i32(bytes, at7) {
            Ok(found) => found,
            Err(e) => { return Err(e); },
        };
        let ghost f8 = f7.push(FieldValue::Int(entity_id));
        proof {
            lemma_parse_fields_step(layout, bytes@, at8 as int, f8);
        }
        Ok((BorderCrossLogin { x, feet_y, z, yaw, pitch, on_ground, username, entity_id }, at8))
    }

    /// Reads a packet of this kind from the fields of a frame.
    pub fn decode(body: &[u8]) -> (r: Result<Packet, DecodeError>)
        ensures
            same_packet(r, spec_decode_kind(PacketKind::BorderCrossLogin, body@)),
    {
        match BorderCrossLogin::read_fields(body, 0) {
            Ok((p, _)) => Ok(Packet::BorderCrossLogin(p)),
            Err(e) => Err(e),
        }
    }
}

impl Pong {
    /// Appends the wire forms of the fields. `false` comes back when a field
    /// does not fit its wire type; what `out` then holds is not said.
    pub fn write_fields(&self, out: &mut Vec<u8>) -> (done: bool)
        ensures
            done <==> conforms_all(self.fields(), layout(PacketKind::Pong)),
            done ==> final(out)@ == old(out)@ + encode_fields(self.fields()),
    {
        let ghost f0 = Seq::<FieldValue>::empty();
        put_i64(out, self.payload);
        let ghost f1 = f0.push(FieldValue::Long(self.payload));
        proof {
            lemma_encode_fields_push(f0, FieldValue::Long(self.payload));
        }
        assert(out@ =~= old(out)@ + encode_fields(f1));
        true
    }

    /// Reads the fields at `pos`.
    pub fn read_fields(bytes: &[u8], pos: usize) -> (r: Result<(Pong, usize), DecodeError>)
        ensures
            match r {
                Ok((p, next)) => parse_fields(
                    layout(PacketKind::Pong),
                    bytes@,
                    pos as int,
                    Seq::empty(),
                ) == Ok::<(Seq<FieldValue>, int), DecodeError>((p.fields(), next as int)),
                Err(e) => parse_fields(
                    layout(PacketKind::Pong),
                    bytes@,
                    pos as int,
                    Seq::empty(),
                ) == Err::<(Seq<FieldValue>, int), DecodeError>(e),
            },
    {
        let ghost layout = layout(PacketKind::Pong);
        let ghost f0 = Seq::<FieldValue>::empty();
        proof {
            lemma_parse_fields_step(layout, bytes@, pos as int, f0);
        }
        let (payload, at1) = match read_i64(bytes, pos) {
            Ok(found) => found,
            Err(e) => { return Err(e); },
        };
        let ghost f1 = f0.push(FieldValue::Long(payload));
        proof {
            lemma_parse_fields_step(layout, bytes@, at1 as int, f1);
        }
        Ok((Pong { payload }, at1))
    }

    /// Reads a packet of this kind from the fields of a frame.
    pub fn decode(body: &[u8]) -> (r: Result<Packet, DecodeError>)
        ensures
            same_packet(r, spec_decode_kind(PacketKind::Pong, body@)),
    {
        match Pong::read_fields(body, 0) {
            Ok((p, _)) => Ok(Packet::Pong(p)),
            Err(e) => Err(e),
        }
    }
}

impl StatusResponse {
    /// Appends the wire forms of the fields. `false` comes back when a field
    /// does not fit its wire type; what `out` then holds is not said.
    pub fn write_fields(&self, out: &mut Vec<u8>) -> (done: bool)
        ensures
            done <==> conforms_all(self.fields(), layout(PacketKind::StatusResponse)),
            done ==> final(out)@ == old(out)@ + encode_fields(self.fields()),
    {
        let ghost f0 = Seq::<FieldValue>::empty();
        if !put_string(out, &self.json_response) {
            assert(!conforms(self.fields()[0], layout(PacketKind::StatusResponse)[0]));
            return false;
        }
        let ghost f1 = f0.push(FieldValue::Text(self.json_response@));
        proof {
            lemma_encode_fields_push(f0, FieldValue::Text(self.json_response@));
        }
        assert(out@ =~= old(out)@ + encode_fields(f1));
        true
    }

    /// Reads the fields at `pos`.
    pub fn read_fields(bytes: &[u8], pos: usize) -> (r: Result<(StatusResponse, usize), DecodeError>)
        ensures
            match r {
                Ok((p, next)) => parse_fields(
                    layout(PacketKind::StatusResponse),
                    bytes@,
                    pos as int,
                    Seq::empty(),
                ) == Ok::<(Seq<FieldValue>, int), DecodeError>((p.fields(), next as int)),
                Err(e) => parse_fields(
                    layout(PacketKind::StatusResponse),
                    bytes@,
                    pos as int,
                    Seq::empty(),
                ) == Err::<(Seq<FieldValue>, int), DecodeError>(e),
            },
    {
        let ghost layout = layout(PacketKind::StatusResponse);
        let ghost f0 = Seq::<FieldValue>::empty();
        proof {
            lemma_parse_fields_step(layout, bytes@, pos as int, f0);
        }
        let (json_response, at1) = match read_string(bytes, pos) {
            Ok(found) => found,
            Err(e) => { return Err(e); },
        };
        let ghost f1 = f0.push(FieldValue::Text(json_response@));
        proof {
            lemma_parse_fields_step(layout, bytes@, at1 as int, f1);
        }
        Ok((StatusResponse { json_response }, at1))
    }

    /// Reads a packet of this kind from the fields of a frame.
    pub fn decode(body: &[u8]) -> (r: Result<Packet, DecodeError>)
        ensures
            same_packet(r, spec_decode_kind(PacketKind::StatusResponse, body@)),
    {
        match StatusResponse::read_fields(body, 0) {
            Ok((p, _)) => Ok(Packet::StatusResponse(p)),
            Err(e) => Err(e),
        }
    }
}

impl LoginSuccess {
    /// Appends the wire forms of the fields. `false` comes back when a field
    /// does not fit its wire type; what `out` then holds is not said.
    pub fn write_fields(&self, out: &mut Vec<u8>) -> (done: bool)
        ensures
            done <==> conforms_all(self.fields(), layout(PacketKind::LoginSuccess)),
            done ==> final(out)@ == old(out)@ + encode_fields(self.fields()),
    {
        let ghost f0 = Seq::<FieldValue>::empty();
        if !put_string(out, &self.uuid) {
            assert(!conforms(self.fields()[0], layout(PacketKind::LoginSuccess)[0]));
            return false;
        }
        let ghost f1 = f0.push(FieldValue::Text(self.uuid@));
        proof {
            lemma_encode_fields_push(f0, FieldValue::Text(self.uuid@));
        }
        if !put_string(out, &self.username) {
            assert(!conforms(self.fields()[1], layout(PacketKind::LoginSuccess)[1]));
            return false;
        }
        let ghost f2 = f1.push(FieldValue::Text(self.username@));
        proof {
            lemma_encode_fields_push(f1, FieldValue::Text(self.username@));
        }
        assert(out@ =~= old(out)@ + encode_fields(f2));
        true
    }

    /// Reads the fields at `pos`.
    pub fn read_fields(bytes: &[u8], pos: usize) -> (r: Result<(LoginSuccess, usize), DecodeError>)
        ensures
            match r {
                Ok((p, next)) => parse_fields(
                    layout(PacketKind::LoginSuccess),
                    bytes@,
                    pos as int,
                    Seq::empty(),
                ) == Ok::<(Seq<FieldValue>, int), DecodeError>((p.fields(), next as int)),
                Err(e) => parse_fields(
                    layout(PacketKind::LoginSuccess),
                    bytes@,
                    pos as int,
                    Seq::empty(),
                ) == Err::<(Seq<FieldValue>, int), DecodeError>(e),
            },
    {
        let ghost layout = layout(PacketKind::LoginSuccess);
        let ghost f0 = Seq::<FieldValue>::empty();
        proof {
            lemma_parse_fields_step(layout, bytes@, pos as int, f0);
        }
        let (uuid, at1) = match read_string(bytes, pos) {
            Ok(found) => found,
            Err(e) => { return Err(e); },
        };
        let ghost f1 = f0.push(FieldValue::Text(uuid@));
        proof {
            lemma_parse_fields_step(layout, bytes@, at1 as int, f1);
        }
        let (username, at2) = match read_string(bytes, at1) {
            Ok(found) => found,
            Err(e) => { return Err(e); },
        };
        let ghost f2 = f1.push(FieldValue::Text(username@));
        proof {
            lemma_parse_fields_step(layout, bytes@, at2 as int, f2);
        }
        Ok((LoginSuccess { uuid, username }, at2))
    }

    /// Reads a packet of this kind from the fields of a frame.
    pub fn decode(body: &[u8]) -> (r: Result<Packet, DecodeError>)
        ensures
            same_packet(r, spec_decode_kind(PacketKind::LoginSuccess, body@)),
    {
        match LoginSuccess::read_fields(body, 0) {
            Ok((p, _)) => Ok(Packet::LoginSuccess(p)),
            Err(e) => Err(e),
        }
    }
}

impl JoinGame {
    /// Appends the wire forms of the fields. `false` comes back when a field
    /// does not fit its wire type; what `out` then holds is not said.
    pub fn write_fields(&self, out: &mut Vec<u8>) -> (done: bool)
        ensures
            done <==> conforms_all(self.fields(), layout(PacketKind::JoinGame)),
            done ==> final(out)@ == old(out)@ + encode_fields(self.fields()),
    {
        let ghost f0 = Seq::<FieldValue>::empty();
        put_i32(out, self.entity_id);
        let ghost f1 = f0.push(FieldValue::Int(self.entity_id));
        proof {
            lemma_encode_fields_push(f0, FieldValue::Int(self.entity_id));
        }
        put_u8(out, self.gamemode);
        let ghost f2 = f1.push(FieldValue::UByte(self.gamemode));
        proof {
            lemma_encode_fields_push(f1, FieldValue::UByte(self.gamemode));
        }
        put_i32(out, self.dimension);
        let ghost f3 = f2.push(FieldValue::Int(self.dimension));
        proof {
            lemma_encode_fields_push(f2, FieldValue::Int(self.dimension));
        }
        put_u8(out, self.difficulty);
        let ghost f4 = f3.push(FieldValue::UByte(self.difficulty));
        proof {
            lemma_encode_fields_push(f3, FieldValue::UByte(self.difficulty));
        }
        put_u8(out, self.max_players);
        let ghost f5 = f4.push(FieldValue::UByte(self.max_players));
        proof {
            lemma_encode_fields_push(f4, FieldValue::UByte(self.max_players));
        }
        if !put_string(out, &self.level_type) {
            assert(!conforms(self.fields()[5], layout(PacketKind::JoinGame)[5]));
            return false;
        }
        let ghost f6 = f5.push(FieldValue::Text(self.level_type@));
        proof {
            lemma_encode_fields_push(f5, FieldValue::Text(self.level_type@));
        }
        put_bool(out, self.reduced_debug_info);
        let ghost f7 = f6.push(FieldValue::Boolean(self.reduced_debug_info));
        proof {
            lemma_encode_fields_push(f6, FieldValue::Boolean(self.reduced_debug_info));
        }
        assert(out@ =~= old(out)@ + encode_fields(f7));
        true
    }

    /// Reads the fields at `pos`.
    pub fn read_fields(bytes: &[u8], pos: usize) -> (r: Result<(JoinGame, usize), DecodeError>)
        ensures
            match r {
                Ok((p, next)) => parse_fields(
                    layout(PacketKind::JoinGame),
                    bytes@,
                    pos as int,
                    Seq::empty(),
                ) == Ok::<(Seq<FieldValue>, int), DecodeError>((p.fields(), next as int)),
                Err(e) => parse_fields(
                    layout(PacketKind::JoinGame),
                    bytes@,
                    pos as int,
                    Seq::empty(),
                ) == Err::<(Seq<FieldValue>, int), DecodeError>(e),
            },
    {
        let ghost layout = layout(PacketKind::JoinGame);
        let ghost f0 = Seq::<FieldValue>::empty();
        proof {
            lemma_parse_fields_step(layout, bytes@, pos as int, f0);
        }
        let (entity_id, at1) = match read_i32(bytes, pos) {
            Ok(found) => found,
            Err(e) => { return Err(e); },
        };
        let ghost f1 = f0.push(FieldValue::Int(entity_id));
        proof {
            lemma_parse_fields_step(layout, bytes@, at1 as int, f1);
        }
        let (gamemode, at2) = match read_u8(bytes, at1) {
            Ok(found) => found,
            Err(e) => { return Err(e); },
        };
        let ghost f2 = f1.push(FieldValue::UByte(gamemode));
        proof {
            lemma_parse_fields_step(layout, bytes@, at2 as int, f2);
        }
        let (dimension, at3) = match read_i32(bytes, at2) {
            Ok(found) => found,
            Err(e) => { return Err(e); },
        };
        let ghost f3 = f2.push(FieldValue::Int(dimension));
        proof {
            lemma_parse_fields_step(layout, bytes@, at3 as int, f3);
        }
        let (difficulty, at4) = match read_u8(bytes, at3) {
            Ok(found) => found,
            Err(e) => { return Err(e); },
        };
        let ghost f4 = f3.push(FieldValue::UByte(difficulty));
        proof {
            lemma_parse_fields_step(layout, bytes@, at4 as int, f4);
        }
        let (max_players, at5) = match read_u8(bytes, at4) {
            Ok(found) => found,
            Err(e) => { return Err(e); },
        };
        let ghost f5 = f4.push(FieldValue::UByte(max_players));
        proof {
            lemma_parse_fields_step(layout, bytes@, at5 as int, f5);
        }
        let (level_type, at6) = match read_string(bytes, at5) {
            Ok(found) => found,
            Err(e) => { return Err(e); },
        };
        let ghost f6 = f5.push(FieldValue::Text(level_type@));
        proof {
            lemma_parse_fields_step(layout, bytes@, at6 as int, f6);
        }
        let (reduced_debug_info, at7) = match read_bool(bytes, at6) {
            Ok(found) => found,
            Err(e) => { return Err(e); },
        };
        let ghost f7 = f6.push(FieldValue::Boolean(reduced_debug_info));
        proof {
            lemma_parse_fields_step(layout, bytes@, at7 as int, f7);
        }
        Ok((
            JoinGame {
                entity_id,
                gamemode,
                dimension,
                difficulty,
                max_players,
                level_type,
                reduced_debug_info,
            },
            at7,
        ))
    }

    /// Reads a packet of this kind from the fields of a frame.
    pub fn decode(body: &[u8]) -> (r: Result<Packet, DecodeError>)
        ensures
            same_packet(r, spec_decode_kind(PacketKind::JoinGame, body@)),
    {
        match JoinGame::read_fields(body, 0) {
            Ok((p, _)) => Ok(Packet::JoinGame(p)),
            Err(e) => Err(e),
        }
    }
}

impl ClientboundPlayerPositionAndLook {
    /// Appends the wire forms of the fields. `false` comes back when a field
    /// does not fit its wire type; what `out` then holds is not said.
    pub fn write_fields(&self, out: &mut Vec<u8>) -> (done: bool)
        ensures
            done <==> conforms_all(self.fields(), layout(PacketKind::ClientboundPlayerPositionAndLook)),
            done ==> final(out)@ == old(out)@ + encode_fields(self.fields()),
    {
        let ghost f0 = Seq::<FieldValue>::empty();
        put_u64(out, self.x);
        let ghost f1 = f0.push(FieldValue::Double(self.x));
        proof {
            lemma_encode_fields_push(f0, FieldValue::Double(self.x));
        }
        put_u64(out, self.y);
        let ghost f2 = f1.push(FieldValue::Double(self.y));
        proof {
            lemma_encode_fields_push(f1, FieldValue::Double(self.y));
        }
        put_u64(out, self.z);
        let ghost f3 = f2.push(FieldValue::Double(self.z));
        proof {
            lemma_encode_fields_push(f2, FieldValue::Double(self.z));
        }
        put_u32(out, self.yaw);
        let ghost f4 = f3.push(FieldValue::Float(self.yaw));
        proof {
            lemma_encode_fields_push(f3, FieldValue::Float(self.yaw));
        }
        put_u32(out, self.pitch);
        let ghost f5 = f4.push(FieldValue::Float(self.pitch));
        proof {
            lemma_encode_fields_push(f4, FieldValue::Float(self.pitch));
        }
        put_i8(out, self.flags);
        let ghost f6 = f5.push(FieldValue::Byte(self.flags));
        proof {
            lemma_encode_fields_push(f5, FieldValue::Byte(self.flags));
        }
        put_varint(out, self.teleport_id);
        let ghost f7 = f6.push(FieldValue::VarInt(self.teleport_id));
        proof {
            lemma_encode_fields_push(f6, FieldValue::VarInt(self.teleport_id));
        }
        assert(out@ =~= old(out)@ + encode_fields(f7));
        true
    }

    /// Reads the fields at `pos`.
    pub fn read_fields(bytes: &[u8], pos: usize) -> (r: Result<(ClientboundPlayerPositionAndLook, usize), DecodeError>)
        ensures
            match r {
                Ok((p, next)) => parse_fields(
                    layout(PacketKind::ClientboundPlayerPositionAndLook),
                    bytes@,
                    pos as int,
                    Seq::empty(),
                ) == Ok::<(Seq<FieldValue>, int), DecodeError>((p.fields(), next as int)),
                Err(e) => parse_fields(
                    layout(PacketKind::ClientboundPlayerPositionAndLook),
                    bytes@,
                    pos as int,
                    Seq::empty(),
                ) == Err::<(Seq<FieldValue>, int), DecodeError>(e),
            },
    {
        let ghost layout = layout(PacketKind::ClientboundPlayerPositionAndLook);
        let ghost f0 = Seq::<FieldValue>::empty();
        proof {
            lemma_parse_fields_step(layout, bytes@, pos as int, f0);
        }
        let (x, at1) = match read_u64(bytes, pos) {
            Ok(found) => found,
            Err(e) => { return Err(e); },
        };
        let ghost f1 = f0.push(FieldValue::Double(x));
        proof {
            lemma_parse_fields_step(layout, bytes@, at1 as int, f1);
        }
        let (y, at2) = match read_u64(bytes, at1) {
            Ok(found) => found,
            Err(e) => { return Err(e); },
        };
        let ghost f2 = f1.push(FieldValue::Double(y));
        proof {
            lemma_parse_fields_step(layout, bytes@, at2 as int, f2);
        }
        let (z, at3) = match read_u64(bytes, at2) {
            Ok(found) => found,
            Err(e) => { return Err(e); },
        };
        let ghost f3 = f2.push(FieldValue::Double(z));
        proof {
            lemma_parse_fields_step(layout, bytes@, at3 as int, f3);
        }
        let (yaw, at4) = match read_u32(bytes, at3) {
            Ok(found) => found,
            Err(e) => { return Err(e); },
        };
        let ghost f4 = f3.push(FieldValue::Float(yaw));
        proof {
            lemma_parse_fields_step(layout, bytes@, at4 as int, f4);
        }
        let (pitch, at5) = match read_u32(bytes, at4) {
            Ok(found) => found,
            Err(e) => { return Err(e); },
        };
        let ghost f5 = f4.push(FieldValue::Float(pitch));
        proof {
            lemma_parse_fields_step(layout, bytes@, at5 as int, f5);
        }
        let (flags, at6) = match read_i8(bytes, at5) {
            Ok(found) => found,
            Err(e) => { return Err(e); },
        };
        let ghost f6 = f5.push(FieldValue::Byte(flags));
        proof {
            lemma_parse_fields_step(layout, bytes@, at6 as int, f6);
        }
        let (teleport_id, at7) = match read_varint(bytes, at6) {
            Ok(found) => found,
            Err(e) => { return Err(e); },
        };
        let ghost f7 = f6.push(FieldValue::VarInt(teleport_id));
        proof {
            lemma_parse_fields_step(layout, bytes@, at7 as int, f7);
        }
        Ok((ClientboundPlayerPositionAndLook { x, y, z, yaw, pitch, flags, teleport_id }, at7))
    }

    /// Reads a packet of this kind from the fields of a frame.
    pub fn decode(body: &[u8]) -> (r: Result<Packet, DecodeError>)
        ensures
            same_packet(r, spec_decode_kind(PacketKind::ClientboundPlayerPositionAndLook, body@)),
    {
        match ClientboundPlayerPositionAndLook::read_fields(body, 0) {
            Ok((p, _)) => Ok(Packet::ClientboundPlayerPositionAndLook(p)),
            Err(e) => Err(e),
        }
    }
}

impl ChunkData {
    /// Appends the wire forms of the fields. `false` comes back when a field
    /// does not fit its wire type; what `out` then holds is not said.
    pub fn write_fields(&self, out: &mut Vec<u8>) -> (done: bool)
        ensures
            done <==> conforms_all(self.fields(), layout(PacketKind::ChunkData)),
            done ==> final(out)@ == old(out)@ + encode_fields(self.fields()),
    {
        let ghost f0 = Seq::<FieldValue>::empty();
        put_i32(out, self.chunk_x);
        let ghost f1 = f0.push(FieldValue::Int(self.chunk_x));
        proof {
            lemma_encode_fields_push(f0, FieldValue::Int(self.chunk_x));
        }
        put_i32(out, self.chunk_z);
        let ghost f2 = f1.push(FieldValue::Int(self.chunk_z));
        proof {
            lemma_encode_fields_push(f1, FieldValue::Int(self.chunk_z));
        }
        put_bool(out, self.full_chunk);
        let ghost f3 = f2.push(FieldValue::Boolean(self.full_chunk));
        proof {
            lemma_encode_fields_push(f2, FieldValue::Boolean(self.full_chunk));
        }
        put_varint(out, self.primary_bit_mask);
        let ghost f4 = f3.push(FieldValue::VarInt(self.primary_bit_mask));
        proof {
            lemma_encode_fields_push(f3, FieldValue::VarInt(self.primary_bit_mask));
        }
        put_varint(out, self.size);
        let ghost f5 = f4.push(FieldValue::VarInt(self.size));
        proof {
            lemma_encode_fields_push(f4, FieldValue::VarInt(self.size));
        }
        if !self.data.write(out) {
            assert(!conforms(self.fields()[5], layout(PacketKind::ChunkData)[5]));
            return false;
        }
        let ghost f6 = f5.push(FieldValue::Section(self.data@));
        proof {
            lemma_encode_fields_push(f5, FieldValue::Section(self.data@));
        }
        if self.biomes.len() != BIOME_COUNT {
            assert(!conforms(self.fields()[6], layout(PacketKind::ChunkData)[6]));
            return false;
        }
        put_int_run(out, &self.biomes);
        let ghost f7 = f6.push(FieldValue::IntArray(self.biomes@));
        proof {
            lemma_encode_fields_push(f6, FieldValue::IntArray(self.biomes@));
        }
        put_varint(out, self.number_of_block_entities);
        let ghost f8 = f7.push(FieldValue::VarInt(self.number_of_block_entities));
        proof {
            lemma_encode_fields_push(f7, FieldValue::VarInt(self.number_of_block_entities));
        }
        assert(out@ =~= old(out)@ + encode_fields(f8));
        true
    }

    /// Reads the fields at `pos`.
    pub fn read_fields(bytes: &[u8], pos: usize) -> (r: Result<(ChunkData, usize), DecodeError>)
        ensures
            match r {
                Ok((p, next)) => parse_fields(
                    layout(PacketKind::ChunkData),
                    bytes@,
                    pos as int,
                    Seq::empty(),
                ) == Ok::<(Seq<FieldValue>, int), DecodeError>((p.fields(), next as int)),
                Err(e) => parse_fields(
                    layout(PacketKind::ChunkData),
                    bytes@,
                    pos as int,
                    Seq::empty(),
                ) == Err::<(Seq<FieldValue>, int), DecodeError>(e),
            },
    {
        let ghost layout = layout(PacketKind::ChunkData);
        let ghost f0 = Seq::<FieldValue>::empty();
        proof {
            lemma_parse_fields_step(layout, bytes@, pos as int, f0);
        }
        let (chunk_x, at1) = match read_i32(bytes, pos) {
            Ok(found) => found,
            Err(e) => { return Err(e); },
        };
        let ghost f1 = f0.push(FieldValue::Int(chunk_x));
        proof {
            lemma_parse_fields_step(layout, bytes@, at1 as int, f1);
        }
        let (chunk_z, at2) = match read_i32(bytes, at1) {
            Ok(found) => found,
            Err(e) => { return Err(e); },
        };
        let ghost f2 = f1.push(FieldValue::Int(chunk_z));
        proof {
            lemma_parse_fields_step(layout, bytes@, at2 as int, f2);
        }
        let (full_chunk, at3) = match read_bool(bytes, at2) {
            Ok(found) => found,
            Err(e) => { return Err(e); },
        };
        let ghost f3 = f2.push(FieldValue::Boolean(full_chunk));
        proof {
            lemma_parse_fields_step(layout, bytes@, at3 as int, f3);
        }
        let (primary_bit_mask, at4) = match read_varint(bytes, at3) {
            Ok(found) => found,
            Err(e) => { return Err(e); },
        };
        let ghost f4 = f3.push(FieldValue::VarInt(primary_bit_mask));
        proof {
            lemma_parse_fields_step(layout, bytes@, at4 as int, f4);
        }
        let (size, at5) = match read_varint(bytes, at4) {
            Ok(found) => found,
            Err(e) => { return Err(e); },
        };
        let ghost f5 = f4.push(FieldValue::VarInt(size));
        proof {
            lemma_parse_fields_step(layout, bytes@, at5 as int, f5);
        }
        let (data, at6) = match ChunkSection::read(bytes, at5) {
            Ok(found) => found,
            Err(e) => { return Err(e); },
        };
        let ghost f6 = f5.push(FieldValue::Section(data@));
        proof {
            lemma_parse_fields_step(layout, bytes@, at6 as int, f6);
        }
        let (biomes, at7) = match read_int_run(bytes, at6, BIOME_COUNT) {
            Ok(found) => found,
            Err(e) => { return Err(e); },
        };
        let ghost f7 = f6.push(FieldValue::IntArray(biomes@));
        proof {
            lemma_parse_fields_step(layout, bytes@, at7 as int, f7);
        }
        let (number_of_block_entities, at8) = match read_varint(bytes, at7) {
            Ok(found) => found,
            Err(e) => { return Err(e); },
        };
        let ghost f8 = f7.push(FieldValue::VarInt(number_of_block_entities));
        proof {
            lemma_parse_fields_step(layout, bytes@, at8 as int, f8);
        }
        Ok((
            ChunkData {
                chunk_x,
                chunk_z,
                full_chunk,
                primary_bit_mask,
                size,
                data,
                biomes,
                number_of_block_entities,
            },
            at8,
        ))
    }

    /// Reads a packet of this kind from the fields of a frame.
    pub fn decode(body: &[u8]) -> (r: Result<Packet, DecodeError>)
        ensures
            same_packet(r, spec_decode_kind(PacketKind::ChunkData, body@)),
    {
        match ChunkData::read_fields(body, 0) {
            Ok((p, _)) => Ok(Packet::ChunkData(p)),
            Err(e) => Err(e),
        }
    }
}

impl PlayerInfo {
    /// Appends the wire forms of the fields. `false` comes back when a field
    /// does not fit its wire type; what `out` then holds is not said.
    pub fn write_fields(&self, out: &mut Vec<u8>) -> (done: bool)
        ensures
            done <==> conforms_all(self.fields(), layout(PacketKind::PlayerInfo)),
            done ==> final(out)@ == old(out)@ + encode_fields(self.fields()),
    {
        let ghost f0 = Seq::<FieldValue>::empty();
        put_varint(out, self.action);
        let ghost f1 = f0.push(FieldValue::VarInt(self.action));
        proof {
            lemma_encode_fields_push(f0, FieldValue::VarInt(self.action));
        }
        put_varint(out, self.number_of_players);
        let ghost f2 = f1.push(FieldValue::VarInt(self.number_of_players));
        proof {
            lemma_encode_fields_push(f1, FieldValue::VarInt(self.number_of_players));
        }
        put_u128(out, self.uuid);
        let ghost f3 = f2.push(FieldValue::Uuid(self.uuid));
        proof {
            lemma_encode_fields_push(f2, FieldValue::Uuid(self.uuid));
        }
        if !put_string(out, &self.name) {
            assert(!conforms(self.fields()[3], layout(PacketKind::PlayerInfo)[3]));
            return false;
        }
        let ghost f4 = f3.push(FieldValue::Text(self.name@));
        proof {
            lemma_encode_fields_push(f3, FieldValue::Text(self.name@));
        }
        put_varint(out, self.number_of_properties);
        let ghost f5 = f4.push(FieldValue::VarInt(self.number_of_properties));
        proof {
            lemma_encode_fields_push(f4, FieldValue::VarInt(self.number_of_properties));
        }
        put_varint(out, self.gamemode);
        let ghost f6 = f5.push(FieldValue::VarInt(self.gamemode));
        proof {
            lemma_encode_fields_push(f5, FieldValue::VarInt(self.gamemode));
        }
        put_varint(out, self.ping);
        let ghost f7 = f6.push(FieldValue::VarInt(self.ping));
        proof {
            lemma_encode_fields_push(f6, FieldValue::VarInt(self.ping));
        }
        put_bool(out, self.has_display_name);
        let ghost f8 = f7.push(FieldValue::Boolean(self.has_display_name));
        proof {
            lemma_encode_fields_push(f7, FieldValue::Boolean(self.has_display_name));
        }
        assert(out@ =~= old(out)@ + encode_fields(f8));
        true
    }

    /// Reads the fields at `pos`.
    pub fn read_fields(bytes: &[u8], pos: usize) -> (r: Result<(PlayerInfo, usize), DecodeError>)
        ensures
            match r {
                Ok((p, next)) => parse_fields(
                    layout(PacketKind::PlayerInfo),
                    bytes@,
                    pos as int,
                    Seq::empty(),
                ) == Ok::<(Seq<FieldValue>, int), DecodeError>((p.fields(), next as int)),
                Err(e) => parse_fields(
                    layout(PacketKind::PlayerInfo),
                    bytes@,
                    pos as int,
                    Seq::empty(),
                ) == Err::<(Seq<FieldValue>, int), DecodeError>(e),
            },
    {
        let ghost layout = layout(PacketKind::PlayerInfo);
        let ghost f0 = Seq::<FieldValue>::empty();
        proof {
            lemma_parse_fields_step(layout, bytes@, pos as int, f0);
        }
        let (action, at1) = match read_varint(bytes, pos) {
            Ok(found) => found,
            Err(e) => { return Err(e); },
        };
        let ghost f1 = f0.push(FieldValue::VarInt(action));
        proof {
            lemma_parse_fields_step(layout, bytes@, at1 as int, f1);
        }
        let (number_of_players, at2) = match read_varint(bytes, at1) {
            Ok(found) => found,
            Err(e) => { return Err(e); },
        };
        let ghost f2 = f1.push(FieldValue::VarInt(number_of_players));
        proof {
            lemma_parse_fields_step(layout, bytes@, at2 as int, f2);
        }
        let (uuid, at3) = match read_u128(bytes, at2) {
            Ok(found) => found,
            Err(e) => { return Err(e); },
        };
        let ghost f3 = f2.push(FieldValue::Uuid(uuid));
        proof {
            lemma_parse_fields_step(layout, bytes@, at3 as int, f3);
        }
        let (name, at4) = match read_string(bytes, at3) {
            Ok(found) => found,
            Err(e) => { return Err(e); },
        };
        let ghost f4 = f3.push(FieldValue::Text(name@));
        proof {
            lemma_parse_fields_step(layout, bytes@, at4 as int, f4);
        }
        let (number_of_properties, at5) = match read_varint(bytes, at4) {
            Ok(found) => found,
            Err(e) => { return Err(e); },
        };
        let ghost f5 = f4.push(FieldValue::VarInt(number_of_properties));
        proof {
            lemma_parse_fields_step(layout, bytes@, at5 as int, f5);
        }
        let (gamemode, at6) = match read_varint(bytes, at5) {
            Ok(found) => found,
            Err(e) => { return Err(e); },
        };
        let ghost f6 = f5.push(FieldValue::VarInt(gamemode));
        proof {
            lemma_parse_fields_step(layout, bytes@, at6 as int, f6);
        }
        let (ping, at7) = match read_varint(bytes, at6) {
            Ok(found) => found,
            Err(e) => { return Err(e); },
        };
        let ghost f7 = f6.push(FieldValue::VarInt(ping));
        proof {
            lemma_parse_fields_step(layout, bytes@, at7 as int, f7);
        }
        let (has_display_name, at8) = match read_bool(bytes, at7) {
            Ok(found) => found,
            Err(e) => { return Err(e); },
        };
        let ghost f8 = f7.push(FieldValue::Boolean(has_display_name));
        proof {
            lemma_parse_fields_step(layout, bytes@, at8 as int, f8);
        }
        Ok((
            PlayerInfo {
                action,
                number_of_players,
                uuid,
                name,
                number_of_properties,
                gamemode,
                ping,
                has_display_name,
            },
            at8,
        ))
    }

    /// Reads a packet of this kind from the fields of a frame.
    pub fn decode(body: &[u8]) -> (r: Result<Packet, DecodeError>)
        ensures
            same_packet(r, spec_decode_kind(PacketKind::PlayerInfo, body@)),
    {
        match PlayerInfo::read_fields(body, 0) {
            Ok((p, _)) => Ok(Packet::PlayerInfo(p)),
            Err(e) => Err(e),
        }
    }
}

impl SpawnPlayer {
    /// Appends the wire forms of the fields. `false` comes back when a field
    /// does not fit its wire type; what `out` then holds is not said.
    pub fn write_fields(&self, out: &mut Vec<u8>) -> (done: bool)
        ensures
            done <==> conforms_all(self.fields(), layout(PacketKind::SpawnPlayer)),
            done ==> final(out)@ == old(out)@ + encode_fields(self.fields()),
    {
        let ghost f0 = Seq::<FieldValue>::empty();
        put_varint(out, self.entity_id);
        let ghost f1 = f0.push(FieldValue::VarInt(self.entity_id));
        proof {
            lemma_encode_fields_push(f0, FieldValue::VarInt(self.entity_id));
        }
        put_u128(out, self.uuid);
        let ghost f2 = f1.push(FieldValue::Uuid(self.uuid));
        proof {
            lemma_encode_fields_push(f1, FieldValue::Uuid(self.uuid));
        }
        put_u64(out, self.x);
        let ghost f3 = f2.push(FieldValue::Double(self.x));
        proof {
            lemma_encode_fields_push(f2, FieldValue::Double(self.x));
        }
        put_u64(out, self.y);
        let ghost f4 = f3.push(FieldValue::Double(self.y));
        proof {
            lemma_encode_fields_push(f3, FieldValue::Double(self.y));
        }
        put_u64(out, self.z);
        let ghost f5 = f4.push(FieldValue::Double(self.z));
        proof {
            lemma_encode_fields_push(f4, FieldValue::Double(self.z));
        }
        put_u8(out, self.yaw);
        let ghost f6 = f5.push(FieldValue::UByte(self.yaw));
        proof {
            lemma_encode_fields_push(f5, FieldValue::UByte(self.yaw));
        }
        put_u8(out, self.pitch);
        let ghost f7 = f6.push(FieldValue::UByte(self.pitch));
        proof {
            lemma_encode_fields_push(f6, FieldValue::UByte(self.pitch));
        }
        put_u8(out, self.entity_metadata_terminator);
        let ghost f8 = f7.push(FieldValue::UByte(self.entity_metadata_terminator));
        proof {
            lemma_encode_fields_push(f7, FieldValue::UByte(self.entity_metadata_terminator));
        }
        assert(out@ =~= old(out)@ + encode_fields(f8));
        true
    }

    /// Reads the fields at `pos`.
    pub fn read_fields(bytes: &[u8], pos: usize) -> (r: Result<(SpawnPlayer, usize), DecodeError>)
        ensures
            match r {
                Ok((p, next)) => parse_fields(
                    layout(PacketKind::SpawnPlayer),
                    bytes@,
                    pos as int,
                    Seq::empty(),
                ) == Ok::<(Seq<FieldValue>, int), DecodeError>((p.fields(), next as int)),
                Err(e) => parse_fields(
                    layout(PacketKind::SpawnPlayer),
                    bytes@,
                    pos as int,
                    Seq::empty(),
                ) == Err::<(Seq<FieldValue>, int), DecodeError>(e),
            },
    {
        let ghost layout = layout(PacketKind::SpawnPlayer);
        let ghost f0 = Seq::<FieldValue>::empty();
        proof {
            lemma_parse_fields_step(layout, bytes@, pos as int, f0);
        }
        let (entity_id, at1) = match read_varint(bytes, pos) {
            Ok(found) => found,
            Err(e) => { return Err(e); },
        };
        let ghost f1 = f0.push(FieldValue::VarInt(entity_id));
        proof {
            lemma_parse_fields_step(layout, bytes@, at1 as int, f1);
        }
        let (uuid, at2) = match read_u128(bytes, at1) {
            Ok(found) => found,
            Err(e) => { return Err(e); },
        };
        let ghost f2 = f1.push(FieldValue::Uuid(uuid));
        proof {
            lemma_parse_fields_step(layout, bytes@, at2 as int, f2);
        }
        let (x, at3) = match read_u64(bytes, at2) {
            Ok(found) => found,
            Err(e) => { return Err(e); },
        };
        let ghost f3 = f2.push(FieldValue::Double(x));
        proof {
            lemma_parse_fields_step(layout, bytes@, at3 as int, f3);
        }
        let (y, at4) = match read_u64(bytes, at3) {
            Ok(found) => found,
            Err(e) => { return Err(e); },
        };
        let ghost f4 = f3.push(FieldValue::Double(y));
        proof {
            lemma_parse_fields_step(layout, bytes@, at4 as int, f4);
        }
        let (z, at5) = match read_u64(bytes, at4) {
            Ok(found) => found,
            Err(e) => { return Err(e); },
        };
        let ghost f5 = f4.push(FieldValue::Double(z));
        proof {
            lemma_parse_fields_step(layout, bytes@, at5 as int, f5);
        }
        let (yaw, at6) = match read_u8(bytes, at5) {
            Ok(found) => found,
            Err(e) => { return Err(e); },
        };
        let ghost f6 = f5.push(FieldValue::UByte(yaw));
        proof {
            lemma_parse_fields_step(layout, bytes@, at6 as int, f6);
        }
        let (pitch, at7) = match read_u8(bytes, at6) {
            Ok(found) => found,
            Err(e) => { return Err(e); },
        };
        let ghost f7 = f6.push(FieldValue::UByte(pitch));
        proof {
            lemma_parse_fields_step(layout, bytes@, at7 as int, f7);
        }
        let (entity_metadata_terminator, at8) = match read_u8(bytes, at7) {
            Ok(found) => found,
            Err(e) => { return Err(e); },
        };
        let ghost f8 = f7.push(FieldValue::UByte(entity_metadata_terminator));
        proof {
            lemma_parse_fields_step(layout, bytes@, at8 as int, f8);
        }
        Ok((SpawnPlayer { entity_id, uuid, x, y, z, yaw, pitch, entity_metadata_terminator }, at8))
    }

    /// Reads a packet of this kind from the fields of a frame.
    pub fn decode(body: &[u8]) -> (r: Result<Packet, DecodeError>)
        ensures
            same_packet(r, spec_decode_kind(PacketKind::SpawnPlayer, body@)),
    {
        match SpawnPlayer::read_fields(body, 0) {
            Ok((p, _)) => Ok(Packet::SpawnPlayer(p)),
            Err(e) => Err(e),
        }
    }
}

impl EntityHeadLook {
    /// Appends the wire forms of the fields. `false` comes back when a field
    /// does not fit its wire type; what `out` then holds is not said.
    pub fn write_fields(&self, out: &mut Vec<u8>) -> (done: bool)
        ensures
            done <==> conforms_all(self.fields(), layout(PacketKind::EntityHeadLook)),
            done ==> final(out)@ == old(out)@ + encode_fields(self.fields()),
    {
        let ghost f0 = Seq::<FieldValue>::empty();
        put_varint(out, self.entity_id);
        let ghost f1 = f0.push(FieldValue::VarInt(self.entity_id));
        proof {
            lemma_encode_fields_push(f0, FieldValue::VarInt(self.entity_id));
        }
        put_u8(out, self.angle);
        let ghost f2 = f1.push(FieldValue::UByte(self.angle));
        proof {
            lemma_encode_fields_push(f1, FieldValue::UByte(self.angle));
        }
        assert(out@ =~= old(out)@ + encode_fields(f2));
        true
    }

    /// Reads the fields at `pos`.
    pub fn read_fields(bytes: &[u8], pos: usize) -> (r: Result<(EntityHeadLook, usize), DecodeError>)
        ensures
            match r {
                Ok((p, next)) => parse_fields(
                    layout(PacketKind::EntityHeadLook),
                    bytes@,
                    pos as int,
                    Seq::empty(),
                ) == Ok::<(Seq<FieldValue>, int), DecodeError>((p.fields(), next as int)),
                Err(e) => parse_fields(
                    layout(PacketKind::EntityHeadLook),
                    bytes@,
                    pos as int,
                    Seq::empty(),
                ) == Err::<(Seq<FieldValue>, int), DecodeError>(e),
            },
    {
        let ghost layout = layout(PacketKind::EntityHeadLook);
        let ghost f0 = Seq::<FieldValue>::empty();
        proof {
            lemma_parse_fields_step(layout, bytes@, pos as int, f0);
        }
        let (entity_id, at1) = match read_varint(bytes, pos) {
            Ok(found) => found,
            Err(e) => { return Err(e); },
        };
        let ghost f1 = f0.push(FieldValue::VarInt(entity_id));
        proof {
            lemma_parse_fields_step(layout, bytes@, at1 as int, f1);
        }
        let (angle, at2) = match read_u8(bytes, at1) {
            Ok(found) => found,
            Err(e) => { return Err(e); },
        };
        let ghost f2 = f1.push(FieldValue::UByte(angle));
        proof {
            lemma_parse_fields_step(layout, bytes@, at2 as int, f2);
        }
        Ok((EntityHeadLook { entity_id, angle }, at2))
    }

    /// Reads a packet of this kind from the fields of a frame.
    pub fn decode(body: &[u8]) -> (r: Result<Packet, DecodeError>)
        ensures
            same_packet(r, spec_decode_kind(PacketKind::EntityHeadLook, body@)),
    {
        match EntityHeadLook::read_fields(body, 0) {
            Ok((p, _)) => Ok(Packet::EntityHeadLook(p)),
            Err(e) => Err(e),
        }
    }
}

impl DestroyEntities {
    /// Appends the wire forms of the fields. `false` comes back when a field
    /// does not fit its wire type; what `out` then holds is not said.
    pub fn write_fields(&self, out: &mut Vec<u8>) -> (done: bool)
        ensures
            done <==> conforms_all(self.fields(), layout(PacketKind::DestroyEntities)),
            done ==> final(out)@ == old(out)@ + encode_fields(self.fields()),
    {
        let ghost f0 = Seq::<FieldValue>::empty();
        if !put_varint_array(out, &self.entity_ids) {
            assert(!conforms(self.fields()[0], layout(PacketKind::DestroyEntities)[0]));
            return false;
        }
        let ghost f1 = f0.push(FieldValue::VarIntArray(self.entity_ids@));
        proof {
            lemma_encode_fields_push(f0, FieldValue::VarIntArray(self.entity_ids@));
        }
        assert(out@ =~= old(out)@ + encode_fields(f1));
        true
    }

    /// Reads the fields at `pos`.
    pub fn read_fields(bytes: &[u8], pos: usize) -> (r: Result<(DestroyEntities, usize), DecodeError>)
        ensures
            match r {
                Ok((p, next)) => parse_fields(
                    layout(PacketKind::DestroyEntities),
                    bytes@,
                    pos as int,
                    Seq::empty(),
                ) == Ok::<(Seq<FieldValue>, int), DecodeError>((p.fields(), next as int)),
                Err(e) => parse_fields(
                    layout(PacketKind::DestroyEntities),
                    bytes@,
                    pos as int,
                    Seq::empty(),
                ) == Err::<(Seq<FieldValue>, int), DecodeError>(e),
            },
    {
        let ghost layout = layout(PacketKind::DestroyEntities);
        let ghost f0 = Seq::<FieldValue>::empty();
        proof {
            lemma_parse_fields_step(layout, bytes@, pos as int, f0);
        }
        let (entity_ids, at1) = match read_varint_array(bytes, pos) {
            Ok(found) => found,
            Err(e) => { return Err(e); },
        };
        let ghost f1 = f0.push(FieldValue::VarIntArray(entity_ids@));
        proof {
            lemma_parse_fields_step(layout, bytes@, at1 as int, f1);
        }
        Ok((DestroyEntities { entity_ids }, at1))
    }

    /// Reads a packet of this kind from the fields of a frame.
    pub fn decode(body: &[u8]) -> (r: Result<Packet, DecodeError>)
        ensures
            same_packet(r, spec_decode_kind(PacketKind::DestroyEntities, body@)),
    {
        match DestroyEntities::read_fields(body, 0) {
            Ok((p, _)) => Ok(Packet::DestroyEntities(p)),
            Err(e) => Err(e),
        }
    }
}

impl EntityLookAndMove {
    /// Appends the wire forms of the fields. `false` comes back when a field
    /// does not fit its wire type; what `out` then holds is not said.
    pub fn write_fields(&self, out: &mut Vec<u8>) -> (done: bool)
        ensures
            done <==> conforms_all(self.fields(), layout(PacketKind::EntityLookAndMove)),
            done ==> final(out)@ == old(out)@ + encode_fields(self.fields()),
    {
        let ghost f0 = Seq::<FieldValue>::empty();
        put_varint(out, self.entity_id);
        let ghost f1 = f0.push(FieldValue::VarInt(self.entity_id));
        proof {
            lemma_encode_fields_push(f0, FieldValue::VarInt(self.entity_id));
        }
        put_i16(out, self.delta_x);
        let ghost f2 = f1.push(FieldValue::Short(self.delta_x));
        proof {
            lemma_encode_fields_push(f1, FieldValue::Short(self.delta_x));
        }
        put_i16(out, self.delta_y);
        let ghost f3 = f2.push(FieldValue::Short(self.delta_y));
        proof {
            lemma_encode_fields_push(f2, FieldValue::Short(self.delta_y));
        }
        put_i16(out, self.delta_z);
        let ghost f4 = f3.push(FieldValue::Short(self.delta_z));
        proof {
            lemma_encode_fields_push(f3, FieldValue::Short(self.delta_z));
        }
        put_u8(out, self.yaw);
        let ghost f5 = f4.push(FieldValue::UByte(self.yaw));
        proof {
            lemma_encode_fields_push(f4, FieldValue::UByte(self.yaw));
        }
        put_u8(out, self.pitch);
        let ghost f6 = f5.push(FieldValue::UByte(self.pitch));
        proof {
            lemma_encode_fields_push(f5, FieldValue::UByte(self.pitch));
        }
        put_bool(out, self.on_ground);
        let ghost f7 = f6.push(FieldValue::Boolean(self.on_ground));
        proof {
            lemma_encode_fields_push(f6, FieldValue::Boolean(self.on_ground));
        }
        assert(out@ =~= old(out)@ + encode_fields(f7));
        true
    }

    /// Reads the fields at `pos`.
    pub fn read_fields(bytes: &[u8], pos: usize) -> (r: Result<(EntityLookAndMove, usize), DecodeError>)
        ensures
            match r {
                Ok((p, next)) => parse_fields(
                    layout(PacketKind::EntityLookAndMove),
                    bytes@,
                    pos as int,
                    Seq::empty(),
                ) == Ok::<(Seq<FieldValue>, int), DecodeError>((p.fields(), next as int)),
                Err(e) => parse_fields(
                    layout(PacketKind::EntityLookAndMove),
                    bytes@,
                    pos as int,
                    Seq::empty(),
                ) == Err::<(Seq<FieldValue>, int), DecodeError>(e),
            },
    {
        let ghost layout = layout(PacketKind::EntityLookAndMove);
        let ghost f0 = Seq::<FieldValue>::empty();
        proof {
            lemma_parse_fields_step(layout, bytes@, pos as int, f0);
        }
        let (entity_id, at1) = match read_varint(bytes, pos) {
            Ok(found) => found,
            Err(e) => { return Err(e); },
        };
        let ghost f1 = f0.push(FieldValue::VarInt(entity_id));
        proof {
            lemma_parse_fields_step(layout, bytes@, at1 as int, f1);
        }
        let (delta_x, at2) = match read_i16(bytes, at1) {
            Ok(found) => found,
            Err(e) => { return Err(e); },
        };
        let ghost f2 = f1.push(FieldValue::Short(delta_x));
        proof {
            lemma_parse_fields_step(layout, bytes@, at2 as int, f2);
        }
        let (delta_y, at3) = match read_i16(bytes, at2) {
            Ok(found) => found,
            Err(e) => { return Err(e); },
        };
        let ghost f3 = f2.push(FieldValue::Short(delta_y));
        proof {
            lemma_parse_fields_step(layout, bytes@, at3 as int, f3);
        }
        let (delta_z, at4) = match read_i16(bytes, at3) {
            Ok(found) => found,
            Err(e) => { return Err(e); },
        };
        let ghost f4 = f3.push(FieldValue::Short(delta_z));
        proof {
            lemma_parse_fields_step(layout, bytes@, at4 as int, f4);
        }
        let (yaw, at5) = match read_u8(bytes, at4) {
            Ok(found) => found,
            Err(e) => { return Err(e); },
        };
        let ghost f5 = f4.push(FieldValue::UByte(yaw));
        proof {
            lemma_parse_fields_step(layout, bytes@, at5 as int, f5);
        }
        let (pitch, at6) = match read_u8(bytes, at5) {
            Ok(found) => found,
            Err(e) => { return Err(e); },
        };
        let ghost f6 = f5.push(FieldValue::UByte(pitch));
        proof {
            lemma_parse_fields_step(layout, bytes@, at6 as int, f6);
        }
        let (on_ground, at7) = match read_bool(bytes, at6) {
            Ok(found) => found,
            Err(e) => { return Err(e); },
        };
        let ghost f7 = f6.push(FieldValue::Boolean(on_ground));
        proof {
            lemma_parse_fields_step(layout, bytes@, at7 as int, f7);
        }
        Ok((EntityLookAndMove { entity_id, delta_x, delta_y, delta_z, yaw, pitch, on_ground }, at7))
    }

    /// Reads a packet of this kind from the fields of a frame.
    pub fn decode(body: &[u8]) -> (r: Result<Packet, DecodeError>)
        ensures
            same_packet(r, spec_decode_kind(PacketKind::EntityLookAndMove, body@)),
    {
        match EntityLookAndMove::read_fields(body, 0) {
            Ok((p, _)) => Ok(Packet::EntityLookAndMove(p)),
            Err(e) => Err(e),
        }
    }
}

/// A packet that has a wire form: it is of a kind of the catalogue and
/// each of its fields fits its wire type.
pub open spec fn encodable(p: PacketView) -> bool {
    p.kind != PacketKind::Unknown && conforms_all(p.fields, layout(p.kind))
}

/// What a frame holds after its length prefix: the id, then the fields.
pub open spec fn spec_body(p: PacketView) -> Seq<u8> {
    spec_varint(packet_id(p.kind)) + encode_fields(p.fields)
}

/// The frame of a packet: the byte count of its body, then the body.
pub open spec fn spec_frame(p: PacketView) -> Seq<u8> {
    spec_varint(spec_body(p).len() as i32) + spec_body(p)
}

/// The frame of a packet, or the reason why it has none.
pub open spec fn spec_encode(p: PacketView) -> Result<Seq<u8>, EncodeError> {
    if p.kind == PacketKind::Unknown {
        Err(EncodeError::UnknownPacket)
    } else if !conforms_all(p.fields, layout(p.kind)) {
        Err(EncodeError::InvalidField)
    } else if spec_body(p).len() > MAX_LENGTH {
        Err(EncodeError::FrameTooLong)
    } else {
        Ok(spec_frame(p))
    }
}

/// The packet that the fields in `body` make under the given id, in the
/// given protocol state. Bytes after the last field are left unread.
pub open spec fn spec_decode(state: i32, id: i32, body: Seq<u8>) -> Result<
    PacketView,
    DecodeError,
> {
    spec_decode_kind(lookup(state, id), body)
}

/// The packet of the frame that `s` starts with, and the length of that
/// frame.
pub open spec fn spec_read_frame(state: i32, s: Seq<u8>) -> Result<(PacketView, int), DecodeError> {
    match parse_varint(s, 0) {
        Err(e) => Err(e),
        Ok((n, start)) => {
            if n < 0 {
                Err(DecodeError::InvalidLength)
            } else if start + n > s.len() {
                Err(DecodeError::Truncated)
            } else {
                let frame = s.subrange(start, start + n);
                match parse_varint(frame, 0) {
                    Err(e) => Err(e),
                    Ok((id, after_id)) => match spec_decode(
                        state,
                        id,
                        frame.subrange(after_id, n as int),
                    ) {
                        Err(e) => Err(e),
                        Ok(p) => Ok((p, start + n)),
                    },
                }
            }
        },
    }
}

fn write_fields(packet: &Packet, out: &mut Vec<u8>) -> (done: bool)
    ensures
        done <==> conforms_all(packet@.fields, layout(packet@.kind)),
        done ==> final(out)@ == old(out)@ + encode_fields(packet@.fields),
{
    match packet {
        Packet::Handshake(p) => p.write_fields(out),
        Packet::StatusRequest(p) => p.write_fields(out),
        Packet::Ping(p) => p.write_fields(out),
        Packet::LoginStart(p) => p.write_fields(out),
        Packet::KeepAlive(p) => p.write_fields(out),
        Packet::PlayerPosition(p) => p.write_fields(out),
        Packet::PlayerPositionAndLook(p) => p.write_fields(out),
        Packet::PlayerLook(p) => p.write_fields(out),
        Packet::ReportState(p) => p.write_fields(out),
        Packet::BorderCrossLogin(p) => p.write_fields(out),
        Packet::Pong(p) => p.write_fields(out),
        Packet::StatusResponse(p) => p.write_fields(out),
        Packet::LoginSuccess(p) => p.write_fields(out),
        Packet::JoinGame(p) => p.write_fields(out),
        Packet::ClientboundPlayerPositionAndLook(p) => p.write_fields(out),
        Packet::ChunkData(p) => p.write_fields(out),
        Packet::PlayerInfo(p) => p.write_fields(out),
        Packet::SpawnPlayer(p) => p.write_fields(out),
        Packet::EntityHeadLook(p) => p.write_fields(out),
        Packet::DestroyEntities(p) => p.write_fields(out),
        Packet::EntityLookAndMove(p) => p.write_fields(out),
        Packet::Unknown => {
            assert(out@ =~= old(out)@ + encode_fields(packet@.fields));
            true
        },
    }
}

/// Writes the frame of a packet.
pub fn encode(packet: &Packet) -> (r: Result<Vec<u8>, EncodeError>)
    ensures
        match r {
            Ok(frame) => spec_encode(packet@) == Ok::<Seq<u8>, EncodeError>(frame@),
            Err(e) => spec_encode(packet@) == Err::<Seq<u8>, EncodeError>(e),
        },
{
    let kind = packet.kind();
    if kind == PacketKind::Unknown {
        return Err(EncodeError::UnknownPacket);
    }
    let mut body: Vec<u8> = Vec::new();
    put_varint(&mut body, kind.id());
    if !write_fields(packet, &mut body) {
        return Err(EncodeError::InvalidField);
    }
    assert(body@ =~= spec_body(packet@));
    if body.len() > MAX_LENGTH {
        return Err(EncodeError::FrameTooLong);
    }
    let mut frame: Vec<u8> = Vec::new();
    put_varint(&mut frame, body.len() as i32);
    put_bytes(&mut frame, body.as_slice());
    assert(frame@ =~= spec_frame(packet@));
    Ok(frame)
}

/// Reads a packet from the fields of a frame, given the protocol state and
/// the frame's id. A frame that the catalogue does not list gives
/// `Unknown`, and no error.
pub fn decode(protocol_state: i32, packet_id: i32, body: &[u8]) -> (r: Result<Packet, DecodeError>)
    ensures
        same_packet(r, spec_decode(protocol_state, packet_id, body@)),
        lookup(protocol_state, packet_id) == PacketKind::Unknown ==> r == Ok::<
            Packet,
            DecodeError,
        >(Packet::Unknown),
{
    match find_kind(protocol_state, packet_id) {
        PacketKind::Handshake => Handshake::decode(body),
        PacketKind::StatusRequest => StatusRequest::decode(body),
        PacketKind::Ping => Ping::decode(body),
        PacketKind::LoginStart => LoginStart::decode(body),
        PacketKind::KeepAlive => KeepAlive::decode(body),
        PacketKind::PlayerPosition => PlayerPosition::decode(body),
        PacketKind::PlayerPositionAndLook => PlayerPositionAndLook::decode(body),
        PacketKind::PlayerLook => PlayerLook::decode(body),
        PacketKind::ReportState => ReportState::decode(body),
        PacketKind::BorderCrossLogin => BorderCrossLogin::decode(body),
        PacketKind::Pong => Pong::decode(body),
        PacketKind::StatusResponse => StatusResponse::decode(body),
        PacketKind::LoginSuccess => LoginSuccess::decode(body),
        PacketKind::JoinGame => JoinGame::decode(body),
        PacketKind::ClientboundPlayerPositionAndLook => ClientboundPlayerPositionAndLook::decode(body),
        PacketKind::ChunkData => ChunkData::decode(body),
        PacketKind::PlayerInfo => PlayerInfo::decode(body),
        PacketKind::SpawnPlayer => SpawnPlayer::decode(body),
        PacketKind::EntityHeadLook => EntityHeadLook::decode(body),
        PacketKind::DestroyEntities => DestroyEntities::decode(body),
        PacketKind::EntityLookAndMove => EntityLookAndMove::decode(body),
        PacketKind::Unknown => Ok(Packet::Unknown),
    }
}

/// Reads the frame that `bytes` starts with: the packet, and the length of
/// the frame with its length prefix.
pub fn read_frame(protocol_state: i32, bytes: &[u8]) -> (r: Result<(Packet, usize), DecodeError>)
    ensures
        match r {
            Ok((p, next)) => spec_read_frame(protocol_state, bytes@) == Ok::<
                (PacketView, int),
                DecodeError,
            >((p@, next as int)),
            Err(e) => spec_read_frame(protocol_state, bytes@) == Err::<
                (PacketView, int),
                DecodeError,
            >(e),
        },
{
    let (n, start) = match read_varint(bytes, 0) {
        Ok(found) => found,
        Err(e) => { return Err(e); },
    };
    if n < 0 {
        return Err(DecodeError::InvalidLength);
    }
    let length: usize = n as usize;
    if start > bytes.len() || bytes.len() - start < length {
        return Err(DecodeError::Truncated);
    }
    let frame = vstd::slice::slice_subrange(bytes, start, start + length);
    let (id, after_id) = match read_varint(frame, 0) {
        Ok(found) => found,
        Err(e) => { return Err(e); },
    };
    let body = vstd::slice::slice_subrange(frame, after_id, length);
    match decode(protocol_state, id, body) {
        Ok(p) => Ok((p, start + length)),
        Err(e) => Err(e),
    }
}

/// The fields of a packet that has a wire form are read back as that
/// packet under its own id, in every protocol state in which its kind is
/// valid, whatever follows them.
pub proof fn lemma_decode_encoded(p: PacketView, state: i32, rest: Seq<u8>)
    requires
        encodable(p),
        valid_in(p.kind, state),
    ensures
        spec_decode(state, packet_id(p.kind), encode_fields(p.fields) + rest) == Ok::<
            PacketView,
            DecodeError,
        >(p),
{
    lemma_lookup_finds(p.kind, state);
    let written = encode_fields(p.fields);
    let s = written + rest;
    assert(s.subrange(0, written.len() as int) =~= written);
    lemma_fields_window(layout(p.kind), s, 0, p.fields);
}

/// Round trip: the frame that is written of a packet is read back as that
/// packet, in every protocol state in which its kind is valid, whatever
/// follows the frame.
pub proof fn lemma_frame_round_trip(p: PacketView, state: i32, rest: Seq<u8>)
    requires
        spec_encode(p) is Ok,
        valid_in(p.kind, state),
    ensures
        spec_read_frame(state, spec_frame(p) + rest) == Ok::<(PacketView, int), DecodeError>(
            (p, spec_frame(p).len() as int),
        ),
{
    let body = spec_body(p);
    let head = spec_varint(body.len() as i32);
    let id_bytes = spec_varint(packet_id(p.kind));
    let written = encode_fields(p.fields);
    let s = spec_frame(p) + rest;
    assert(s.subrange(0, head.len() as int) =~= head);
    lemma_varint_window(s, 0, body.len() as i32);
    let start = head.len() as int;
    let frame = s.subrange(start, start + body.len());
    assert(frame =~= body);
    assert(frame.subrange(0, id_bytes.len() as int) =~= id_bytes);
    lemma_varint_window(frame, 0, packet_id(p.kind));
    assert(frame.subrange(id_bytes.len() as int, body.len() as int) =~= written);
    assert(written + Seq::<u8>::empty() =~= written);
    lemma_decode_encoded(p, state, Seq::empty());
}

} // verus!
