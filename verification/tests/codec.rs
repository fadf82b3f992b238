use patchwork::codec::{decode, encode, read_frame, EncodeError};
use patchwork::packet::{
    find_kind, BorderCrossLogin, ChunkData, ChunkSection, ClientboundPlayerPositionAndLook,
    DestroyEntities, EntityHeadLook, EntityLookAndMove, Handshake, JoinGame, KeepAlive,
    LoginStart, LoginSuccess, Packet, PacketKind, Ping, PlayerInfo, PlayerLook, PlayerPosition,
    PlayerPositionAndLook, Pong, ReportState, SpawnPlayer, StatusRequest, StatusResponse,
};
use patchwork::wire::DecodeError;

fn section() -> ChunkSection {
    ChunkSection {
        bits_per_block: 14,
        data_array: vec![1, -1, i64::MIN, i64::MAX, 0],
        block_light: vec![0x5a; 2048],
        sky_light: vec![0xff; 2048],
    }
}

fn chunk_data() -> ChunkData {
    ChunkData {
        chunk_x: -3,
        chunk_z: 7,
        full_chunk: true,
        primary_bit_mask: 1,
        size: 4200,
        data: section(),
        biomes: (0..256).collect(),
        number_of_block_entities: 0,
    }
}

/// One packet of every kind, with the protocol state in which its frame is
/// read.
fn samples() -> Vec<(i32, Packet)> {
    vec![
        (
            0,
            Packet::Handshake(Handshake {
                protocol_version: 404,
                server_address: String::from("localhost"),
                server_port: 25565,
                next_state: 2,
            }),
        ),
        (1, Packet::StatusRequest(StatusRequest {})),
        (1, Packet::Ping(Ping { payload: -77 })),
        (2, Packet::LoginStart(LoginStart { username: String::from("steve") })),
        (3, Packet::KeepAlive(KeepAlive { id: i64::MAX })),
        (
            3,
            Packet::PlayerPosition(PlayerPosition {
                x: 17.0f64.to_bits(),
                feet_y: 64.5f64.to_bits(),
                z: (-0.25f64).to_bits(),
                on_ground: true,
            }),
        ),
        (
            3,
            Packet::PlayerPositionAndLook(PlayerPositionAndLook {
                x: 1.5f64.to_bits(),
                feet_y: 2.5f64.to_bits(),
                z: 3.5f64.to_bits(),
                yaw: 90.0f32.to_bits(),
                pitch: (-45.0f32).to_bits(),
                on_ground: false,
            }),
        ),
        (
            3,
            Packet::PlayerLook(PlayerLook {
                yaw: 1.0f32.to_bits(),
                pitch: 2.0f32.to_bits(),
                on_ground: true,
            }),
        ),
        (6, Packet::ReportState(ReportState {})),
        (
            4,
            Packet::BorderCrossLogin(BorderCrossLogin {
                x: 5.0f64.to_bits(),
                feet_y: 16.0f64.to_bits(),
                z: 5.0f64.to_bits(),
                yaw: 0,
                pitch: 0,
                on_ground: false,
                username: String::from("alex"),
                entity_id: 1001,
            }),
        ),
        (99, Packet::Pong(Pong { payload: 12 })),
        (99, Packet::StatusResponse(StatusResponse { json_response: String::from("{}") })),
        (
            99,
            Packet::LoginSuccess(LoginSuccess {
                uuid: String::from("00000000-0000-4000-8000-000000000000"),
                username: String::from("steve"),
            }),
        ),
        (
            99,
            Packet::JoinGame(JoinGame {
                entity_id: 3,
                gamemode: 1,
                dimension: 0,
                difficulty: 2,
                max_players: 20,
                level_type: String::from("default"),
                reduced_debug_info: false,
            }),
        ),
        (
            99,
            Packet::ClientboundPlayerPositionAndLook(ClientboundPlayerPositionAndLook {
                x: 5.0f64.to_bits(),
                y: 16.0f64.to_bits(),
                z: 5.0f64.to_bits(),
                yaw: 0,
                pitch: 0,
                flags: -1,
                teleport_id: 128,
            }),
        ),
        (3, Packet::ChunkData(chunk_data())),
        (
            3,
            Packet::PlayerInfo(PlayerInfo {
                action: 0,
                number_of_players: 1,
                uuid: 0x0123_4567_89ab_4def_8123_4567_89ab_cdef,
                name: String::from("steve"),
                number_of_properties: 0,
                gamemode: 1,
                ping: 100,
                has_display_name: false,
            }),
        ),
        (
            3,
            Packet::SpawnPlayer(SpawnPlayer {
                entity_id: 2_097_151,
                uuid: u128::MAX,
                x: 1.0f64.to_bits(),
                y: 2.0f64.to_bits(),
                z: 3.0f64.to_bits(),
                yaw: 255,
                pitch: 0,
                entity_metadata_terminator: 0xff,
            }),
        ),
        (3, Packet::EntityHeadLook(EntityHeadLook { entity_id: 127, angle: 64 })),
        (3, Packet::DestroyEntities(DestroyEntities { entity_ids: vec![0, 127, 128, -1] })),
        (
            3,
            Packet::EntityLookAndMove(EntityLookAndMove {
                entity_id: 128,
                delta_x: -1,
                delta_y: i16::MAX,
                delta_z: i16::MIN,
                yaw: 1,
                pitch: 2,
                on_ground: true,
            }),
        ),
    ]
}

#[test]
fn every_kind_of_packet_round_trips() {
    let all = samples();
    assert_eq!(all.len(), 21);
    for (state, packet) in all {
        let frame = encode(&packet).expect("the packet has a frame");
        assert_eq!(read_frame(state, &frame), Ok((packet, frame.len())));
    }
}

#[test]
fn round_trip_leaves_what_follows_the_frame() {
    for (state, packet) in samples() {
        let frame = encode(&packet).expect("the packet has a frame");
        let mut stream = frame.clone();
        stream.extend_from_slice(&[0xde, 0xad, 0xbe, 0xef]);
        assert_eq!(read_frame(state, &stream), Ok((packet, frame.len())));
    }
}

#[test]
fn frame_of_a_handshake() {
    let packet = Packet::Handshake(Handshake {
        protocol_version: 404,
        server_address: String::from("ab"),
        server_port: 25565,
        next_state: 2,
    });
    assert_eq!(
        encode(&packet),
        Ok(vec![0x09, 0x00, 0x94, 0x03, 0x02, b'a', b'b', 0x63, 0xdd, 0x02])
    );
}

#[test]
fn frame_of_a_packet_without_fields() {
    assert_eq!(encode(&Packet::StatusRequest(StatusRequest {})), Ok(vec![0x01, 0x00]));
    assert_eq!(encode(&Packet::ReportState(ReportState {})), Ok(vec![0x01, 0x01]));
}

#[test]
fn frame_of_a_player_position() {
    let packet = Packet::PlayerPosition(PlayerPosition {
        x: 17.0f64.to_bits(),
        feet_y: 0,
        z: 0,
        on_ground: true,
    });
    let mut expected: Vec<u8> = vec![26, 0x10];
    expected.extend_from_slice(&17.0f64.to_be_bytes());
    expected.extend_from_slice(&[0; 16]);
    expected.push(1);
    assert_eq!(encode(&packet), Ok(expected));
}

#[test]
fn frame_with_an_id_above_127_has_a_two_byte_id() {
    let packet = Packet::BorderCrossLogin(BorderCrossLogin {
        x: 0,
        feet_y: 0,
        z: 0,
        yaw: 0,
        pitch: 0,
        on_ground: false,
        username: String::new(),
        entity_id: 1,
    });
    let frame = encode(&packet).expect("the packet has a frame");
    assert_eq!(frame.len(), 1 + 2 + 24 + 8 + 1 + 1 + 4);
    assert_eq!(&frame[..3], &[40, 0xa0, 0x01]);
}

#[test]
fn frame_of_a_chunk_has_the_length_of_its_parts() {
    let frame = encode(&Packet::ChunkData(chunk_data())).expect("the packet has a frame");
    let body: usize = 1 + 4 + 4 + 1 + 1 + 2 + (1 + 1 + 5 * 8 + 2048 + 2048) + 256 * 4 + 1;
    assert_eq!(frame.len(), 2 + body);
}

#[test]
fn unknown_packet_has_no_frame() {
    assert_eq!(encode(&Packet::Unknown), Err(EncodeError::UnknownPacket));
}

#[test]
fn chunk_with_too_few_biomes_has_no_frame() {
    let mut chunk = chunk_data();
    chunk.biomes.pop();
    assert_eq!(encode(&Packet::ChunkData(chunk)), Err(EncodeError::InvalidField));
}

#[test]
fn chunk_with_short_light_has_no_frame() {
    let mut chunk = chunk_data();
    chunk.data.sky_light.pop();
    assert_eq!(encode(&Packet::ChunkData(chunk)), Err(EncodeError::InvalidField));
    let mut other = chunk_data();
    other.data.block_light.push(0);
    assert_eq!(encode(&Packet::ChunkData(other)), Err(EncodeError::InvalidField));
}

#[test]
fn unknown_id_decodes_to_unknown() {
    assert_eq!(decode(3, 0x7e, &[1, 2, 3]), Ok(Packet::Unknown));
    assert_eq!(decode(0, 0x01, &[]), Ok(Packet::Unknown));
    assert_eq!(decode(3, -1, &[]), Ok(Packet::Unknown));
    assert_eq!(find_kind(3, 0x7e), PacketKind::Unknown);
}

#[test]
fn known_id_in_another_state_decodes_to_unknown() {
    assert_eq!(decode(3, 0x00, &[0x01, b'a']), Ok(Packet::Unknown));
    assert_eq!(decode(2, 0x00, &[0x01, b'a']), Ok(Packet::LoginStart(LoginStart {
        username: String::from("a"),
    })));
    assert_eq!(decode(1, 0x21, &[0; 8]), Ok(Packet::Unknown));
}

#[test]
fn frame_of_an_unknown_id_reads_as_unknown() {
    assert_eq!(read_frame(3, &[0x03, 0x7e, 0x01, 0x02, 0xff]), Ok((Packet::Unknown, 4)));
}

#[test]
fn packet_of_every_state_is_found_in_every_state() {
    for state in [0, 1, 2, 3, 4, 6, 99, -5] {
        assert_eq!(find_kind(state, 0x11), PacketKind::PlayerPositionAndLook);
        assert_eq!(find_kind(state, 0xa0), PacketKind::BorderCrossLogin);
        assert_eq!(find_kind(state, 0x22), PacketKind::ChunkData);
    }
}

#[test]
fn kinds_know_their_id_and_state() {
    assert_eq!(PacketKind::Handshake.id(), 0x00);
    assert_eq!(PacketKind::Handshake.state(), Some(0));
    assert_eq!(PacketKind::KeepAlive.id(), 0x21);
    assert_eq!(PacketKind::KeepAlive.state(), Some(3));
    assert_eq!(PacketKind::JoinGame.id(), 0x25);
    assert_eq!(PacketKind::JoinGame.state(), Some(99));
    assert_eq!(PacketKind::ReportState.state(), Some(6));
    assert_eq!(PacketKind::ChunkData.state(), None);
    assert_eq!(PacketKind::Unknown.id(), -1);
    for (state, packet) in samples() {
        let kind = packet.kind();
        assert_eq!(find_kind(state, kind.id()), kind);
    }
}

#[test]
fn body_that_ends_early_is_truncated() {
    assert_eq!(decode(1, 0x01, &[0; 7]), Err(DecodeError::Truncated));
    assert_eq!(decode(3, 0x10, &[0; 24]), Err(DecodeError::Truncated));
    assert_eq!(decode(0, 0x00, &[]), Err(DecodeError::Truncated));
}

#[test]
fn body_with_bytes_to_spare_is_read() {
    assert_eq!(decode(1, 0x01, &[0, 0, 0, 0, 0, 0, 0, 5, 9, 9]), Ok(Packet::Ping(Ping {
        payload: 5,
    })));
}

#[test]
fn body_with_a_bad_string_is_refused() {
    assert_eq!(decode(2, 0x00, &[0x01, 0xff]), Err(DecodeError::InvalidUtf8));
    assert_eq!(
        decode(2, 0x00, &[0xff, 0xff, 0xff, 0xff, 0x0f]),
        Err(DecodeError::InvalidLength)
    );
}

#[test]
fn body_with_a_bad_varint_is_refused() {
    assert_eq!(
        decode(0, 0x00, &[0x80, 0x80, 0x80, 0x80, 0x80, 0x01]),
        Err(DecodeError::MalformedVarInt)
    );
}

#[test]
fn frame_that_ends_early_is_truncated() {
    let frame = encode(&Packet::Ping(Ping { payload: 1 })).expect("the packet has a frame");
    for cut in 0..frame.len() {
        assert_eq!(read_frame(1, &frame[..cut]), Err(DecodeError::Truncated));
    }
}

#[test]
fn frame_with_a_negative_length_is_refused() {
    assert_eq!(
        read_frame(1, &[0xff, 0xff, 0xff, 0xff, 0x0f, 0x00]),
        Err(DecodeError::InvalidLength)
    );
}

#[test]
fn frame_with_a_bad_length_is_refused() {
    assert_eq!(
        read_frame(1, &[0x80, 0x80, 0x80, 0x80, 0x80, 0x00]),
        Err(DecodeError::MalformedVarInt)
    );
}

#[test]
fn frame_without_an_id_is_truncated() {
    assert_eq!(read_frame(1, &[0x00]), Err(DecodeError::Truncated));
}

#[test]
fn frames_are_read_one_after_the_other() {
    let first = Packet::Ping(Ping { payload: 1 });
    let second = Packet::StatusRequest(StatusRequest {});
    let mut stream = encode(&first).expect("the packet has a frame");
    let first_length = stream.len();
    stream.extend(encode(&second).expect("the packet has a frame"));
    assert_eq!(read_frame(1, &stream), Ok((first, first_length)));
    assert_eq!(read_frame(1, &stream[first_length..]), Ok((second, 2)));
}

#[test]
fn section_round_trips() {
    let mut out: Vec<u8> = vec![7];
    assert!(section().write(&mut out));
    assert_eq!(out.len(), 1 + 1 + 1 + 40 + 4096);
    assert_eq!(ChunkSection::read(&out, 1), Ok((section(), out.len())));
    assert_eq!(ChunkSection::read(&out[..out.len() - 1], 1), Err(DecodeError::Truncated));
}

#[test]
fn section_with_short_light_is_not_written() {
    let mut bad = section();
    bad.block_light.truncate(2047);
    let mut out: Vec<u8> = Vec::new();
    assert!(!bad.write(&mut out));
}
