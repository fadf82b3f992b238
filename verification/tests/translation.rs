use patchwork::packet::{
    BorderCrossLogin, ChunkData, ChunkSection, DestroyEntities, JoinGame, KeepAlive, Packet,
    PlayerPosition, PlayerPositionAndLook, SpawnPlayer,
};
use patchwork::shard::{Position, Shard};
use patchwork::translation::{
    frame_offset_of, move_chunk, translate, translate_outgoing, TranslationInfo,
};

fn at(x: i32) -> Position {
    Position { x, z: 0 }
}

fn position(x: f64) -> Packet {
    Packet::PlayerPosition(PlayerPosition {
        x: x.to_bits(),
        feet_y: 64.0f64.to_bits(),
        z: 3.5f64.to_bits(),
        on_ground: true,
    })
}

fn chunk(chunk_x: i32) -> Packet {
    Packet::ChunkData(ChunkData {
        chunk_x,
        chunk_z: 9,
        full_chunk: true,
        primary_bit_mask: 1,
        size: 12291,
        data: ChunkSection {
            bits_per_block: 14,
            data_array: vec![3; 4],
            block_light: vec![0; 2048],
            sky_light: vec![0; 2048],
        },
        biomes: vec![127; 256],
        number_of_block_entities: 0,
    })
}

fn spawn(x: f64) -> Packet {
    Packet::SpawnPlayer(SpawnPlayer {
        entity_id: 1005,
        uuid: 77,
        x: x.to_bits(),
        y: 1.0f64.to_bits(),
        z: 2.0f64.to_bits(),
        yaw: 0,
        pitch: 0,
        entity_metadata_terminator: 0xff,
    })
}

#[test]
fn offset_between_frames_is_sixteen_per_cell() {
    assert_eq!(frame_offset_of(at(0), at(0)), 0);
    assert_eq!(frame_offset_of(at(0), at(1)), 16);
    assert_eq!(frame_offset_of(at(1), at(0)), -16);
    assert_eq!(frame_offset_of(at(-2), at(3)), 80);
    assert_eq!(frame_offset_of(at(i32::MIN), at(i32::MAX)), 16 * 4_294_967_295);
    assert_eq!(frame_offset_of(at(i32::MAX), at(i32::MIN)), -16 * 4_294_967_295);
}

#[test]
fn offset_ignores_the_second_coordinate() {
    assert_eq!(frame_offset_of(Position { x: 1, z: 5 }, Position { x: 2, z: -9 }), 16);
}

#[test]
fn chunk_coordinate_wraps_around() {
    assert_eq!(move_chunk(3, 16), 19);
    assert_eq!(move_chunk(3, -16), -13);
    assert_eq!(move_chunk(i32::MAX, 1), i32::MIN);
    assert_eq!(move_chunk(i32::MIN, -1), i32::MAX);
    assert_eq!(move_chunk(0, 0x1_0000_0000), 0);
    assert_eq!(move_chunk(5, 0x1_0000_0010), 21);
    assert_eq!(move_chunk(5, -0x1_0000_0010), -11);
}

#[test]
fn position_is_moved_into_the_other_frame() {
    assert_eq!(translate(position(1.0), at(0), at(1)), position(17.0));
    assert_eq!(translate(position(17.0), at(1), at(0)), position(1.0));
    assert_eq!(translate(position(-4.5), at(2), at(0)), position(-36.5));
    let look = Packet::PlayerPositionAndLook(PlayerPositionAndLook {
        x: 2.0f64.to_bits(),
        feet_y: 5.0f64.to_bits(),
        z: 6.0f64.to_bits(),
        yaw: 1.0f32.to_bits(),
        pitch: 2.0f32.to_bits(),
        on_ground: false,
    });
    let moved = Packet::PlayerPositionAndLook(PlayerPositionAndLook {
        x: 50.0f64.to_bits(),
        feet_y: 5.0f64.to_bits(),
        z: 6.0f64.to_bits(),
        yaw: 1.0f32.to_bits(),
        pitch: 2.0f32.to_bits(),
        on_ground: false,
    });
    assert_eq!(translate(look, at(0), at(3)), moved);
}

#[test]
fn spawned_player_is_moved_and_keeps_its_entity_id() {
    assert_eq!(translate(spawn(0.5), at(0), at(2)), spawn(32.5));
}

#[test]
fn border_crossing_is_moved() {
    let login = |x: f64| {
        Packet::BorderCrossLogin(BorderCrossLogin {
            x: x.to_bits(),
            feet_y: 16.0f64.to_bits(),
            z: 5.0f64.to_bits(),
            yaw: 0,
            pitch: 0,
            on_ground: true,
            username: String::from("alex"),
            entity_id: 7,
        })
    };
    assert_eq!(translate(login(5.0), at(1), at(0)), login(-11.0));
}

#[test]
fn chunk_is_moved_by_the_offset() {
    assert_eq!(translate(chunk(2), at(0), at(1)), chunk(18));
    assert_eq!(translate(chunk(2), at(1), at(0)), chunk(-14));
    assert_eq!(translate(chunk(i32::MAX), at(0), at(1)), chunk(i32::MIN + 15));
}

#[test]
fn packet_without_a_position_is_left_alone() {
    let packets = vec![
        Packet::KeepAlive(KeepAlive { id: 5 }),
        Packet::DestroyEntities(DestroyEntities { entity_ids: vec![1, 2, 1001] }),
        Packet::JoinGame(JoinGame {
            entity_id: 1001,
            gamemode: 0,
            dimension: 0,
            difficulty: 0,
            max_players: 8,
            level_type: String::from("flat"),
            reduced_debug_info: true,
        }),
        Packet::Unknown,
    ];
    for packet in packets {
        assert_eq!(translate(packet.clone(), at(0), at(5)), packet);
    }
}

#[test]
fn same_frame_changes_nothing() {
    for packet in [position(0.1), position(-0.0), chunk(5), spawn(1e300)] {
        assert_eq!(translate(packet.clone(), at(4), at(4)), packet);
    }
}

#[test]
fn there_and_back_restores_the_packet() {
    let frames = [(0, 1), (1, 0), (0, 7), (-3, 12), (100, -100)];
    let packets = vec![
        position(17.0),
        position(-1234.625),
        position(0.0),
        spawn(3.5),
        spawn(-2000.0),
        chunk(0),
        chunk(i32::MAX),
        chunk(i32::MIN),
        chunk(-77),
        Packet::KeepAlive(KeepAlive { id: 1 }),
        Packet::Unknown,
    ];
    for (a, b) in frames {
        for packet in &packets {
            let there = translate(packet.clone(), at(a), at(b));
            assert_eq!(&translate(there, at(b), at(a)), packet);
        }
    }
}

#[test]
fn outgoing_packet_goes_to_the_frame_of_the_peer() {
    let info = TranslationInfo { state: 4, map: Shard::new(at(1), 0) };
    assert_eq!(translate_outgoing(position(17.0), at(0), &info), position(33.0));
    assert_eq!(translate_outgoing(chunk(1), at(0), &info), chunk(17));
    let home = TranslationInfo { state: 3, map: Shard::new(at(0), 0) };
    assert_eq!(translate_outgoing(position(17.0), at(0), &home), position(17.0));
}
