use patchwork::messenger::{
    MessengerOperations, NewConnectionMessage, SendPacketMessage, UpdateTranslationMessage,
};
use patchwork::packet::{
    Handshake, KeepAlive, Packet, PlayerLook, PlayerPosition, PlayerPositionAndLook,
};
use patchwork::patchwork::{
    extract_map_position, Anchor, CrossBorderMessage, Crossing, NewMapMessage, Patchwork,
    PatchworkStateOperations, RouteAction, RouteError, RouteMessage,
};
use patchwork::shard::{Peer, Position, Shard, CHUNK_SIZE, ENTITY_ID_BLOCK_SIZE};

const PROXY: u128 = 0x1111_2222_3333_4444_8555_6666_7777_8888;

fn position(x: f64, z: f64) -> Packet {
    Packet::PlayerPosition(PlayerPosition {
        x: x.to_bits(),
        feet_y: 64.0f64.to_bits(),
        z: z.to_bits(),
        on_ground: true,
    })
}

fn peer() -> Peer {
    Peer { address: String::from("peer.example"), port: 25566 }
}

/// Shard 0 hosted here at (0, 0), shard 1 hosted by a peer at (1, 0).
fn two_shards() -> Patchwork {
    let mut patchwork = Patchwork::new();
    patchwork.add_peer_map(peer());
    patchwork
}

fn route(conn_id: u128, packet: Packet) -> RouteMessage {
    RouteMessage { packet, conn_id }
}

fn opening(local: u128, proxy: u128, x: i32) -> Vec<RouteAction> {
    vec![
        RouteAction::Messenger(MessengerOperations::New(NewConnectionMessage { conn_id: proxy })),
        RouteAction::Messenger(MessengerOperations::UpdateTranslation(
            UpdateTranslationMessage {
                conn_id: proxy,
                map: Shard::new(Position { x, z: 0 }, 0),
            },
        )),
        RouteAction::Messenger(MessengerOperations::Send(SendPacketMessage {
            conn_id: proxy,
            packet: Packet::Handshake(Handshake {
                protocol_version: 404,
                server_address: String::new(),
                server_port: 0,
                next_state: 4,
            }),
        })),
        RouteAction::CrossBorder(CrossBorderMessage { local_conn_id: local, remote_conn_id: proxy }),
    ]
}

#[test]
fn constants_of_the_grid() {
    assert_eq!(CHUNK_SIZE, 16);
    assert_eq!(ENTITY_ID_BLOCK_SIZE, 1000);
}

#[test]
fn position_packets_report_a_cell() {
    assert_eq!(extract_map_position(&position(17.0, 0.0)), Some(Position { x: 1, z: 0 }));
    assert_eq!(extract_map_position(&position(15.9, 16.0)), Some(Position { x: 0, z: 1 }));
    assert_eq!(extract_map_position(&position(-0.5, -16.5)), Some(Position { x: -1, z: -2 }));
    let look = Packet::PlayerPositionAndLook(PlayerPositionAndLook {
        x: 33.0f64.to_bits(),
        feet_y: 0,
        z: (-1.0f64).to_bits(),
        yaw: 0,
        pitch: 0,
        on_ground: false,
    });
    assert_eq!(extract_map_position(&look), Some(Position { x: 2, z: -1 }));
}

#[test]
fn other_packets_report_no_cell() {
    assert_eq!(extract_map_position(&Packet::KeepAlive(KeepAlive { id: 1 })), None);
    assert_eq!(
        extract_map_position(&Packet::PlayerLook(PlayerLook { yaw: 0, pitch: 0, on_ground: true })),
        None
    );
    assert_eq!(extract_map_position(&Packet::Unknown), None);
}

#[test]
fn new_patchwork_has_one_local_shard_at_the_origin() {
    let patchwork = Patchwork::new();
    assert_eq!(patchwork.maps, vec![Shard::new(Position { x: 0, z: 0 }, 0)]);
    assert!(!patchwork.maps[0].is_remote());
    assert!(patchwork.player_anchors.is_empty());
}

#[test]
fn shards_stand_in_a_row() {
    let mut patchwork = Patchwork::new();
    patchwork.add_peer_map(peer());
    patchwork.create_local_map();
    patchwork.add_peer_map(peer());
    assert_eq!(patchwork.maps.len(), 4);
    for (i, shard) in patchwork.maps.iter().enumerate() {
        assert_eq!(shard.position, Position { x: i as i32, z: 0 });
        assert_eq!(shard.entity_id_block, i as i32);
    }
    assert!(patchwork.maps[1].is_remote());
    assert!(!patchwork.maps[2].is_remote());
    assert_eq!(patchwork.maps[3], Shard::remote(Position { x: 3, z: 0 }, 3, peer()));
    assert_eq!(patchwork.next_position(), Position { x: 4, z: 0 });
    assert_eq!(patchwork.next_entity_id_block(), 4);
}

#[test]
fn entity_id_blocks_do_not_overlap() {
    let mut patchwork = Patchwork::new();
    for _ in 0..5 {
        patchwork.create_local_map();
    }
    let ranges: Vec<(i32, i32)> = patchwork
        .maps
        .iter()
        .map(|shard| {
            let first: i32 = shard.entity_id_block * ENTITY_ID_BLOCK_SIZE;
            (first, first + ENTITY_ID_BLOCK_SIZE)
        })
        .collect();
    assert_eq!(
        ranges,
        vec![(0, 1000), (1000, 2000), (2000, 3000), (3000, 4000), (4000, 5000), (5000, 6000)]
    );
}

#[test]
fn position_resolves_to_the_shard_of_its_cell() {
    let mut patchwork = two_shards();
    patchwork.create_local_map();
    assert_eq!(patchwork.position_map_index(Position { x: 0, z: 0 }), Some(0));
    assert_eq!(patchwork.position_map_index(Position { x: 1, z: 0 }), Some(1));
    assert_eq!(patchwork.position_map_index(Position { x: 2, z: 0 }), Some(2));
    assert_eq!(patchwork.position_map_index(Position { x: 3, z: 0 }), None);
    assert_eq!(patchwork.position_map_index(Position { x: -1, z: 0 }), None);
    assert_eq!(patchwork.position_map_index(Position { x: 0, z: 1 }), None);
}

#[test]
fn report_lists_the_shards_that_are_hosted_here() {
    let mut patchwork = two_shards();
    patchwork.create_local_map();
    patchwork.add_peer_map(peer());
    patchwork.create_local_map();
    assert_eq!(patchwork.report(), vec![0, 2, 4]);
    assert_eq!(two_shards().report(), vec![0]);
}

#[test]
fn player_who_stays_is_routed_to_the_gameplay_router() {
    let mut patchwork = two_shards();
    patchwork.player_anchors.insert(7, Anchor { map_index: 0, conn_id: None });
    let msg = route(7, position(3.0, 4.0));
    assert_eq!(patchwork.crossing_target(&msg), Crossing::Stay);
    let actions = patchwork.route_player_packet(msg.clone(), true);
    assert_eq!(actions, Ok(vec![RouteAction::Gameplay(msg)]));
    assert_eq!(patchwork.player_anchors[&7], Anchor { map_index: 0, conn_id: None });
    assert_eq!(patchwork.player_anchors.len(), 1);
}

#[test]
fn player_without_an_anchor_starts_in_the_first_shard() {
    let mut patchwork = two_shards();
    let msg = route(7, Packet::KeepAlive(KeepAlive { id: 3 }));
    let actions = patchwork.route_player_packet(msg.clone(), true);
    assert_eq!(actions, Ok(vec![RouteAction::Gameplay(msg)]));
    assert_eq!(patchwork.player_anchors[&7], Anchor { map_index: 0, conn_id: None });
}

#[test]
fn player_who_crosses_to_a_peer_gets_a_proxy() {
    let mut patchwork = two_shards();
    let msg = route(7, position(17.0, 0.0));
    assert_eq!(patchwork.crossing_target(&msg), Crossing::ToRemote(1));
    let actions = patchwork
        .route_player_packet_as(msg.clone(), true, PROXY)
        .expect("the position has a shard");
    let mut expected = opening(7, PROXY, 1);
    expected.push(RouteAction::Messenger(MessengerOperations::Send(SendPacketMessage {
        conn_id: PROXY,
        packet: msg.packet,
    })));
    assert_eq!(actions, expected);
    assert_eq!(patchwork.player_anchors[&7], Anchor { map_index: 1, conn_id: Some(PROXY) });
}

#[test]
fn crossing_to_a_peer_registers_one_fresh_proxy() {
    let mut patchwork = two_shards();
    let msg = route(7, position(17.0, 0.0));
    let actions = patchwork.route_player_packet(msg, true).expect("the position has a shard");
    let anchor = patchwork.player_anchors[&7];
    assert_eq!(anchor.map_index, 1);
    let proxy = anchor.conn_id.expect("the anchor has a proxy");
    assert_eq!((proxy >> 76) & 0xf, 4);
    assert_eq!((proxy >> 62) & 0x3, 2);
    assert_eq!(&actions[..4], &opening(7, proxy, 1)[..]);
    let registrations = actions
        .iter()
        .filter(|a| matches!(a, RouteAction::Messenger(MessengerOperations::New(_))))
        .count();
    assert_eq!(registrations, 1);
    let installs: Vec<&RouteAction> = actions
        .iter()
        .filter(|a| matches!(a, RouteAction::Messenger(MessengerOperations::UpdateTranslation(_))))
        .collect();
    assert_eq!(
        installs,
        vec![&RouteAction::Messenger(MessengerOperations::UpdateTranslation(
            UpdateTranslationMessage {
                conn_id: proxy,
                map: Shard::new(Position { x: 1, z: 0 }, 0),
            }
        ))]
    );
}

#[test]
fn proxies_of_two_crossings_differ() {
    let mut patchwork = two_shards();
    patchwork.route_player_packet(route(7, position(17.0, 0.0)), true).expect("a shard");
    patchwork.route_player_packet(route(8, position(18.0, 0.0)), true).expect("a shard");
    assert_ne!(patchwork.player_anchors[&7].conn_id, patchwork.player_anchors[&8].conn_id);
}

#[test]
fn player_at_a_peer_is_routed_over_the_proxy() {
    let mut patchwork = two_shards();
    patchwork.player_anchors.insert(7, Anchor { map_index: 1, conn_id: Some(PROXY) });
    let msg = route(7, position(20.0, 1.0));
    assert_eq!(patchwork.crossing_target(&msg), Crossing::Stay);
    let actions = patchwork.route_player_packet_as(msg.clone(), true, 99);
    assert_eq!(
        actions,
        Ok(vec![RouteAction::Messenger(MessengerOperations::Send(SendPacketMessage {
            conn_id: PROXY,
            packet: msg.packet,
        }))])
    );
    assert_eq!(patchwork.player_anchors[&7], Anchor { map_index: 1, conn_id: Some(PROXY) });
}

#[test]
fn unknown_packet_of_a_player_at_a_peer_is_dropped() {
    let mut patchwork = two_shards();
    patchwork.player_anchors.insert(7, Anchor { map_index: 1, conn_id: Some(PROXY) });
    let actions = patchwork.route_player_packet(route(7, Packet::Unknown), true);
    assert_eq!(actions, Ok(Vec::new()));
    assert_eq!(patchwork.player_anchors[&7], Anchor { map_index: 1, conn_id: Some(PROXY) });
}

#[test]
fn unknown_packet_of_a_local_player_goes_to_the_gameplay_router() {
    let mut patchwork = two_shards();
    let msg = route(7, Packet::Unknown);
    assert_eq!(
        patchwork.route_player_packet(msg.clone(), true),
        Ok(vec![RouteAction::Gameplay(msg)])
    );
}

#[test]
fn player_who_comes_back_is_anchored_here_again() {
    let mut patchwork = two_shards();
    patchwork.player_anchors.insert(7, Anchor { map_index: 1, conn_id: Some(PROXY) });
    let msg = route(7, position(2.0, 0.0));
    assert_eq!(patchwork.crossing_target(&msg), Crossing::ToLocal(0));
    let actions = patchwork.route_player_packet(msg.clone(), true);
    assert_eq!(actions, Ok(vec![RouteAction::Gameplay(msg)]));
    assert_eq!(patchwork.player_anchors[&7], Anchor { map_index: 0, conn_id: None });
}

#[test]
fn player_who_crosses_between_local_shards_needs_no_proxy() {
    let mut patchwork = Patchwork::new();
    patchwork.create_local_map();
    let msg = route(7, position(16.0, 0.0));
    assert_eq!(patchwork.crossing_target(&msg), Crossing::ToLocal(1));
    let actions = patchwork.route_player_packet(msg.clone(), true);
    assert_eq!(actions, Ok(vec![RouteAction::Gameplay(msg)]));
    assert_eq!(patchwork.player_anchors[&7], Anchor { map_index: 1, conn_id: None });
}

#[test]
fn peer_that_is_not_reached_leaves_the_anchor() {
    let mut patchwork = two_shards();
    let msg = route(7, position(17.0, 0.0));
    let actions = patchwork.route_player_packet(msg.clone(), false);
    assert_eq!(actions, Ok(vec![RouteAction::Gameplay(msg)]));
    assert_eq!(patchwork.player_anchors[&7], Anchor { map_index: 0, conn_id: None });
}

#[test]
fn position_without_a_shard_is_an_error() {
    let mut patchwork = two_shards();
    let msg = route(7, position(40.0, 0.0));
    assert_eq!(patchwork.crossing_target(&msg), Crossing::NoShard);
    assert_eq!(patchwork.route_player_packet(msg, true), Err(RouteError::NoShard));
    assert_eq!(
        patchwork.route_player_packet(route(7, position(-1.0, 0.0)), true),
        Err(RouteError::NoShard)
    );
    assert_eq!(
        patchwork.route_player_packet(route(7, position(1.0, 16.0)), true),
        Err(RouteError::NoShard)
    );
    assert_eq!(patchwork.maps.len(), 2);
}

#[test]
fn anchor_to_a_peer_opens_the_connection_in_order() {
    let (anchor, actions) = Anchor::connect_as(7, 3, Position { x: 3, z: 0 }, PROXY);
    assert_eq!(anchor, Anchor { map_index: 3, conn_id: Some(PROXY) });
    assert_eq!(actions, opening(7, PROXY, 3));
}

#[test]
fn anchor_to_a_peer_gets_a_random_identifier() {
    let (anchor, actions) = Anchor::connect(7, 1, Position { x: 1, z: 0 });
    let proxy = anchor.conn_id.expect("the anchor has a proxy");
    assert_eq!((proxy >> 76) & 0xf, 4);
    assert_eq!((proxy >> 62) & 0x3, 2);
    assert_eq!(actions, opening(7, proxy, 1));
    let (other, _) = Anchor::connect(7, 1, Position { x: 1, z: 0 });
    assert_ne!(other.conn_id, anchor.conn_id);
}

#[test]
fn operations_of_the_mailbox() {
    let new = PatchworkStateOperations::New(NewMapMessage { peer: peer() });
    let mut patchwork = Patchwork::new();
    if let PatchworkStateOperations::New(msg) = new {
        patchwork.add_peer_map(msg.peer);
    }
    assert_eq!(patchwork.maps[1].peer_connection.as_ref().map(|c| c.peer.clone()), Some(peer()));
    assert_eq!(PatchworkStateOperations::Report, PatchworkStateOperations::Report);
}
