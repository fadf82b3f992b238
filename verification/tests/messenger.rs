use patchwork::codec::encode;
use patchwork::messenger::{
    members, BroadcastPacketMessage, Delivery, Messenger, MessengerOperations,
    NewConnectionMessage, Registry, SendPacketMessage, SubscribeMessage, SubscriberType,
    UpdateTranslationMessage,
};
use patchwork::packet::{KeepAlive, Packet, PlayerPosition};
use patchwork::shard::{Position, Shard};
use std::collections::HashSet;

fn keep_alive() -> Packet {
    Packet::KeepAlive(KeepAlive { id: 42 })
}

fn position(x: f64) -> Packet {
    Packet::PlayerPosition(PlayerPosition {
        x: x.to_bits(),
        feet_y: 0,
        z: 0,
        on_ground: false,
    })
}

fn frame(packet: &Packet) -> Vec<u8> {
    encode(packet).expect("the packet has a frame")
}

fn registry(connections: &[u128], all: &[u128], local_only: &[u128]) -> Registry {
    let mut registry = Registry::new();
    for conn_id in connections {
        registry.handle(MessengerOperations::New(NewConnectionMessage { conn_id: *conn_id }));
    }
    for conn_id in all {
        registry.handle(MessengerOperations::Subscribe(SubscribeMessage {
            conn_id: *conn_id,
            typ: SubscriberType::All,
        }));
    }
    for conn_id in local_only {
        registry.handle(MessengerOperations::Subscribe(SubscribeMessage {
            conn_id: *conn_id,
            typ: SubscriberType::LocalOnly,
        }));
    }
    registry
}

fn receivers(out: &[Delivery]) -> Vec<u128> {
    let mut ids: Vec<u128> = out.iter().map(|d| d.conn_id).collect();
    ids.sort();
    ids
}

fn broadcast(registry: &mut Registry, source: Option<u128>, local: bool) -> Vec<Delivery> {
    registry.handle(MessengerOperations::Broadcast(BroadcastPacketMessage {
        packet: keep_alive(),
        source_conn_id: source,
        local,
    }))
}

#[test]
fn new_registry_is_empty() {
    let registry = Registry::new();
    assert_eq!(registry.origin, Position { x: 0, z: 0 });
    assert!(registry.connections.is_empty());
    assert!(registry.all_broadcast_list.is_empty());
    assert!(registry.local_only_broadcast_list.is_empty());
    assert!(registry.translation_data.is_empty());
}

#[test]
fn send_writes_the_frame_to_the_connection() {
    let mut registry = registry(&[1, 2], &[], &[]);
    let out = registry.handle(MessengerOperations::Send(SendPacketMessage {
        conn_id: 2,
        packet: keep_alive(),
    }));
    assert_eq!(out, vec![Delivery { conn_id: 2, frame: frame(&keep_alive()) }]);
}

#[test]
fn send_to_a_connection_that_is_not_known_is_dropped() {
    let mut registry = registry(&[1], &[], &[]);
    let out = registry.handle(MessengerOperations::Send(SendPacketMessage {
        conn_id: 9,
        packet: keep_alive(),
    }));
    assert_eq!(out, Vec::new());
}

#[test]
fn send_of_a_packet_without_a_frame_is_dropped() {
    let registry = registry(&[1], &[], &[]);
    assert_eq!(registry.send(SendPacketMessage { conn_id: 1, packet: Packet::Unknown }), Vec::new());
}

#[test]
fn send_translates_for_a_connection_to_a_peer() {
    let mut registry = registry(&[1, 2], &[], &[]);
    let out = registry.handle(MessengerOperations::UpdateTranslation(UpdateTranslationMessage {
        conn_id: 2,
        map: Shard::new(Position { x: 1, z: 0 }, 0),
    }));
    assert_eq!(out, Vec::new());
    assert_eq!(registry.translation_data[&2].map.position, Position { x: 1, z: 0 });
    assert_eq!(registry.translation_data[&2].state, 0);
    let there = registry.send(SendPacketMessage { conn_id: 2, packet: position(1.0) });
    assert_eq!(there, vec![Delivery { conn_id: 2, frame: frame(&position(17.0)) }]);
    let here = registry.send(SendPacketMessage { conn_id: 1, packet: position(1.0) });
    assert_eq!(here, vec![Delivery { conn_id: 1, frame: frame(&position(1.0)) }]);
}

#[test]
fn update_translation_replaces_the_one_before() {
    let mut registry = registry(&[2], &[], &[]);
    registry.update_translation(UpdateTranslationMessage {
        conn_id: 2,
        map: Shard::new(Position { x: 1, z: 0 }, 0),
    });
    registry.update_translation(UpdateTranslationMessage {
        conn_id: 2,
        map: Shard::new(Position { x: 3, z: 0 }, 0),
    });
    assert_eq!(registry.translation_data.len(), 1);
    let out = registry.send(SendPacketMessage { conn_id: 2, packet: position(1.0) });
    assert_eq!(out, vec![Delivery { conn_id: 2, frame: frame(&position(49.0)) }]);
}

#[test]
fn broadcast_reaches_every_subscriber() {
    let mut registry = registry(&[1, 2, 3, 4], &[1, 2, 3], &[]);
    let out = broadcast(&mut registry, None, false);
    assert_eq!(receivers(&out), vec![1, 2, 3]);
    for delivery in out {
        assert_eq!(delivery.frame, frame(&keep_alive()));
    }
}

#[test]
fn broadcast_skips_its_source() {
    let mut registry = registry(&[1, 2, 3], &[1, 2, 3], &[]);
    assert_eq!(receivers(&broadcast(&mut registry, Some(2), false)), vec![1, 3]);
    assert_eq!(receivers(&broadcast(&mut registry, Some(2), true)), vec![1, 3]);
    assert_eq!(receivers(&broadcast(&mut registry, Some(7), false)), vec![1, 2, 3]);
}

#[test]
fn broadcast_of_local_origin_reaches_the_local_subscribers_last() {
    let mut registry = registry(&[1, 2, 3, 4], &[1, 2], &[3, 4]);
    let out = broadcast(&mut registry, Some(1), true);
    assert_eq!(out.len(), 3);
    assert_eq!(out[0].conn_id, 2);
    assert_eq!(receivers(&out[1..]), vec![3, 4]);
}

#[test]
fn broadcast_of_other_origin_passes_the_local_subscribers_by() {
    let mut registry = registry(&[1, 2, 3, 4], &[1, 2], &[3, 4]);
    assert_eq!(receivers(&broadcast(&mut registry, None, false)), vec![1, 2]);
}

#[test]
fn broadcast_passes_by_a_subscriber_that_is_not_a_connection() {
    let mut registry = registry(&[1], &[1, 5], &[6]);
    assert_eq!(receivers(&broadcast(&mut registry, None, true)), vec![1]);
}

#[test]
fn broadcast_is_not_translated() {
    let mut registry = registry(&[1, 2], &[1, 2], &[]);
    registry.update_translation(UpdateTranslationMessage {
        conn_id: 2,
        map: Shard::new(Position { x: 1, z: 0 }, 0),
    });
    let out = registry.broadcast(BroadcastPacketMessage {
        packet: position(1.0),
        source_conn_id: None,
        local: false,
    });
    assert_eq!(receivers(&out), vec![1, 2]);
    for delivery in out {
        assert_eq!(delivery.frame, frame(&position(1.0)));
    }
}

#[test]
fn broadcast_of_a_packet_without_a_frame_is_dropped() {
    let registry = registry(&[1, 2], &[1, 2], &[1]);
    let out = registry.broadcast(BroadcastPacketMessage {
        packet: Packet::Unknown,
        source_conn_id: None,
        local: true,
    });
    assert_eq!(out, Vec::new());
}

#[test]
fn subscriber_is_counted_once() {
    let mut registry = registry(&[1], &[1, 1], &[]);
    registry.subscribe(SubscribeMessage { conn_id: 1, typ: SubscriberType::All });
    assert_eq!(registry.all_broadcast_list.len(), 1);
    assert_eq!(broadcast(&mut registry, None, false).len(), 1);
}

#[test]
fn subscriber_of_both_sets_gets_a_local_broadcast_twice() {
    let mut registry = registry(&[1], &[1], &[1]);
    assert_eq!(receivers(&broadcast(&mut registry, None, true)), vec![1, 1]);
    assert_eq!(receivers(&broadcast(&mut registry, None, false)), vec![1]);
}

#[test]
fn new_connection_is_known_afterwards() {
    let mut registry = Registry::new();
    assert_eq!(
        registry.send(SendPacketMessage { conn_id: 5, packet: keep_alive() }),
        Vec::new()
    );
    registry.register(NewConnectionMessage { conn_id: 5 });
    assert!(registry.connections.contains(&5));
    assert_eq!(registry.send(SendPacketMessage { conn_id: 5, packet: keep_alive() }).len(), 1);
}

#[test]
fn members_holds_each_member_once() {
    let set: HashSet<u128> = [3u128, 1, 4, 1, 5, 9, 2, 6].into_iter().collect();
    let mut list = members(&set);
    list.sort();
    assert_eq!(list, vec![1, 2, 3, 4, 5, 6, 9]);
    assert_eq!(members(&HashSet::new()), Vec::<u128>::new());
}

#[test]
fn mailbox_keeps_the_operations_in_order() {
    let mut mailbox: Vec<MessengerOperations> = Vec::new();
    mailbox.new_connection(1);
    mailbox.subscribe(1, SubscriberType::LocalOnly);
    mailbox.update_translation(1, Shard::new(Position { x: 2, z: 0 }, 0));
    mailbox.send_packet(1, keep_alive());
    mailbox.broadcast_packet(keep_alive(), Some(1), true);
    assert_eq!(
        mailbox,
        vec![
            MessengerOperations::New(NewConnectionMessage { conn_id: 1 }),
            MessengerOperations::Subscribe(SubscribeMessage {
                conn_id: 1,
                typ: SubscriberType::LocalOnly,
            }),
            MessengerOperations::UpdateTranslation(UpdateTranslationMessage {
                conn_id: 1,
                map: Shard::new(Position { x: 2, z: 0 }, 0),
            }),
            MessengerOperations::Send(SendPacketMessage { conn_id: 1, packet: keep_alive() }),
            MessengerOperations::Broadcast(BroadcastPacketMessage {
                packet: keep_alive(),
                source_conn_id: Some(1),
                local: true,
            }),
        ]
    );
}

#[test]
fn mailbox_feeds_the_registry() {
    let mut mailbox: Vec<MessengerOperations> = Vec::new();
    mailbox.new_connection(1);
    mailbox.new_connection(2);
    mailbox.subscribe(1, SubscriberType::All);
    mailbox.subscribe(2, SubscriberType::All);
    mailbox.broadcast_packet(keep_alive(), Some(1), false);
    let mut registry = Registry::new();
    let mut written: Vec<Delivery> = Vec::new();
    for op in mailbox {
        written.extend(registry.handle(op));
    }
    assert_eq!(written, vec![Delivery { conn_id: 2, frame: frame(&keep_alive()) }]);
}

#[test]
fn local_subscriber_gets_its_own_local_broadcast() {
    let mut registry = registry(&[1, 2], &[2], &[1]);
    assert_eq!(receivers(&broadcast(&mut registry, Some(1), true)), vec![1, 2]);
    assert_eq!(receivers(&broadcast(&mut registry, Some(1), false)), vec![2]);
}
