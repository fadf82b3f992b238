use patchwork::block::ReportMessage;
use patchwork::keep_alive::{
    start_keep_alive, KeepAliveOperations, NewKeepAliveConnectionMessage, KEEP_ALIVE_PERIOD,
};
use patchwork::login::{
    confirm_login, confirm_login_as, handle_login_packet, login_success, Angle, LoginEffect,
    NewPlayerMessage, Place, Player, PlayerReportMessage, TranslationUpdates,
};
use patchwork::messenger::{
    MessengerOperations, SendPacketMessage, SubscribeMessage, SubscriberType,
};
use patchwork::packet::{LoginStart, LoginSuccess, Packet};

const ID: u128 = 0x0123_4567_89ab_4def_8123_4567_89ab_cdef;
const ID_TEXT: &str = "01234567-89ab-4def-8123-456789abcdef";

fn newcomer(conn_id: u128, uuid: u128, name: &str) -> Player {
    Player {
        conn_id,
        uuid,
        name: String::from(name),
        entity_id: 0,
        position: Place { x: 5.0f64.to_bits(), y: 16.0f64.to_bits(), z: 5.0f64.to_bits() },
        angle: Angle { pitch: 0.0f32.to_bits(), yaw: 0.0f32.to_bits() },
    }
}

fn effects(conn_id: u128, uuid: u128, text: &str, name: &str) -> Vec<LoginEffect> {
    vec![
        LoginEffect::Messenger(MessengerOperations::Send(SendPacketMessage {
            conn_id,
            packet: Packet::LoginSuccess(LoginSuccess {
                uuid: String::from(text),
                username: String::from(name),
            }),
        })),
        LoginEffect::NewPlayer(NewPlayerMessage { conn_id, player: newcomer(conn_id, uuid, name) }),
        LoginEffect::BlockReport(ReportMessage { conn_id }),
        LoginEffect::Messenger(MessengerOperations::Subscribe(SubscribeMessage {
            conn_id,
            typ: SubscriberType::All,
        })),
        LoginEffect::PlayerReport(PlayerReportMessage { conn_id }),
        LoginEffect::PatchworkReport,
    ]
}

fn text_of(effects: &[LoginEffect]) -> String {
    match &effects[0] {
        LoginEffect::Messenger(MessengerOperations::Send(SendPacketMessage {
            packet: Packet::LoginSuccess(success),
            ..
        })) => success.uuid.clone(),
        other => panic!("the first effect is {other:?}"),
    }
}

fn id_of(effects: &[LoginEffect]) -> u128 {
    match &effects[1] {
        LoginEffect::NewPlayer(announced) => announced.player.uuid,
        other => panic!("the second effect is {other:?}"),
    }
}

#[test]
fn login_is_confirmed_with_the_text_of_the_identifier() {
    let send = login_success(3, newcomer(3, ID, "steve"));
    assert_eq!(
        send,
        SendPacketMessage {
            conn_id: 3,
            packet: Packet::LoginSuccess(LoginSuccess {
                uuid: String::from(ID_TEXT),
                username: String::from("steve"),
            }),
        }
    );
}

#[test]
fn text_of_an_identifier_has_all_its_digits() {
    let zero = login_success(1, newcomer(1, 0, "a"));
    let full = login_success(1, newcomer(1, u128::MAX, "a"));
    let Packet::LoginSuccess(zero) = zero.packet else { panic!("a confirmation") };
    let Packet::LoginSuccess(full) = full.packet else { panic!("a confirmation") };
    assert_eq!(zero.uuid, "00000000-0000-0000-0000-000000000000");
    assert_eq!(full.uuid, "ffffffff-ffff-ffff-ffff-ffffffffffff");
}

#[test]
fn login_has_six_effects_in_order() {
    let start = LoginStart { username: String::from("steve") };
    assert_eq!(confirm_login_as(3, start, ID), effects(3, ID, ID_TEXT, "steve"));
}

#[test]
fn login_draws_a_random_identifier() {
    let start = LoginStart { username: String::from("alex") };
    let done = confirm_login(9, start.clone());
    let uuid = id_of(&done);
    assert_eq!((uuid >> 76) & 0xf, 4);
    assert_eq!((uuid >> 62) & 0x3, 2);
    let text = text_of(&done);
    assert_eq!(text.len(), 36);
    assert_eq!(u128::from_str_radix(&text.replace('-', ""), 16), Ok(uuid));
    assert_eq!(done, effects(9, uuid, &text, "alex"));
    assert_ne!(id_of(&confirm_login(9, start)), uuid);
}

#[test]
fn login_packet_takes_the_connection_to_play() {
    let packet = Packet::LoginStart(LoginStart { username: String::from("steve") });
    let (done, update) = handle_login_packet(packet, 4);
    assert_eq!(update, TranslationUpdates::State(3));
    let uuid = id_of(&done);
    assert_eq!(done, effects(4, uuid, &text_of(&done), "steve"));
}

#[test]
fn heartbeat_takes_note_of_new_connections() {
    assert_eq!(KEEP_ALIVE_PERIOD, 15);
    let mut conn_ids: Vec<u128> = vec![1];
    start_keep_alive(
        &mut conn_ids,
        vec![
            KeepAliveOperations::New(NewKeepAliveConnectionMessage { conn_id: 5 }),
            KeepAliveOperations::New(NewKeepAliveConnectionMessage { conn_id: 2 }),
            KeepAliveOperations::New(NewKeepAliveConnectionMessage { conn_id: 5 }),
        ],
    );
    assert_eq!(conn_ids, vec![1, 5, 2, 5]);
    start_keep_alive(&mut conn_ids, Vec::new());
    assert_eq!(conn_ids, vec![1, 5, 2, 5]);
}
