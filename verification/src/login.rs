//! The login of a player: what the server does, in order, once a player
//! has named itself.

use crate::block::ReportMessage;
use crate::ids::{fresh_id, hyphenated, hyphenated_text, is_random_id};
use crate::messenger::{MessengerOperations, SendPacketMessage, SubscribeMessage, SubscriberType};
use crate::packet::{Binary32, Binary64, LoginStart, LoginSuccess, Packet};
use vstd::prelude::*;

verus! {

/// The protocol state that follows a login: play.
pub const PLAY_STATE: i32 = 3;

/// The bits of the binary64 number 5.
pub const FIVE: Binary64 = 0x4014_0000_0000_0000;

/// The bits of the binary64 number 16.
pub const SIXTEEN: Binary64 = 0x4030_0000_0000_0000;

/// What a handled packet changes of the connection's translation.
#[derive(Debug, Clone, Copy, PartialEq, Eq, Structural)]
pub enum TranslationUpdates {
    /// The connection goes over to the protocol state.
    State(i32),
}

/// Where a player stands.
#[derive(Debug, Clone, Copy, PartialEq, Eq, Structural)]
pub struct Place {
    pub x: Binary64,
    pub y: Binary64,
    pub z: Binary64,
}

/// Where a player looks.
#[derive(Debug, Clone, Copy, PartialEq, Eq, Structural)]
pub struct Angle {
    pub pitch: Binary32,
    pub yaw: Binary32,
}

/// A player.
#[derive(Debug, Clone, PartialEq, Eq)]
pub struct Player {
    pub conn_id: u128,
    pub uuid: u128,
    pub name: String,
    pub entity_id: i32,
    pub position: Place,
    pub angle: Angle,
}

/// Announces a player to the keeper of the players.
#[derive(Debug, Clone, PartialEq, Eq)]
pub struct NewPlayerMessage {
    pub conn_id: u128,
    pub player: Player,
}

/// Asks the keeper of the players to introduce the players to a
/// connection.
#[derive(Debug, Clone, Copy, PartialEq, Eq, Structural)]
pub struct PlayerReportMessage {
    pub conn_id: u128,
}

/// What the caller is to do for a login, in order.
#[derive(Debug, Clone, PartialEq, Eq)]
pub enum LoginEffect {
    /// Put the operation into the registry's mailbox.
    Messenger(MessengerOperations),
    /// Announce the player to the keeper of the players.
    NewPlayer(NewPlayerMessage),
    /// Ask the block state to report.
    BlockReport(ReportMessage),
    /// Ask the keeper of the players to report.
    PlayerReport(PlayerReportMessage),
    /// Ask the patchwork to report.
    PatchworkReport,
}

/// The player is the one who has just logged in under this name: it
/// stands at the starting place, looks straight ahead, and has no entity
/// id yet.
pub open spec fn is_newcomer(player: Player, conn_id: u128, uuid: u128, name: Seq<char>) -> bool {
    &&& player.conn_id == conn_id
    &&& player.uuid == uuid
    &&& player.name@ == name
    &&& player.entity_id == 0
    &&& player.position == (Place { x: FIVE, y: SIXTEEN, z: FIVE })
    &&& player.angle == (Angle { pitch: 0, yaw: 0 })
}

/// The message sends the confirmation of a login to the connection: the
/// text form of the player's identifier, and the player's name.
pub open spec fn is_login_success(
    send: SendPacketMessage,
    conn_id: u128,
    uuid: u128,
    name: Seq<char>,
) -> bool {
    &&& send.conn_id == conn_id
    &&& send.packet matches Packet::LoginSuccess(p)
    &&& p.uuid@ == hyphenated(uuid)
    &&& p.username@ == name
}

/// The effects are those of a login, in order: the login is confirmed to
/// the player, the player is announced, the block state is asked to
/// report, the connection joins the subscribers of every broadcast, and
/// the keeper of the players and the patchwork are asked to report.
pub open spec fn confirms_login(
    effects: Seq<LoginEffect>,
    conn_id: u128,
    uuid: u128,
    name: Seq<char>,
) -> bool {
    &&& effects.len() == 6
    &&& effects[0] matches LoginEffect::Messenger(MessengerOperations::Send(send))
    &&& is_login_success(send, conn_id, uuid, name)
    &&& effects[1] matches LoginEffect::NewPlayer(announced)
    &&& announced.conn_id == conn_id
    &&& is_newcomer(announced.player, conn_id, uuid, name)
    &&& effects[2] == LoginEffect::BlockReport(ReportMessage { conn_id })
    &&& effects[3] == LoginEffect::Messenger(
        MessengerOperations::Subscribe(SubscribeMessage { conn_id, typ: SubscriberType::All }),
    )
    &&& effects[4] == LoginEffect::PlayerReport(PlayerReportMessage { conn_id })
    &&& effects[5] == LoginEffect::PatchworkReport
}

/// Confirms the login to the player.
pub fn login_success(conn_id: u128, player: Player) -> (send: SendPacketMessage)
    ensures
        is_login_success(send, conn_id, player.uuid, player.name@),
{
    let login_success = LoginSuccess { uuid: hyphenated_text(player.uuid), username: player.name };
    SendPacketMessage { conn_id, packet: Packet::LoginSuccess(login_success) }
}

/// What a login does, for a player with the given identifier.
pub fn confirm_login_as(conn_id: u128, login_start: LoginStart, uuid: u128) -> (effects: Vec<
    LoginEffect,
>)
    ensures
        confirms_login(effects@, conn_id, uuid, login_start.username@),
{
    let name = login_start.username;
    let player = Player {
        conn_id,
        uuid,
        name: name.clone(),
        entity_id: 0,
        position: Place { x: FIVE, y: SIXTEEN, z: FIVE },
        angle: Angle { pitch: 0, yaw: 0 },
    };
    let confirmed = Player {
        conn_id,
        uuid,
        name,
        entity_id: 0,
        position: Place { x: FIVE, y: SIXTEEN, z: FIVE },
        angle: Angle { pitch: 0, yaw: 0 },
    };
    let mut effects: Vec<LoginEffect> = Vec::new();
    effects.push(
        LoginEffect::Messenger(MessengerOperations::Send(login_success(conn_id, confirmed))),
    );
    effects.push(LoginEffect::NewPlayer(NewPlayerMessage { conn_id, player }));
    effects.push(LoginEffect::BlockReport(ReportMessage { conn_id }));
    effects.push(
        LoginEffect::Messenger(
            MessengerOperations::Subscribe(SubscribeMessage { conn_id, typ: SubscriberType::All }),
        ),
    );
    effects.push(LoginEffect::PlayerReport(PlayerReportMessage { conn_id }));
    effects.push(LoginEffect::PatchworkReport);
    effects
}

/// What a login does. The player gets a fresh identifier.
pub fn confirm_login(conn_id: u128, login_start: LoginStart) -> (effects: Vec<LoginEffect>)
    ensures
        exists|uuid: u128|
            is_random_id(uuid) && #[trigger] confirms_login(
                effects@,
                conn_id,
                uuid,
                login_start.username@,
            ),
{
    let uuid: u128 = fresh_id();
    confirm_login_as(conn_id, login_start, uuid)
}

/// Handles the packet that starts a login: the login is confirmed and the
/// connection goes over to play.
pub fn handle_login_packet(p: Packet, conn_id: u128) -> (r: (Vec<LoginEffect>, TranslationUpdates))
    requires
        p is LoginStart,
    ensures
        r.1 == TranslationUpdates::State(PLAY_STATE),
        exists|uuid: u128|
            is_random_id(uuid) && #[trigger] confirms_login(
                r.0@,
                conn_id,
                uuid,
                p->LoginStart_0.username@,
            ),
{
    let effects = match p {
        Packet::LoginStart(login_start) => confirm_login(conn_id, login_start),
        _ => Vec::new(),
    };
    let r = (effects, TranslationUpdates::State(PLAY_STATE));
    assert(r.0@ == effects@);
    r
}

} // verus!
