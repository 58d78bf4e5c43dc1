//! The client's side of the protocol: the handshake, the moves, and the
//! latest snapshot.
//!
//! The client proper only reads keys, receives, sends and draws. It tells a
//! [`Client`] what happened and does what the answer says. A client goes
//! from `Disconnected` through `Connecting` to `Playing`, whether or not the
//! handshake is acknowledged, and ends in `Quitting`; nothing is sent to the
//! server when it quits.

use vstd::prelude::*;
use crate::codec::{
    ack_of, ack_text, command_text, decode_server_message, is_ack, is_snapshot, snapshot_of,
    snapshot_text, Command, Payload, ServerMessage,
};
use crate::codec_laws::{
    lemma_ack_round_trip, lemma_snapshot_is_recognized, lemma_snapshot_round_trip,
};
use crate::error::GameError;
use crate::sender::{ReliableSender, Retry};
use crate::session::Endpoint;
use crate::types::{Direction, Snapshot, SnapshotView};

verus! {

/// The port that the server listens on.
pub const SERVER_PORT: u16 = 8080;

/// The port of the client with player number 1; each further client has the
/// next port.
pub const CLIENT_BASE_PORT: u16 = 8081;

/// The address `127.0.0.1` as a number.
pub const LOOPBACK: u32 = 2130706433;

/// The highest player number.
pub const PLAYER_NUMBERS: u16 = 3;

/// Where a client stands in its life.
#[derive(Clone, Copy, Debug, PartialEq, Eq, Structural)]
pub enum ClientPhase {
    /// Nothing was sent yet.
    Disconnected,
    /// The handshake is on its way.
    Connecting,
    /// Moves are taken and snapshots shown.
    Playing,
    /// The player has quit. Nothing happens any more.
    Quitting,
}

/// What a key asks for.
#[derive(Clone, Copy, Debug, PartialEq, Eq, Structural)]
pub enum KeyIntent {
    /// Leave the game.
    Quit,
    /// Take one step.
    Move(Direction),
    /// Nothing: the key has no meaning.
    Ignore,
}

/// What a datagram meant to the client.
#[derive(Clone, Copy, Debug, PartialEq, Eq, Structural)]
pub enum Received {
    /// The acknowledgment that was awaited: the send has succeeded.
    Acknowledged,
    /// A snapshot, which is now the latest one.
    Updated,
    /// Nothing: the datagram was no snapshot and not the awaited
    /// acknowledgment, or the client has quit.
    Ignored,
}

/// What the client proper is to do after a key.
#[derive(Clone, Debug, PartialEq, Eq)]
pub enum KeyAction {
    /// Send these bytes and wait for the acknowledgment.
    Send(Vec<u8>),
    /// Leave the game.
    Quit,
    /// Nothing.
    Nothing,
}

/// What the key `key` asks for: `q` quits, and `w`, `a`, `s` and `d` step
/// up, left, down and right. No other key means anything.
pub open spec fn intent_of(key: char) -> KeyIntent {
    if key == 'q' {
        KeyIntent::Quit
    } else if key == 'w' {
        KeyIntent::Move(Direction::Up)
    } else if key == 'a' {
        KeyIntent::Move(Direction::Left)
    } else if key == 's' {
        KeyIntent::Move(Direction::Down)
    } else if key == 'd' {
        KeyIntent::Move(Direction::Right)
    } else {
        KeyIntent::Ignore
    }
}

/// Tells what a key asks for.
pub fn key_intent(key: char) -> (intent: KeyIntent)
    ensures
        intent == intent_of(key),
{
    if key == 'q' {
        KeyIntent::Quit
    } else if key == 'w' {
        KeyIntent::Move(Direction::Up)
    } else if key == 'a' {
        KeyIntent::Move(Direction::Left)
    } else if key == 's' {
        KeyIntent::Move(Direction::Down)
    } else if key == 'd' {
        KeyIntent::Move(Direction::Right)
    } else {
        KeyIntent::Ignore
    }
}

/// The endpoint of the server.
pub fn server_endpoint() -> (endpoint: Endpoint)
    ensures
        endpoint == (Endpoint { host: LOOPBACK, port: SERVER_PORT }),
{
    Endpoint { host: LOOPBACK, port: SERVER_PORT }
}

/// The endpoint that the client with this player number binds. Player
/// numbers run from 1 to `PLAYER_NUMBERS`; any other number gives `None`.
pub fn client_endpoint(player_number: u16) -> (endpoint: Option<Endpoint>)
    ensures
        endpoint == if 1 <= player_number <= PLAYER_NUMBERS {
            Some(
                Endpoint {
                    host: LOOPBACK,
                    port: (CLIENT_BASE_PORT + player_number - 1) as u16,
                },
            )
        } else {
            None
        },
{
    if 1 <= player_number && player_number <= PLAYER_NUMBERS {
        Some(Endpoint { host: LOOPBACK, port: CLIENT_BASE_PORT + player_number - 1 })
    } else {
        None
    }
}

/// The mathematical content of a [`Client`].
pub ghost struct ClientView {
    pub phase: ClientPhase,
    pub sender: ReliableSender,
    pub latest: SnapshotView,
}

impl ClientView {
    /// The client after it was started: the handshake is on its way. Only a
    /// disconnected client can be started.
    pub open spec fn started(self) -> ClientView {
        if self.phase == ClientPhase::Disconnected {
            ClientView {
                phase: ClientPhase::Connecting,
                sender: self.sender.begun(Payload::Connect),
                ..self
            }
        } else {
            self
        }
    }

    /// The phase after the send that was under way has ended, in success or
    /// in failure: a client that was connecting is playing now.
    pub open spec fn after_send(self) -> ClientPhase {
        if self.phase == ClientPhase::Connecting {
            ClientPhase::Playing
        } else {
            self.phase
        }
    }

    /// What a datagram means to the client.
    pub open spec fn meaning(self, bytes: Seq<u8>) -> Received {
        if self.phase == ClientPhase::Quitting {
            Received::Ignored
        } else if is_ack(bytes) {
            if self.sender.awaits(ack_of(bytes)->Some_0) {
                Received::Acknowledged
            } else {
                Received::Ignored
            }
        } else if is_snapshot(bytes) {
            Received::Updated
        } else {
            Received::Ignored
        }
    }

    /// The client after a datagram came in. The awaited acknowledgment ends
    /// the send; a snapshot takes the place of the latest one; anything else
    /// changes nothing.
    pub open spec fn received(self, bytes: Seq<u8>) -> ClientView {
        match self.meaning(bytes) {
            Received::Acknowledged => ClientView {
                phase: self.after_send(),
                sender: self.sender.acknowledged(ack_of(bytes)->Some_0),
                ..self
            },
            Received::Updated => ClientView { latest: snapshot_of(bytes)->Ok_0, ..self },
            Received::Ignored => self,
        }
    }

    /// The client after a wait for an acknowledgment ran out, `elapsed_ms`
    /// milliseconds after the command was first sent. When the command is
    /// given up, a client that was connecting is playing all the same.
    pub open spec fn timed_out(self, elapsed_ms: u64) -> ClientView {
        if self.phase == ClientPhase::Quitting {
            self
        } else {
            match self.sender.pending {
                Some(pending) => ClientView {
                    phase: if pending.retries(elapsed_ms) {
                        self.phase
                    } else {
                        self.after_send()
                    },
                    sender: self.sender.timed_out(elapsed_ms),
                    ..self
                },
                None => self,
            }
        }
    }

    /// Whether a key with this intent makes the client send a move: the
    /// client is playing and no command awaits its acknowledgment.
    pub open spec fn sends_move(self, intent: KeyIntent) -> bool {
        intent is Move && self.phase == ClientPhase::Playing && self.sender.is_idle()
    }

    /// The client after a key. Quitting ends everything. A move is taken on
    /// while the client is playing and no other command is on its way, and
    /// is lost otherwise.
    pub open spec fn pressed(self, intent: KeyIntent) -> ClientView {
        match intent {
            KeyIntent::Quit => ClientView { phase: ClientPhase::Quitting, ..self },
            KeyIntent::Move(direction) => {
                if self.sends_move(intent) {
                    ClientView { sender: self.sender.begun(Payload::Move(direction)), ..self }
                } else {
                    self
                }
            },
            KeyIntent::Ignore => self,
        }
    }
}

/// The state of a client.
pub struct Client {
    phase: ClientPhase,
    sender: ReliableSender,
    latest: Snapshot,
}

impl View for Client {
    type V = ClientView;

    closed spec fn view(&self) -> ClientView {
        ClientView { phase: self.phase, sender: self.sender, latest: self.latest@ }
    }
}

impl Client {
    /// A client that has done nothing yet. Until the first snapshot comes in
    /// it shows an empty world with sixty seconds on the clock.
    pub fn new() -> (client: Client)
        ensures
            client@.phase == ClientPhase::Disconnected,
            client@.sender.is_idle(),
            client@.sender.next_sequence == 1,
            client@.latest == (SnapshotView {
                time_remaining: 60,
                players: Seq::empty(),
                treasures: Seq::empty(),
                traps: Seq::empty(),
            }),
    {
        Client {
            phase: ClientPhase::Disconnected,
            sender: ReliableSender::new(),
            latest: Snapshot::empty(60),
        }
    }

    /// Where the client stands in its life.
    pub fn phase(&self) -> (phase: ClientPhase)
        ensures
            phase == self@.phase,
    {
        self.phase
    }

    /// The state of the sender.
    pub fn sender(&self) -> (sender: ReliableSender)
        ensures
            sender == self@.sender,
    {
        self.sender
    }

    /// Whether a command awaits its acknowledgment.
    pub fn is_waiting(&self) -> (waiting: bool)
        ensures
            waiting == !self@.sender.is_idle(),
    {
        self.sender.is_waiting()
    }

    /// The latest snapshot, for drawing.
    pub fn latest(&self) -> (snapshot: &Snapshot)
        ensures
            snapshot@ == self@.latest,
    {
        &self.latest
    }

    /// Starts the client and hands out the handshake to send. A client that
    /// was started before gives `None` and stays as it is.
    pub fn start(&mut self) -> (packet: Option<Vec<u8>>)
        ensures
            final(self)@ == old(self)@.started(),
            packet is Some == (old(self)@.phase == ClientPhase::Disconnected && old(
                self,
            )@.sender.is_idle()),
            packet matches Some(bytes) ==> bytes@ == command_text(
                Command { sequence: old(self)@.sender.next_sequence, payload: Payload::Connect },
            ),
    {
        match self.phase {
            ClientPhase::Disconnected => {
                self.phase = ClientPhase::Connecting;
                self.sender.begin(Payload::Connect)
            },
            _ => None,
        }
    }

    /// Takes in a datagram and tells what it meant.
    pub fn on_datagram(&mut self, bytes: &[u8]) -> (received: Received)
        ensures
            received == old(self)@.meaning(bytes@),
            final(self)@ == old(self)@.received(bytes@),
    {
        match self.phase {
            ClientPhase::Quitting => {
                return Received::Ignored;
            },
            _ => {},
        }
        match decode_server_message(bytes) {
            ServerMessage::Ack(sequence) => {
                if self.sender.on_ack(sequence) {
                    match self.phase {
                        ClientPhase::Connecting => {
                            self.phase = ClientPhase::Playing;
                        },
                        _ => {},
                    }
                    Received::Acknowledged
                } else {
                    Received::Ignored
                }
            },
            ServerMessage::Snapshot(snapshot) => {
                self.latest = snapshot;
                Received::Updated
            },
            ServerMessage::Unrecognized => Received::Ignored,
        }
    }

    /// Takes note that a wait for an acknowledgment ran out, `elapsed_ms`
    /// milliseconds after the command was first sent, and says what to do;
    /// see [`ReliableSender::on_timeout`]. A client that has quit does
    /// nothing.
    pub fn on_timeout(&mut self, elapsed_ms: u64) -> (retry: Retry)
        ensures
            final(self)@ == old(self)@.timed_out(elapsed_ms),
            if old(self)@.phase == ClientPhase::Quitting {
                retry == Retry::Idle
            } else {
                match old(self)@.sender.pending {
                    Some(pending) => {
                        if pending.retries(elapsed_ms) {
                            retry matches Retry::Resend(bytes) && bytes@ == command_text(
                                pending.command(),
                            )
                        } else {
                            retry == Retry::GaveUp(GameError::SendTimeout)
                        }
                    },
                    None => retry == Retry::Idle,
                }
            },
    {
        match self.phase {
            ClientPhase::Quitting => {
                return Retry::Idle;
            },
            _ => {},
        }
        let retry: Retry = self.sender.on_timeout(elapsed_ms);
        match retry {
            Retry::GaveUp(_) => {
                match self.phase {
                    ClientPhase::Connecting => {
                        self.phase = ClientPhase::Playing;
                    },
                    _ => {},
                }
            },
            _ => {},
        }
        retry
    }

    /// Takes in a key and says what to do.
    ///
    /// `Quit` ends the client. A move is sent while the client is playing
    /// and no other command is on its way; otherwise the move is lost.
    pub fn on_key(&mut self, intent: KeyIntent) -> (action: KeyAction)
        ensures
            final(self)@ == old(self)@.pressed(intent),
            match intent {
                KeyIntent::Quit => action == KeyAction::Quit,
                KeyIntent::Move(direction) => {
                    if old(self)@.sends_move(intent) {
                        action matches KeyAction::Send(bytes) && bytes@ == command_text(
                            Command {
                                sequence: old(self)@.sender.next_sequence,
                                payload: Payload::Move(direction),
                            },
                        )
                    } else {
                        action == KeyAction::Nothing
                    }
                },
                KeyIntent::Ignore => action == KeyAction::Nothing,
            },
    {
        match intent {
            KeyIntent::Quit => {
                self.phase = ClientPhase::Quitting;
                KeyAction::Quit
            },
            KeyIntent::Move(direction) => {
                match self.phase {
                    ClientPhase::Playing => {
                        match self.sender.begin(Payload::Move(direction)) {
                            Some(bytes) => KeyAction::Send(bytes),
                            None => KeyAction::Nothing,
                        }
                    },
                    _ => KeyAction::Nothing,
                }
            },
            KeyIntent::Ignore => KeyAction::Nothing,
        }
    }
}

/// A client that is connecting ends up playing whether the handshake is
/// acknowledged or given up.
pub proof fn lemma_connecting_leads_to_playing(client: ClientView, bytes: Seq<u8>, elapsed_ms: u64)
    requires
        client.phase == ClientPhase::Connecting,
        client.sender.pending is Some,
    ensures
        client.meaning(bytes) == Received::Acknowledged ==> client.received(bytes).phase
            == ClientPhase::Playing && client.received(bytes).sender.is_idle(),
        !client.sender.pending->Some_0.retries(elapsed_ms) ==> client.timed_out(elapsed_ms).phase
            == ClientPhase::Playing && client.timed_out(elapsed_ms).sender.is_idle(),
        client.sender.pending->Some_0.retries(elapsed_ms) ==> client.timed_out(elapsed_ms).phase
            == ClientPhase::Connecting,
{
}

/// A client that has quit stays that way: no datagram and no timeout changes
/// it, and no key makes it send.
pub proof fn lemma_quitting_is_final(
    client: ClientView,
    bytes: Seq<u8>,
    elapsed_ms: u64,
    intent: KeyIntent,
)
    requires
        client.phase == ClientPhase::Quitting,
    ensures
        client.started() == client,
        client.received(bytes) == client,
        client.timed_out(elapsed_ms) == client,
        client.pressed(intent).phase == ClientPhase::Quitting,
        !client.sends_move(intent),
        client.pressed(intent).sender == client.sender,
{
}

/// At most one command is on its way: a move that is asked for while another
/// command awaits its acknowledgment is lost, and the sequence numbers stay
/// as they are.
pub proof fn lemma_one_command_at_a_time(client: ClientView, direction: Direction)
    requires
        !client.sender.is_idle(),
    ensures
        client.pressed(KeyIntent::Move(direction)) == client,
{
}

/// What the server writes is what the client shows: a client that has not
/// quit and takes in the bytes written for a snapshot holds that snapshot as
/// its latest one.
pub proof fn lemma_written_snapshot_is_shown(client: ClientView, snapshot: SnapshotView)
    requires
        client.phase != ClientPhase::Quitting,
    ensures
        client.meaning(snapshot_text(snapshot)) == Received::Updated,
        client.received(snapshot_text(snapshot)).latest == snapshot,
{
    lemma_snapshot_round_trip(snapshot);
    lemma_snapshot_is_recognized(snapshot);
}

/// What the server writes is what the sender hears: the bytes written to
/// acknowledge the pending sequence number end the send.
pub proof fn lemma_written_ack_is_heard(client: ClientView)
    requires
        client.phase != ClientPhase::Quitting,
        client.sender.pending is Some,
    ensures
        client.meaning(ack_text(client.sender.pending->Some_0.sequence)) == Received::Acknowledged,
        client.received(ack_text(client.sender.pending->Some_0.sequence)).sender.is_idle(),
{
    lemma_ack_round_trip(client.sender.pending->Some_0.sequence);
}

/// The latest snapshot is the last one that came in: a datagram that is a
/// snapshot replaces it whole, and nothing else touches it.
pub proof fn lemma_latest_snapshot(client: ClientView, bytes: Seq<u8>)
    ensures
        client.meaning(bytes) == Received::Updated ==> client.received(bytes).latest
            == snapshot_of(bytes)->Ok_0,
        client.meaning(bytes) != Received::Updated ==> client.received(bytes).latest
            == client.latest,
{
}

} // verus!
