//! The server's side of the protocol: what one datagram does to the game and
//! what goes back out.
//!
//! The server proper only receives and sends. For each datagram it asks
//! [`Server::handle_datagram`] what to do, sends the acknowledgment if there
//! is one, and sends the snapshot to every recipient. A datagram that cannot
//! be read, comes from a stranger, repeats an old sequence number or asks for
//! a place when none is left changes nothing and is not acknowledged; the
//! snapshot goes out all the same.

use vstd::prelude::*;
use crate::codec::{
    ack_text, command_of, decode_command, encode_ack, encode_snapshot, snapshot_text, Command,
    Payload,
};
use crate::error::GameError;
use crate::session::{
    admitted, endpoints_of, knows, offered, player_at, position_of, sessions_wf, touched,
    Endpoint, Session, SessionManager,
};
use crate::types::Snapshot;
use crate::world::{starting_world, GameWorld, WorldView, MAX_PLAYERS};

verus! {

/// The mathematical content of a [`Server`]: the world and the sessions.
pub ghost struct ServerView {
    pub world: WorldView,
    pub sessions: Seq<Session>,
}

impl ServerView {
    /// What always holds of a server: the world and the sessions are well
    /// formed, and there is one session for each player.
    pub open spec fn wf(self) -> bool {
        &&& self.world.wf()
        &&& sessions_wf(self.sessions)
        &&& self.sessions.len() == self.world.players.len()
    }

    /// What the server answers to a command from `from`: `Ok` with the
    /// sequence number to acknowledge, or the reason for which the command
    /// is dropped.
    ///
    /// A handshake is acknowledged when the endpoint has a session or can get
    /// one. Any other command is acknowledged when the endpoint has a session
    /// and the sequence number is above the last one accepted from it.
    pub open spec fn answer(self, from: Endpoint, command: Command) -> Result<u32, GameError> {
        match command.payload {
            Payload::Connect => {
                if knows(self.sessions, from) || self.sessions.len() < MAX_PLAYERS {
                    Ok(command.sequence)
                } else {
                    Err(GameError::CapacityExceeded)
                }
            },
            _ => {
                match player_at(self.sessions, from) {
                    None => Err(GameError::UnknownSender),
                    Some(id) => {
                        if self.sessions[id - 1].filter.admits(command.sequence) {
                            Ok(command.sequence)
                        } else {
                            Err(GameError::DuplicateOrStale)
                        }
                    },
                }
            },
        }
    }

    /// The server after a command from `from` that it acknowledges.
    ///
    /// A handshake gives the endpoint a session and a player, unless it has
    /// them. Any other command raises the last accepted sequence number of
    /// the session; a move also moves the player. In each case the session
    /// is marked as heard of at `now`.
    pub open spec fn carry_out(self, from: Endpoint, command: Command, now: u64) -> ServerView {
        match command.payload {
            Payload::Connect => {
                let sessions = admitted(self.sessions, from, now);
                let world = if knows(self.sessions, from) {
                    self.world
                } else {
                    self.world.connect()
                };
                let id = sessions[position_of(sessions, from)].player_id;
                ServerView { world, sessions: touched(sessions, id, now) }
            },
            Payload::Move(direction) => {
                let id = self.sessions[position_of(self.sessions, from)].player_id;
                ServerView {
                    world: self.world.apply_move(id, direction),
                    sessions: touched(offered(self.sessions, id, command.sequence), id, now),
                }
            },
            Payload::Other => {
                let id = self.sessions[position_of(self.sessions, from)].player_id;
                ServerView {
                    world: self.world,
                    sessions: touched(offered(self.sessions, id, command.sequence), id, now),
                }
            },
        }
    }

    /// What the server answers to a datagram from `from`.
    pub open spec fn outcome(self, from: Endpoint, bytes: Seq<u8>) -> Result<u32, GameError> {
        match command_of(bytes) {
            Ok(command) => self.answer(from, command),
            Err(error) => Err(error),
        }
    }

    /// The server after a datagram from `from` that arrived at `now`: as
    /// before when the datagram is dropped, and with the command carried out
    /// when it is acknowledged.
    pub open spec fn handle(self, from: Endpoint, bytes: Seq<u8>, now: u64) -> ServerView {
        match command_of(bytes) {
            Ok(command) => {
                if self.answer(from, command) is Ok {
                    self.carry_out(from, command, now)
                } else {
                    self
                }
            },
            Err(_) => self,
        }
    }

    /// The server one second later.
    pub open spec fn tick(self) -> ServerView {
        ServerView { world: self.world.tick(), ..self }
    }
}

/// What the server is to send after a datagram.
#[derive(Debug)]
pub struct Reply {
    /// The sequence number that is acknowledged, or why the datagram was
    /// dropped.
    pub outcome: Result<u32, GameError>,
    /// The acknowledgment for the sender of the datagram, if there is one.
    pub ack: Option<Vec<u8>>,
    /// The snapshot of the world after the datagram.
    pub snapshot: Vec<u8>,
    /// Where the snapshot goes: the endpoint of every session.
    pub recipients: Vec<Endpoint>,
}

/// The game as the server holds it: the world and the sessions.
pub struct Server {
    world: GameWorld,
    sessions: SessionManager,
}

impl View for Server {
    type V = ServerView;

    closed spec fn view(&self) -> ServerView {
        ServerView { world: self.world@, sessions: self.sessions@ }
    }
}

impl Server {
    /// A server with the world every game starts from and no sessions.
    pub fn new() -> (server: Server)
        ensures
            server@.wf(),
            server@ == (ServerView { world: starting_world(), sessions: Seq::<Session>::empty() }),
    {
        Server { world: GameWorld::new(), sessions: SessionManager::new() }
    }

    /// A server that starts from `world`, which nobody plays in yet.
    pub fn with_world(world: GameWorld) -> (server: Server)
        requires
            world@.wf(),
            world@.players.len() == 0,
        ensures
            server@.wf(),
            server@ == (ServerView { world: world@, sessions: Seq::<Session>::empty() }),
    {
        Server { world, sessions: SessionManager::new() }
    }

    /// The world as it is now.
    pub fn world(&self) -> (world: &GameWorld)
        ensures
            world@ == self@.world,
    {
        &self.world
    }

    /// The sessions as they are now.
    pub fn sessions(&self) -> (sessions: &SessionManager)
        ensures
            sessions@ == self@.sessions,
    {
        &self.sessions
    }

    /// Takes in one datagram from `from` that arrived at `now` and says what
    /// is to be sent.
    ///
    /// The datagram is acknowledged exactly when `outcome` is `Ok`; the
    /// acknowledgment then carries the sequence number of the command. The
    /// snapshot is that of the world after the datagram, whether or not the
    /// datagram changed anything, and goes to every endpoint that has a
    /// session then.
    pub fn handle_datagram(&mut self, from: Endpoint, bytes: &[u8], now: u64) -> (reply: Reply)
        requires
            old(self)@.wf(),
        ensures
            final(self)@.wf(),
            final(self)@ == old(self)@.handle(from, bytes@, now),
            reply.outcome == old(self)@.outcome(from, bytes@),
            match reply.outcome {
                Ok(sequence) => reply.ack matches Some(ack) && ack@ == ack_text(sequence),
                Err(_) => reply.ack is None,
            },
            reply.snapshot@ == snapshot_text(final(self)@.world.snapshot()),
            reply.recipients@ == endpoints_of(final(self)@.sessions),
    {
        let outcome: Result<u32, GameError> = match decode_command(bytes) {
            Ok(command) => self.execute(from, command, now),
            Err(error) => Err(error),
        };
        let ack: Option<Vec<u8>> = match outcome {
            Ok(sequence) => Some(encode_ack(sequence)),
            Err(_) => None,
        };
        let snapshot: Snapshot = self.world.snapshot();
        Reply {
            outcome,
            ack,
            snapshot: encode_snapshot(&snapshot),
            recipients: self.sessions.endpoints(),
        }
    }

    /// Carries out a command from `from` that arrived at `now`, if it is to
    /// be acknowledged, and says which sequence number to acknowledge or why
    /// the command is dropped.
    pub fn execute(&mut self, from: Endpoint, command: Command, now: u64) -> (outcome: Result<
        u32,
        GameError,
    >)
        requires
            old(self)@.wf(),
        ensures
            final(self)@.wf(),
            outcome == old(self)@.answer(from, command),
            final(self)@ == if outcome is Ok {
                old(self)@.carry_out(from, command, now)
            } else {
                old(self)@
            },
    {
        match command.payload {
            Payload::Connect => {
                match self.sessions.admit_endpoint(&mut self.world, from, now) {
                    Ok(id) => {
                        proof {
                            let sessions = admitted(old(self)@.sessions, from, now);
                            if knows(old(self)@.sessions, from) {
                            } else {
                                let last = sessions.len() - 1;
                                assert(sessions[last].endpoint == from);
                                crate::session::lemma_position_of(sessions, from, last);
                            }
                        }
                        self.sessions.touch(id, now);
                        Ok(command.sequence)
                    },
                    Err(error) => Err(error),
                }
            },
            Payload::Move(direction) => {
                match self.sessions.lookup(from) {
                    None => Err(GameError::UnknownSender),
                    Some(id) => {
                        if self.sessions.accept(id, command.sequence) {
                            self.sessions.touch(id, now);
                            self.world.apply_move(id, direction);
                            Ok(command.sequence)
                        } else {
                            proof {
                                assert(self.sessions@ =~= old(self)@.sessions);
                            }
                            Err(GameError::DuplicateOrStale)
                        }
                    },
                }
            },
            Payload::Other => {
                match self.sessions.lookup(from) {
                    None => Err(GameError::UnknownSender),
                    Some(id) => {
                        if self.sessions.accept(id, command.sequence) {
                            self.sessions.touch(id, now);
                            Ok(command.sequence)
                        } else {
                            proof {
                                assert(self.sessions@ =~= old(self)@.sessions);
                            }
                            Err(GameError::DuplicateOrStale)
                        }
                    },
                }
            },
        }
    }

    /// Lets one second pass in the world.
    pub fn tick(&mut self)
        requires
            old(self)@.wf(),
        ensures
            final(self)@.wf(),
            final(self)@ == old(self)@.tick(),
    {
        self.world.tick();
    }

    /// The snapshot of the world as it is now, and the endpoints it goes to.
    pub fn broadcast(&self) -> (out: (Vec<u8>, Vec<Endpoint>))
        requires
            self@.wf(),
        ensures
            out.0@ == snapshot_text(self@.world.snapshot()),
            out.1@ == endpoints_of(self@.sessions),
    {
        let snapshot: Snapshot = self.world.snapshot();
        (encode_snapshot(&snapshot), self.sessions.endpoints())
    }
}

} // verus!
