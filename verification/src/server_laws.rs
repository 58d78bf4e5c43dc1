//! What holds of the server whatever arrives: it stays well formed, sessions
//! are for good, and a command that was acknowledged once never acts twice.

use vstd::prelude::*;
use crate::codec::{command_of, command_text, Command, Payload};
use crate::codec_laws::lemma_command_round_trip;
use crate::error::GameError;
use crate::server::ServerView;
use crate::session::{
    admitted, knows, lemma_position_of, player_at, position_of, sessions_wf, Endpoint, Session,
};
use crate::world::MAX_PLAYERS;
use crate::world_laws::{lemma_connect_keeps_wf, lemma_move_keeps_wf, lemma_tick_keeps_wf};

verus! {

/// One thing that can happen to a server.
pub enum ServerEvent {
    /// A datagram arrives.
    Datagram { from: Endpoint, bytes: Seq<u8>, now: u64 },
    /// A second passes.
    Tick,
}

/// The server after one event.
pub open spec fn after(server: ServerView, event: ServerEvent) -> ServerView {
    match event {
        ServerEvent::Datagram { from, bytes, now } => server.handle(from, bytes, now),
        ServerEvent::Tick => server.tick(),
    }
}

/// The server after a run of events, the first of them first.
pub open spec fn after_all(server: ServerView, events: Seq<ServerEvent>) -> ServerView
    decreases events.len(),
{
    if events.len() == 0 {
        server
    } else {
        after(after_all(server, events.drop_last()), events.last())
    }
}

/// Whether `later` has kept every session of `earlier`: at the same place,
/// for the same endpoint and player, with a last accepted sequence number
/// that is no lower.
pub open spec fn keeps_sessions(earlier: Seq<Session>, later: Seq<Session>) -> bool {
    &&& later.len() >= earlier.len()
    &&& forall|i: int|
        0 <= i < earlier.len() ==> {
            &&& (#[trigger] later[i]).endpoint == earlier[i].endpoint
            &&& later[i].player_id == earlier[i].player_id
            &&& later[i].filter.last_accepted >= earlier[i].filter.last_accepted
        }
}

/// A command that is acknowledged leaves the server well formed and keeps
/// every session.
pub proof fn lemma_carry_out(server: ServerView, from: Endpoint, command: Command, now: u64)
    requires
        server.wf(),
        server.answer(from, command) is Ok,
    ensures
        server.carry_out(from, command, now).wf(),
        keeps_sessions(server.sessions, server.carry_out(from, command, now).sessions),
        knows(server.carry_out(from, command, now).sessions, from),
{
    let next = server.carry_out(from, command, now);
    match command.payload {
        Payload::Connect => {
            let sessions = admitted(server.sessions, from, now);
            if knows(server.sessions, from) {
                let k = position_of(server.sessions, from);
                assert(next.sessions[k].endpoint == from);
            } else {
                lemma_connect_keeps_wf(server.world);
                let last = sessions.len() - 1;
                assert(sessions[last].endpoint == from);
                assert forall|i: int, j: int|
                    0 <= i < sessions.len() && 0 <= j < sessions.len() && i != j implies (
                #[trigger] sessions[i]).endpoint != (#[trigger] sessions[j]).endpoint by {
                    if i < last {
                        assert(sessions[i] == server.sessions[i]);
                    }
                    if j < last {
                        assert(sessions[j] == server.sessions[j]);
                    }
                }
                assert(sessions_wf(sessions));
                lemma_position_of(sessions, from, last);
                assert(next.sessions[last].endpoint == from);
            }
        },
        Payload::Move(direction) => {
            let k = position_of(server.sessions, from);
            let id = server.sessions[k].player_id;
            lemma_move_keeps_wf(server.world, id, direction);
            assert(next.sessions[k].endpoint == from);
        },
        Payload::Other => {
            let k = position_of(server.sessions, from);
            assert(next.sessions[k].endpoint == from);
        },
    }
}

/// A datagram leaves the server well formed and keeps every session.
pub proof fn lemma_handle(server: ServerView, from: Endpoint, bytes: Seq<u8>, now: u64)
    requires
        server.wf(),
    ensures
        server.handle(from, bytes, now).wf(),
        keeps_sessions(server.sessions, server.handle(from, bytes, now).sessions),
        server.outcome(from, bytes) is Err ==> server.handle(from, bytes, now) == server,
{
    match command_of(bytes) {
        Ok(command) => {
            if server.answer(from, command) is Ok {
                lemma_carry_out(server, from, command, now);
            }
        },
        Err(_) => {},
    }
}

/// Whatever arrives, the server stays well formed and keeps every session.
pub proof fn lemma_history(server: ServerView, events: Seq<ServerEvent>)
    requires
        server.wf(),
    ensures
        after_all(server, events).wf(),
        keeps_sessions(server.sessions, after_all(server, events).sessions),
    decreases events.len(),
{
    if events.len() > 0 {
        let before = after_all(server, events.drop_last());
        lemma_history(server, events.drop_last());
        match events.last() {
            ServerEvent::Datagram { from, bytes, now } => {
                lemma_handle(before, from, bytes, now);
            },
            ServerEvent::Tick => {
                lemma_tick_keeps_wf(before.world);
            },
        }
    }
}

/// Once an endpoint has a session it keeps its player, whatever arrives.
pub proof fn lemma_identity_is_stable(
    server: ServerView,
    endpoint: Endpoint,
    events: Seq<ServerEvent>,
)
    requires
        server.wf(),
        knows(server.sessions, endpoint),
    ensures
        player_at(after_all(server, events).sessions, endpoint) == player_at(
            server.sessions,
            endpoint,
        ),
{
    let later = after_all(server, events);
    let k = position_of(server.sessions, endpoint);
    lemma_history(server, events);
    lemma_position_of(server.sessions, endpoint, k);
    assert(later.sessions[k].endpoint == endpoint);
    lemma_position_of(later.sessions, endpoint, k);
}

/// A handshake from an endpoint that has a session changes neither the world
/// nor who plays as whom: no second player is created.
pub proof fn lemma_connect_is_idempotent(
    server: ServerView,
    from: Endpoint,
    command: Command,
    now: u64,
)
    requires
        server.wf(),
        command.payload == Payload::Connect,
        knows(server.sessions, from),
    ensures
        server.answer(from, command) == Ok::<u32, GameError>(command.sequence),
        server.carry_out(from, command, now).world == server.world,
        server.carry_out(from, command, now).sessions.len() == server.sessions.len(),
        player_at(server.carry_out(from, command, now).sessions, from) == player_at(
            server.sessions,
            from,
        ),
{
    let k = position_of(server.sessions, from);
    let next = server.carry_out(from, command, now);
    lemma_carry_out(server, from, command, now);
    lemma_position_of(server.sessions, from, k);
    assert(next.sessions[k].endpoint == from);
    lemma_position_of(next.sessions, from, k);
}

/// When every place is taken, a handshake from an endpoint without a session
/// is dropped: it is not acknowledged and nothing changes.
pub proof fn lemma_full_house(server: ServerView, from: Endpoint, bytes: Seq<u8>, now: u64)
    requires
        server.wf(),
        server.sessions.len() == MAX_PLAYERS,
        !knows(server.sessions, from),
        command_of(bytes) matches Ok(command) && command.payload == Payload::Connect,
    ensures
        server.outcome(from, bytes) == Err::<u32, GameError>(GameError::CapacityExceeded),
        server.handle(from, bytes, now) == server,
{
}

/// A datagram that was acknowledged never acts twice. Whatever arrives after
/// it, the same datagram from the same endpoint leaves the world as it is;
/// unless it is a handshake, it is dropped as a duplicate and leaves the
/// whole server as it is.
pub proof fn lemma_resend_changes_nothing(
    server: ServerView,
    from: Endpoint,
    bytes: Seq<u8>,
    now: u64,
    events: Seq<ServerEvent>,
    again: u64,
)
    requires
        server.wf(),
        server.outcome(from, bytes) is Ok,
    ensures
        ({
            let later = after_all(server.handle(from, bytes, now), events);
            &&& later.handle(from, bytes, again).world == later.world
            &&& command_of(bytes)->Ok_0.payload != Payload::Connect ==> {
                &&& later.outcome(from, bytes) == Err::<u32, GameError>(
                    GameError::DuplicateOrStale,
                )
                &&& later.handle(from, bytes, again) == later
            }
        }),
{
    let command = command_of(bytes)->Ok_0;
    let first = server.handle(from, bytes, now);
    let later = after_all(first, events);
    lemma_carry_out(server, from, command, now);
    lemma_history(first, events);
    let k = position_of(first.sessions, from);
    lemma_position_of(first.sessions, from, k);
    assert(later.sessions[k].endpoint == from);
    lemma_position_of(later.sessions, from, k);
    match command.payload {
        Payload::Connect => {
            lemma_connect_is_idempotent(later, from, command, again);
        },
        _ => {
            let before = position_of(server.sessions, from);
            lemma_position_of(server.sessions, from, before);
            assert(first.sessions[before].endpoint == from);
            assert(before == k);
            assert(first.sessions[k].filter.last_accepted == command.sequence);
            assert(later.sessions[k].filter.last_accepted >= command.sequence);
        },
    }
}

/// What a client writes is what the server reads: the datagram that
/// `encode_command` makes of a command is answered as that command.
pub proof fn lemma_written_command_is_answered(server: ServerView, from: Endpoint, command: Command)
    ensures
        server.outcome(from, command_text(command)) == server.answer(from, command),
{
    lemma_command_round_trip(command);
}

} // verus!
