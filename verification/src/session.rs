//! Sessions: which endpoint plays as which player.
//!
//! An endpoint is admitted once and keeps its player identity from then on.
//! The session also carries what the server remembers of the endpoint: the
//! filter that rejects its duplicate and stale commands, and the time at
//! which it was last heard of.

use vstd::prelude::*;
use crate::dedup::DedupFilter;
use crate::error::GameError;
use crate::types::PlayerId;
use crate::world::{GameWorld, MAX_PLAYERS};

verus! {

/// Where datagrams come from and go to: an IPv4 address, as one number, and
/// a port.
#[derive(Clone, Copy, Debug, PartialEq, Eq, Structural)]
pub struct Endpoint {
    pub host: u32,
    pub port: u16,
}

/// What the server keeps of one admitted endpoint.
#[derive(Clone, Copy, Debug, PartialEq, Eq, Structural)]
pub struct Session {
    /// The player that the endpoint plays as.
    pub player_id: PlayerId,
    /// The endpoint.
    pub endpoint: Endpoint,
    /// The highest sequence number accepted from the endpoint.
    pub filter: DedupFilter,
    /// When the endpoint last sent something that was accepted, on the
    /// caller's clock.
    pub last_seen_at: u64,
}

/// Whether `endpoint` has a session.
pub open spec fn knows(sessions: Seq<Session>, endpoint: Endpoint) -> bool {
    exists|i: int| 0 <= i < sessions.len() && (#[trigger] sessions[i]).endpoint == endpoint
}

/// The position of the session of `endpoint`.
pub open spec fn position_of(sessions: Seq<Session>, endpoint: Endpoint) -> int {
    choose|i: int| 0 <= i < sessions.len() && (#[trigger] sessions[i]).endpoint == endpoint
}

/// The player that `endpoint` plays as, if it has a session.
pub open spec fn player_at(sessions: Seq<Session>, endpoint: Endpoint) -> Option<PlayerId> {
    if knows(sessions, endpoint) {
        Some(sessions[position_of(sessions, endpoint)].player_id)
    } else {
        None
    }
}

/// Whether `id` is the identity of a session.
pub open spec fn has_session(sessions: Seq<Session>, id: PlayerId) -> bool {
    1 <= id <= sessions.len()
}

/// What always holds of the sessions: there are at most `MAX_PLAYERS`, the
/// session of player `id` is `sessions[id - 1]`, and no endpoint has two.
pub open spec fn sessions_wf(sessions: Seq<Session>) -> bool {
    &&& sessions.len() <= MAX_PLAYERS
    &&& forall|i: int| 0 <= i < sessions.len() ==> (#[trigger] sessions[i]).player_id == i + 1
    &&& forall|i: int, j: int|
        0 <= i < sessions.len() && 0 <= j < sessions.len() && i != j ==> (#[trigger] sessions[i]).endpoint
            != (#[trigger] sessions[j]).endpoint
}

/// The session that a newly admitted endpoint gets.
pub open spec fn fresh_session(sessions: Seq<Session>, endpoint: Endpoint, now: u64) -> Session {
    Session {
        player_id: (sessions.len() + 1) as PlayerId,
        endpoint,
        filter: DedupFilter { last_accepted: 0 },
        last_seen_at: now,
    }
}

/// The sessions after `endpoint` asked to be admitted: as before when it has
/// a session already or there is no room, and with a fresh session at the end
/// otherwise.
pub open spec fn admitted(sessions: Seq<Session>, endpoint: Endpoint, now: u64) -> Seq<Session> {
    if knows(sessions, endpoint) || sessions.len() >= MAX_PLAYERS {
        sessions
    } else {
        sessions.push(fresh_session(sessions, endpoint, now))
    }
}

/// The sessions after player `id` was heard of at `now`.
pub open spec fn touched(sessions: Seq<Session>, id: PlayerId, now: u64) -> Seq<Session> {
    if has_session(sessions, id) {
        sessions.update(id - 1, Session { last_seen_at: now, ..sessions[id - 1] })
    } else {
        sessions
    }
}

/// The sessions after `sequence` was offered to the filter of player `id`.
pub open spec fn offered(sessions: Seq<Session>, id: PlayerId, sequence: u32) -> Seq<Session> {
    if has_session(sessions, id) {
        sessions.update(
            id - 1,
            Session { filter: sessions[id - 1].filter.offer(sequence), ..sessions[id - 1] },
        )
    } else {
        sessions
    }
}

/// The endpoints of the sessions, in the order of the player identities.
pub open spec fn endpoints_of(sessions: Seq<Session>) -> Seq<Endpoint> {
    Seq::new(sessions.len(), |i: int| sessions[i].endpoint)
}

/// Among well-formed sessions an endpoint is found at one position only.
pub proof fn lemma_position_of(sessions: Seq<Session>, endpoint: Endpoint, i: int)
    requires
        sessions_wf(sessions),
        0 <= i < sessions.len(),
        sessions[i].endpoint == endpoint,
    ensures
        knows(sessions, endpoint),
        position_of(sessions, endpoint) == i,
        player_at(sessions, endpoint) == Some((i + 1) as PlayerId),
{
    let k = position_of(sessions, endpoint);
    assert(sessions[k].endpoint == endpoint);
}

/// The table of sessions.
pub struct SessionManager {
    sessions: Vec<Session>,
}

impl View for SessionManager {
    type V = Seq<Session>;

    closed spec fn view(&self) -> Seq<Session> {
        self.sessions@
    }
}

impl SessionManager {
    /// A table without sessions.
    pub fn new() -> (manager: SessionManager)
        ensures
            manager@ == Seq::<Session>::empty(),
            sessions_wf(manager@),
    {
        SessionManager { sessions: Vec::new() }
    }

    /// How many sessions there are.
    pub fn len(&self) -> (n: usize)
        ensures
            n == self@.len(),
    {
        self.sessions.len()
    }

    /// The player that `endpoint` plays as, if it has a session.
    pub fn lookup(&self, endpoint: Endpoint) -> (id: Option<PlayerId>)
        requires
            sessions_wf(self@),
        ensures
            id == player_at(self@, endpoint),
    {
        let mut i: usize = 0;
        while i < self.sessions.len()
            invariant
                sessions_wf(self@),
                i <= self.sessions@.len(),
                forall|j: int| 0 <= j < i ==> (#[trigger] self.sessions@[j]).endpoint != endpoint,
            decreases self.sessions@.len() - i,
        {
            let session: Session = self.sessions[i];
            if session.endpoint.host == endpoint.host && session.endpoint.port == endpoint.port {
                proof {
                    lemma_position_of(self@, endpoint, i as int);
                }
                return Some(session.player_id);
            }
            i = i + 1;
        }
        None
    }

    /// The session of player `id`, if there is one.
    pub fn session(&self, id: PlayerId) -> (session: Option<Session>)
        ensures
            session == if has_session(self@, id) {
                Some(self@[id - 1])
            } else {
                None
            },
    {
        if id >= 1 && id as usize <= self.sessions.len() {
            Some(self.sessions[(id - 1) as usize])
        } else {
            None
        }
    }

    /// Admits `endpoint` to the game and gives the player it plays as.
    ///
    /// An endpoint that has a session keeps it: it gets the identity it has,
    /// and neither the sessions nor the world change. A new endpoint gets a
    /// session and a player in the world if there is room, and
    /// `CapacityExceeded` if there is none.
    pub fn admit_endpoint(&mut self, world: &mut GameWorld, endpoint: Endpoint, now: u64) -> (result: Result<
        PlayerId,
        GameError,
    >)
        requires
            sessions_wf(old(self)@),
            old(world)@.wf(),
            old(self)@.len() == old(world)@.players.len(),
        ensures
            sessions_wf(final(self)@),
            final(world)@.wf(),
            final(self)@.len() == final(world)@.players.len(),
            final(self)@ == admitted(old(self)@, endpoint, now),
            final(world)@ == if knows(old(self)@, endpoint) {
                old(world)@
            } else {
                old(world)@.connect()
            },
            result == if knows(old(self)@, endpoint) {
                Ok::<PlayerId, GameError>(old(self)@[position_of(old(self)@, endpoint)].player_id)
            } else if old(self)@.len() < MAX_PLAYERS {
                Ok::<PlayerId, GameError>((old(self)@.len() + 1) as PlayerId)
            } else {
                Err::<PlayerId, GameError>(GameError::CapacityExceeded)
            },
    {
        match self.lookup(endpoint) {
            Some(id) => Ok(id),
            None => {
                match world.apply_connect() {
                    Ok(id) => {
                        let session: Session = Session {
                            player_id: id,
                            endpoint,
                            filter: DedupFilter::new(),
                            last_seen_at: now,
                        };
                        self.sessions.push(session);
                        proof {
                            let old_sessions = old(self)@;
                            let new_sessions = self@;
                            assert(session == fresh_session(old_sessions, endpoint, now));
                            assert forall|i: int, j: int|
                                0 <= i < new_sessions.len() && 0 <= j < new_sessions.len() && i
                                    != j implies (#[trigger] new_sessions[i]).endpoint
                                != (#[trigger] new_sessions[j]).endpoint by {
                                if i < old_sessions.len() {
                                    assert(new_sessions[i] == old_sessions[i]);
                                }
                                if j < old_sessions.len() {
                                    assert(new_sessions[j] == old_sessions[j]);
                                }
                            }
                        }
                        Ok(id)
                    },
                    Err(error) => Err(error),
                }
            },
        }
    }

    /// Offers `sequence` to the filter of player `id` and tells whether it
    /// was accepted. Without such a player nothing is accepted.
    pub fn accept(&mut self, id: PlayerId, sequence: u32) -> (accepted: bool)
        requires
            sessions_wf(old(self)@),
        ensures
            sessions_wf(final(self)@),
            accepted == (has_session(old(self)@, id) && old(self)@[id - 1].filter.admits(sequence)),
            final(self)@ == offered(old(self)@, id, sequence),
    {
        if id == 0 || id as usize > self.sessions.len() {
            return false;
        }
        let index: usize = (id - 1) as usize;
        let mut session: Session = self.sessions[index];
        let accepted: bool = session.filter.accept(sequence);
        self.sessions.set(index, session);
        proof {
            assert(self@ =~= offered(old(self)@, id, sequence));
        }
        accepted
    }

    /// Notes that player `id` was heard of at `now`.
    pub fn touch(&mut self, id: PlayerId, now: u64)
        requires
            sessions_wf(old(self)@),
        ensures
            sessions_wf(final(self)@),
            final(self)@ == touched(old(self)@, id, now),
    {
        if id == 0 || id as usize > self.sessions.len() {
            return ;
        }
        let index: usize = (id - 1) as usize;
        let mut session: Session = self.sessions[index];
        session.last_seen_at = now;
        self.sessions.set(index, session);
        proof {
            assert(self@ =~= touched(old(self)@, id, now));
        }
    }

    /// The endpoints of all sessions, in the order of the player identities.
    pub fn endpoints(&self) -> (endpoints: Vec<Endpoint>)
        ensures
            endpoints@ == endpoints_of(self@),
    {
        let mut endpoints: Vec<Endpoint> = Vec::new();
        let mut i: usize = 0;
        while i < self.sessions.len()
            invariant
                i <= self.sessions@.len(),
                endpoints@ == endpoints_of(self@).take(i as int),
            decreases self.sessions@.len() - i,
        {
            endpoints.push(self.sessions[i].endpoint);
            assert(endpoints@ =~= endpoints_of(self@).take(i + 1));
            i = i + 1;
        }
        assert(endpoints_of(self@).take(self.sessions@.len() as int) =~= endpoints_of(self@));
        endpoints
    }
}

} // verus!
