//! The plain data that the game moves around: directions, cells, players and
//! the snapshot of a whole world.

use vstd::prelude::*;

verus! {

/// The identity of an admitted player. Identities are handed out from 1
/// upwards and never change while the session lives.
pub type PlayerId = u16;

/// One of the four moves a player can ask for.
#[derive(Clone, Copy, Debug, PartialEq, Eq, Structural)]
pub enum Direction {
    /// Towards row 0 (the key `W`).
    Up,
    /// Towards column 0 (the key `A`).
    Left,
    /// Away from row 0 (the key `S`).
    Down,
    /// Away from column 0 (the key `D`).
    Right,
}

/// A position on the grid: column `x`, row `y`.
#[derive(Clone, Copy, Debug, PartialEq, Eq, Structural)]
pub struct Cell {
    pub x: u8,
    pub y: u8,
}

/// Where a player stands and what the player has scored.
#[derive(Clone, Copy, Debug, PartialEq, Eq, Structural)]
pub struct PlayerState {
    pub x: u8,
    pub y: u8,
    pub score: i32,
}

/// A player as a snapshot lists it: the identity and the state.
#[derive(Clone, Copy, Debug, PartialEq, Eq, Structural)]
pub struct PlayerRecord {
    pub id: PlayerId,
    pub state: PlayerState,
}

/// The state of a whole world at one moment, as it travels to the clients.
///
/// A snapshot is plain data without rules of its own: it holds whatever the
/// wire said, in the order in which the wire said it.
#[derive(Clone, Debug, PartialEq, Eq)]
pub struct Snapshot {
    /// Seconds left on the countdown.
    pub time_remaining: u32,
    /// The players, in the order of their records.
    pub players: Vec<PlayerRecord>,
    /// The cells that hold a treasure.
    pub treasures: Vec<Cell>,
    /// The cells that hold a trap.
    pub traps: Vec<Cell>,
}

/// The mathematical content of a [`Snapshot`].
pub ghost struct SnapshotView {
    pub time_remaining: u32,
    pub players: Seq<PlayerRecord>,
    pub treasures: Seq<Cell>,
    pub traps: Seq<Cell>,
}

impl View for Snapshot {
    type V = SnapshotView;

    open spec fn view(&self) -> SnapshotView {
        SnapshotView {
            time_remaining: self.time_remaining,
            players: self.players@,
            treasures: self.treasures@,
            traps: self.traps@,
        }
    }
}

impl SnapshotView {
    /// The state that the snapshot gives for player `id`: that of the last
    /// record with this identity, if there is one.
    pub open spec fn player(self, id: PlayerId) -> Option<PlayerState> {
        last_state_of(self.players, id)
    }

    /// Whether some player of the snapshot stands on `cell`.
    pub open spec fn occupied(self, cell: Cell) -> bool {
        exists|i: int| 0 <= i < self.players.len() && stands_on(#[trigger] self.players[i], cell)
    }
}

/// Whether the player of `record` stands on `cell`.
pub open spec fn stands_on(record: PlayerRecord, cell: Cell) -> bool {
    record.state.x == cell.x && record.state.y == cell.y
}

/// The state in the last record of `records` that carries `id`.
pub open spec fn last_state_of(records: Seq<PlayerRecord>, id: PlayerId) -> Option<PlayerState>
    decreases records.len(),
{
    if records.len() == 0 {
        None
    } else if records.last().id == id {
        Some(records.last().state)
    } else {
        last_state_of(records.drop_last(), id)
    }
}

/// Whether `cell` occurs in `cells`.
pub fn holds_cell(cells: &Vec<Cell>, cell: Cell) -> (found: bool)
    ensures
        found == cells@.contains(cell),
{
    let mut i: usize = 0;
    while i < cells.len()
        invariant
            i <= cells@.len(),
            forall|j: int| 0 <= j < i ==> cells@[j] != cell,
        decreases cells@.len() - i,
    {
        if cells[i].x == cell.x && cells[i].y == cell.y {
            return true;
        }
        i = i + 1;
    }
    false
}

impl Snapshot {
    /// A snapshot without players, treasures or traps.
    pub fn empty(time_remaining: u32) -> (snapshot: Snapshot)
        ensures
            snapshot@ == (SnapshotView {
                time_remaining,
                players: Seq::empty(),
                treasures: Seq::empty(),
                traps: Seq::empty(),
            }),
    {
        Snapshot {
            time_remaining,
            players: Vec::new(),
            treasures: Vec::new(),
            traps: Vec::new(),
        }
    }

    /// The state that the snapshot gives for player `id`: that of the last
    /// record with this identity, if there is one.
    pub fn player(&self, id: PlayerId) -> (state: Option<PlayerState>)
        ensures
            state == self@.player(id),
    {
        let mut i: usize = self.players.len();
        assert(self.players@.take(i as int) =~= self.players@);
        while i > 0
            invariant
                i <= self.players@.len(),
                last_state_of(self.players@, id) == last_state_of(
                    self.players@.take(i as int),
                    id,
                ),
            decreases i,
        {
            proof {
                let cur = self.players@.take(i as int);
                assert(cur.last() == self.players@[i - 1]);
                assert(cur.drop_last() =~= self.players@.take(i - 1));
            }
            if self.players[i - 1].id == id {
                return Some(self.players[i - 1].state);
            }
            i = i - 1;
        }
        None
    }

    /// Whether some player of the snapshot stands on `cell`.
    pub fn occupied(&self, cell: Cell) -> (found: bool)
        ensures
            found == self@.occupied(cell),
    {
        let mut i: usize = 0;
        while i < self.players.len()
            invariant
                i <= self.players@.len(),
                forall|j: int| 0 <= j < i ==> !stands_on(#[trigger] self.players@[j], cell),
            decreases self.players@.len() - i,
        {
            if self.players[i].state.x == cell.x && self.players[i].state.y == cell.y {
                assert(stands_on(self@.players[i as int], cell));
                assert(self@.occupied(cell));
                return true;
            }
            i = i + 1;
        }
        false
    }
}

} // verus!
