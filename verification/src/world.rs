//! The authoritative world: the grid, the players on it, the treasures and
//! traps that are left, and the countdown.
//!
//! The world changes in three ways only: a player joins, a player moves, the
//! clock ticks. Each is a function from one world to the next, stated on the
//! mathematical content of the world, [`WorldView`]; the executable
//! [`GameWorld`] follows it step for step.

use vstd::prelude::*;
use crate::error::GameError;
use crate::types::{
    holds_cell, Cell, Direction, PlayerId, PlayerRecord, PlayerState, Snapshot, SnapshotView,
};

verus! {

/// How many players a world admits.
pub const MAX_PLAYERS: usize = 3;

/// What a treasure adds to the score of the player who picks it up.
pub const TREASURE_REWARD: i32 = 10;

/// How many treasures a world may start with.
pub const MAX_TREASURES: usize = 65536;

/// How many cells wide the grid of every game is at the start.
pub const GRID_WIDTH: u8 = 10;

/// How many cells high the grid of every game is at the start.
pub const GRID_HEIGHT: u8 = 10;

/// How many seconds are on the clock at the start.
pub const START_TIME: u32 = 60;

/// The mathematical content of a [`GameWorld`]. The player with identity `id`
/// is `players[id - 1]`.
pub ghost struct WorldView {
    pub width: u8,
    pub height: u8,
    pub players: Seq<PlayerState>,
    pub treasures: Seq<Cell>,
    pub traps: Seq<Cell>,
    pub time_remaining: u32,
}

/// `cells` without `cell`; the order of the others stays.
pub open spec fn without(cells: Seq<Cell>, cell: Cell) -> Seq<Cell> {
    if cells.contains(cell) {
        cells.remove(cells.index_of(cell))
    } else {
        cells
    }
}

/// The world every game starts from: a grid of ten by ten cells, treasures
/// at `(2, 3)` and `(5, 5)`, traps at `(3, 3)` and `(6, 6)`, sixty seconds on
/// the clock and nobody playing.
pub open spec fn starting_world() -> WorldView {
    WorldView {
        width: GRID_WIDTH,
        height: GRID_HEIGHT,
        players: Seq::empty(),
        treasures: seq![Cell { x: 2, y: 3 }, Cell { x: 5, y: 5 }],
        traps: seq![Cell { x: 3, y: 3 }, Cell { x: 6, y: 6 }],
        time_remaining: START_TIME,
    }
}

/// Whether a grid of this size with these treasures and traps can be played
/// on: the grid is not empty, there are at most `MAX_TREASURES` treasures, no
/// cell is listed twice, and no cell holds both a treasure and a trap.
pub open spec fn valid_layout(width: u8, height: u8, treasures: Seq<Cell>, traps: Seq<Cell>) -> bool {
    &&& width >= 1
    &&& height >= 1
    &&& treasures.len() <= MAX_TREASURES
    &&& treasures.no_duplicates()
    &&& traps.no_duplicates()
    &&& forall|i: int, j: int|
        0 <= i < treasures.len() && 0 <= j < traps.len() ==> treasures[i] != traps[j]
}

impl WorldView {
    /// What always holds of a world: the layout is valid, there are at most
    /// `MAX_PLAYERS` players, each stands on the grid, and no score is
    /// negative or so high that the treasures left could overflow it.
    pub open spec fn wf(self) -> bool {
        &&& valid_layout(self.width, self.height, self.treasures, self.traps)
        &&& self.players.len() <= MAX_PLAYERS
        &&& forall|i: int|
            0 <= i < self.players.len() ==> {
                let p = #[trigger] self.players[i];
                &&& p.x < self.width
                &&& p.y < self.height
                &&& 0 <= p.score
                &&& p.score + TREASURE_REWARD * self.treasures.len() <= i32::MAX
            }
    }

    /// Whether `id` is the identity of a player.
    pub open spec fn has_player(self, id: PlayerId) -> bool {
        1 <= id <= self.players.len()
    }

    /// The state of player `id`.
    pub open spec fn player(self, id: PlayerId) -> Option<PlayerState> {
        if self.has_player(id) {
            Some(self.players[id - 1])
        } else {
            None
        }
    }

    /// Whether one more player can join.
    pub open spec fn has_room(self) -> bool {
        self.players.len() < MAX_PLAYERS
    }

    /// The world after one more player has joined, at `(0, 0)` with score 0;
    /// the same world when there is no room.
    pub open spec fn connect(self) -> WorldView {
        if self.has_room() {
            WorldView { players: self.players.push(PlayerState { x: 0, y: 0, score: 0 }), ..self }
        } else {
            self
        }
    }

    /// The cell that a player in `state` reaches by one step in `direction`:
    /// the neighbouring cell, or the cell the player stands on when the step
    /// would leave the grid.
    pub open spec fn target(self, state: PlayerState, direction: Direction) -> Cell {
        match direction {
            Direction::Up => Cell {
                x: state.x,
                y: if state.y > 0 {
                    (state.y - 1) as u8
                } else {
                    state.y
                },
            },
            Direction::Left => Cell {
                x: if state.x > 0 {
                    (state.x - 1) as u8
                } else {
                    state.x
                },
                y: state.y,
            },
            Direction::Down => Cell {
                x: state.x,
                y: if state.y + 1 < self.height {
                    (state.y + 1) as u8
                } else {
                    state.y
                },
            },
            Direction::Right => Cell {
                x: if state.x + 1 < self.width {
                    (state.x + 1) as u8
                } else {
                    state.x
                },
                y: state.y,
            },
        }
    }

    /// The world after player `id` has taken one step in `direction`.
    ///
    /// The player goes to the target cell. If a treasure lies there, the
    /// player scores `TREASURE_REWARD` and the treasure is gone; if a trap
    /// lies there, the score falls to 0 and the trap is gone. A world without
    /// such a player stays as it is.
    pub open spec fn apply_move(self, id: PlayerId, direction: Direction) -> WorldView {
        if !self.has_player(id) {
            self
        } else {
            let state = self.players[id - 1];
            let cell = self.target(state, direction);
            if self.treasures.contains(cell) {
                WorldView {
                    players: self.players.update(
                        id - 1,
                        PlayerState {
                            x: cell.x,
                            y: cell.y,
                            score: (state.score + TREASURE_REWARD) as i32,
                        },
                    ),
                    treasures: without(self.treasures, cell),
                    ..self
                }
            } else if self.traps.contains(cell) {
                WorldView {
                    players: self.players.update(
                        id - 1,
                        PlayerState { x: cell.x, y: cell.y, score: 0 },
                    ),
                    traps: without(self.traps, cell),
                    ..self
                }
            } else {
                WorldView {
                    players: self.players.update(
                        id - 1,
                        PlayerState { x: cell.x, y: cell.y, score: state.score },
                    ),
                    ..self
                }
            }
        }
    }

    /// The world one second later: the countdown is one lower, and stays at 0
    /// once it is there.
    pub open spec fn tick(self) -> WorldView {
        WorldView {
            time_remaining: if self.time_remaining > 0 {
                (self.time_remaining - 1) as u32
            } else {
                0
            },
            ..self
        }
    }

    /// The records of the players: player `i + 1` with the state `players[i]`.
    pub open spec fn records(self) -> Seq<PlayerRecord> {
        Seq::new(
            self.players.len(),
            |i: int| PlayerRecord { id: (i + 1) as PlayerId, state: self.players[i] },
        )
    }

    /// What a snapshot of the world holds.
    pub open spec fn snapshot(self) -> SnapshotView {
        SnapshotView {
            time_remaining: self.time_remaining,
            players: self.records(),
            treasures: self.treasures,
            traps: self.traps,
        }
    }
}

/// Taking a cell out of a list without duplicates leaves a list without
/// duplicates that is one shorter, no longer holds the cell, and holds every
/// other cell that it held.
pub proof fn lemma_without(cells: Seq<Cell>, cell: Cell)
    requires
        cells.no_duplicates(),
        cells.contains(cell),
    ensures
        without(cells, cell).no_duplicates(),
        without(cells, cell).len() == cells.len() - 1,
        !without(cells, cell).contains(cell),
        forall|other: Cell| other != cell ==> (without(cells, cell).contains(other) <==> cells.contains(other)),
        forall|i: int| 0 <= i < without(cells, cell).len() ==> cells.contains(#[trigger] without(cells, cell)[i]),
{
    let k = cells.index_of(cell);
    let rest = without(cells, cell);
    assert(0 <= k < cells.len() && cells[k] == cell);
    assert forall|i: int| 0 <= i < rest.len() implies #[trigger] rest[i] == cells[if i < k {
        i
    } else {
        i + 1
    }] by {}
    assert forall|i: int, j: int| 0 <= i < rest.len() && 0 <= j < rest.len() && i != j implies rest[i]
        != rest[j] by {
        let a = if i < k { i } else { i + 1 };
        let b = if j < k { j } else { j + 1 };
        assert(rest[i] == cells[a] && rest[j] == cells[b]);
    }
    assert forall|i: int| 0 <= i < rest.len() implies rest[i] != cell by {
        let a = if i < k { i } else { i + 1 };
        assert(rest[i] == cells[a]);
    }
    assert forall|other: Cell| other != cell implies (rest.contains(other) <==> cells.contains(
        other,
    )) by {
        if cells.contains(other) {
            let a = choose|a: int| 0 <= a < cells.len() && cells[a] == other;
            let i = if a < k { a } else { a - 1 };
            assert(rest[i] == other);
        }
        if rest.contains(other) {
            let i = choose|i: int| 0 <= i < rest.len() && rest[i] == other;
            let a = if i < k { i } else { i + 1 };
            assert(cells[a] == other);
        }
    }
    assert forall|i: int| 0 <= i < rest.len() implies cells.contains(#[trigger] rest[i]) by {
        let a = if i < k { i } else { i + 1 };
        assert(cells[a] == rest[i]);
    }
}

/// The authoritative state of one game.
pub struct GameWorld {
    width: u8,
    height: u8,
    players: Vec<PlayerState>,
    treasures: Vec<Cell>,
    traps: Vec<Cell>,
    time_remaining: u32,
}

impl View for GameWorld {
    type V = WorldView;

    closed spec fn view(&self) -> WorldView {
        WorldView {
            width: self.width,
            height: self.height,
            players: self.players@,
            treasures: self.treasures@,
            traps: self.traps@,
            time_remaining: self.time_remaining,
        }
    }
}

/// The position of `cell` in `cells`, if it occurs there.
fn position_of(cells: &Vec<Cell>, cell: Cell) -> (at: Option<usize>)
    ensures
        match at {
            Some(k) => k < cells@.len() && cells@[k as int] == cell,
            None => !cells@.contains(cell),
        },
{
    let mut i: usize = 0;
    while i < cells.len()
        invariant
            i <= cells@.len(),
            forall|j: int| 0 <= j < i ==> cells@[j] != cell,
        decreases cells@.len() - i,
    {
        if cells[i].x == cell.x && cells[i].y == cell.y {
            return Some(i);
        }
        i = i + 1;
    }
    None
}

/// Whether no cell occurs twice in `cells`.
fn all_distinct(cells: &Vec<Cell>) -> (distinct: bool)
    ensures
        distinct == cells@.no_duplicates(),
{
    let n: usize = cells.len();
    let mut i: usize = 0;
    while i < n
        invariant
            n == cells@.len(),
            i <= n,
            forall|a: int, b: int| 0 <= a < i && a < b < n ==> cells@[a] != cells@[b],
        decreases n - i,
    {
        let mut j: usize = i + 1;
        while j < n
            invariant
                n == cells@.len(),
                i < n,
                i < j <= n,
                forall|b: int| i < b < j ==> cells@[i as int] != cells@[b],
            decreases n - j,
        {
            if cells[i].x == cells[j].x && cells[i].y == cells[j].y {
                assert(cells@[i as int] == cells@[j as int]);
                return false;
            }
            j = j + 1;
        }
        i = i + 1;
    }
    assert forall|a: int, b: int| 0 <= a < n && 0 <= b < n && a != b implies cells@[a] != cells@[b] by {
        if a < b {
        } else {
            assert(cells@[b] != cells@[a]);
        }
    }
    true
}

/// Whether no cell of `a` occurs in `b`.
fn all_apart(a: &Vec<Cell>, b: &Vec<Cell>) -> (apart: bool)
    ensures
        apart == forall|i: int, j: int| 0 <= i < a@.len() && 0 <= j < b@.len() ==> a@[i] != b@[j],
{
    let mut i: usize = 0;
    while i < a.len()
        invariant
            i <= a@.len(),
            forall|k: int, j: int| 0 <= k < i && 0 <= j < b@.len() ==> a@[k] != b@[j],
        decreases a@.len() - i,
    {
        match position_of(b, a[i]) {
            Some(j) => {
                assert(a@[i as int] == b@[j as int]);
                return false;
            },
            None => {
                assert forall|j: int| 0 <= j < b@.len() implies a@[i as int] != b@[j] by {
                    if a@[i as int] == b@[j] {
                        assert(b@.contains(a@[i as int]));
                    }
                }
            },
        }
        i = i + 1;
    }
    true
}

impl GameWorld {
    /// The world every game starts from; see [`starting_world`].
    pub fn new() -> (world: GameWorld)
        ensures
            world@ == starting_world(),
            world@.wf(),
    {
        let mut treasures: Vec<Cell> = Vec::new();
        treasures.push(Cell { x: 2, y: 3 });
        treasures.push(Cell { x: 5, y: 5 });
        let mut traps: Vec<Cell> = Vec::new();
        traps.push(Cell { x: 3, y: 3 });
        traps.push(Cell { x: 6, y: 6 });
        assert(treasures@ =~= seq![Cell { x: 2, y: 3 }, Cell { x: 5, y: 5 }]);
        assert(traps@ =~= seq![Cell { x: 3, y: 3 }, Cell { x: 6, y: 6 }]);
        GameWorld {
            width: GRID_WIDTH,
            height: GRID_HEIGHT,
            players: Vec::new(),
            treasures,
            traps,
            time_remaining: START_TIME,
        }
    }

    /// A world with a layout of the caller's choosing and nobody playing.
    ///
    /// The result is `Some` exactly when the layout is valid.
    pub fn with_layout(
        width: u8,
        height: u8,
        treasures: Vec<Cell>,
        traps: Vec<Cell>,
        time_remaining: u32,
    ) -> (world: Option<GameWorld>)
        ensures
            world is Some <==> valid_layout(width, height, treasures@, traps@),
            world matches Some(w) ==> w@ == (WorldView {
                width,
                height,
                players: Seq::empty(),
                treasures: treasures@,
                traps: traps@,
                time_remaining,
            }) && w@.wf(),
    {
        if width == 0 || height == 0 || treasures.len() > MAX_TREASURES {
            return None;
        }
        if !all_distinct(&treasures) || !all_distinct(&traps) || !all_apart(&treasures, &traps) {
            return None;
        }
        Some(GameWorld { width, height, players: Vec::new(), treasures, traps, time_remaining })
    }

    /// How many cells wide the grid is.
    pub fn width(&self) -> (width: u8)
        ensures
            width == self@.width,
    {
        self.width
    }

    /// How many cells high the grid is.
    pub fn height(&self) -> (height: u8)
        ensures
            height == self@.height,
    {
        self.height
    }

    /// Seconds left on the countdown.
    pub fn time_remaining(&self) -> (seconds: u32)
        ensures
            seconds == self@.time_remaining,
    {
        self.time_remaining
    }

    /// How many players there are.
    pub fn player_count(&self) -> (count: usize)
        ensures
            count == self@.players.len(),
    {
        self.players.len()
    }

    /// The state of player `id`, if there is such a player.
    pub fn player(&self, id: PlayerId) -> (state: Option<PlayerState>)
        ensures
            state == self@.player(id),
    {
        if id >= 1 && id as usize <= self.players.len() {
            Some(self.players[(id - 1) as usize])
        } else {
            None
        }
    }

    /// Whether a treasure lies on `cell`.
    pub fn has_treasure(&self, cell: Cell) -> (found: bool)
        ensures
            found == self@.treasures.contains(cell),
    {
        holds_cell(&self.treasures, cell)
    }

    /// Whether a trap lies on `cell`.
    pub fn has_trap(&self, cell: Cell) -> (found: bool)
        ensures
            found == self@.traps.contains(cell),
    {
        holds_cell(&self.traps, cell)
    }

    /// The cells that hold a treasure, in their order.
    pub fn treasures(&self) -> (cells: Vec<Cell>)
        ensures
            cells@ == self@.treasures,
    {
        copy_cells(&self.treasures)
    }

    /// The cells that hold a trap, in their order.
    pub fn traps(&self) -> (cells: Vec<Cell>)
        ensures
            cells@ == self@.traps,
    {
        copy_cells(&self.traps)
    }

    /// Admits one more player, at `(0, 0)` with score 0, and gives the new
    /// player's identity: the number of players there are now.
    ///
    /// With `MAX_PLAYERS` players already there, nothing changes and the
    /// answer is `CapacityExceeded`.
    pub fn apply_connect(&mut self) -> (result: Result<PlayerId, GameError>)
        requires
            old(self)@.wf(),
        ensures
            final(self)@ == old(self)@.connect(),
            final(self)@.wf(),
            result == if old(self)@.has_room() {
                Ok::<PlayerId, GameError>((old(self)@.players.len() + 1) as PlayerId)
            } else {
                Err::<PlayerId, GameError>(GameError::CapacityExceeded)
            },
    {
        if self.players.len() >= MAX_PLAYERS {
            return Err(GameError::CapacityExceeded);
        }
        self.players.push(PlayerState { x: 0, y: 0, score: 0 });
        Ok(self.players.len() as PlayerId)
    }

    /// Lets player `id` take one step in `direction`; see
    /// [`WorldView::apply_move`] for what the step does.
    pub fn apply_move(&mut self, id: PlayerId, direction: Direction)
        requires
            old(self)@.wf(),
        ensures
            final(self)@ == old(self)@.apply_move(id, direction),
            final(self)@.wf(),
    {
        if id == 0 || id as usize > self.players.len() {
            return ;
        }
        let index: usize = (id - 1) as usize;
        let state: PlayerState = self.players[index];
        let cell: Cell = match direction {
            Direction::Up => Cell {
                x: state.x,
                y: if state.y > 0 {
                    state.y - 1
                } else {
                    state.y
                },
            },
            Direction::Left => Cell {
                x: if state.x > 0 {
                    state.x - 1
                } else {
                    state.x
                },
                y: state.y,
            },
            Direction::Down => Cell {
                x: state.x,
                y: if state.y < self.height - 1 {
                    state.y + 1
                } else {
                    state.y
                },
            },
            Direction::Right => Cell {
                x: if state.x < self.width - 1 {
                    state.x + 1
                } else {
                    state.x
                },
                y: state.y,
            },
        };
        assert(cell == old(self)@.target(state, direction));
        let mut score: i32 = state.score;
        match position_of(&self.treasures, cell) {
            Some(k) => {
                proof {
                    lemma_without(self.treasures@, cell);
                    assert(self.treasures@.index_of(cell) == k);
                }
                self.treasures.remove(k);
                score = score + TREASURE_REWARD;
            },
            None => {
                match position_of(&self.traps, cell) {
                    Some(k) => {
                        proof {
                            lemma_without(self.traps@, cell);
                            assert(self.traps@.index_of(cell) == k);
                        }
                        self.traps.remove(k);
                        score = 0;
                    },
                    None => {},
                }
            },
        }
        self.players.set(index, PlayerState { x: cell.x, y: cell.y, score });
    }

    /// Lets one second pass: the countdown goes down by one and stops at 0.
    pub fn tick(&mut self)
        requires
            old(self)@.wf(),
        ensures
            final(self)@ == old(self)@.tick(),
            final(self)@.wf(),
    {
        if self.time_remaining > 0 {
            self.time_remaining = self.time_remaining - 1;
        }
    }

    /// A snapshot of the world as it is now.
    pub fn snapshot(&self) -> (snapshot: Snapshot)
        requires
            self@.wf(),
        ensures
            snapshot@ == self@.snapshot(),
    {
        let mut players: Vec<PlayerRecord> = Vec::new();
        let n: usize = self.players.len();
        let mut i: usize = 0;
        while i < n
            invariant
                n == self.players@.len(),
                n <= MAX_PLAYERS,
                i <= n,
                players@ == self@.records().take(i as int),
            decreases n - i,
        {
            players.push(PlayerRecord { id: (i + 1) as PlayerId, state: self.players[i] });
            assert(players@ =~= self@.records().take(i + 1));
            i = i + 1;
        }
        assert(self@.records().take(n as int) =~= self@.records());
        let treasures: Vec<Cell> = copy_cells(&self.treasures);
        let traps: Vec<Cell> = copy_cells(&self.traps);
        Snapshot { time_remaining: self.time_remaining, players, treasures, traps }
    }
}

/// A copy of a list of cells.
fn copy_cells(cells: &Vec<Cell>) -> (copy: Vec<Cell>)
    ensures
        copy@ == cells@,
{
    let mut copy: Vec<Cell> = Vec::new();
    let mut i: usize = 0;
    while i < cells.len()
        invariant
            i <= cells@.len(),
            copy@ == cells@.take(i as int),
        decreases cells@.len() - i,
    {
        copy.push(cells[i]);
        assert(copy@ =~= cells@.take(i + 1));
        i = i + 1;
    }
    assert(cells@.take(cells@.len() as int) =~= cells@);
    copy
}

} // verus!
