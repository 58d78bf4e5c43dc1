//! What holds of the world whatever the players do: it stays well formed,
//! walls stop a step, and a treasure or a trap acts once.

use vstd::prelude::*;
use crate::codec::{snapshot_of, snapshot_text};
use crate::codec_laws::lemma_snapshot_round_trip;
use crate::error::GameError;
use crate::types::{Cell, Direction, PlayerId, SnapshotView};
use crate::world::{lemma_without, starting_world, WorldView, MAX_PLAYERS, TREASURE_REWARD};

verus! {

/// One thing that can happen to a world.
pub enum WorldEvent {
    /// A player asks to join.
    Connect,
    /// Player `id` takes a step.
    Move { id: PlayerId, direction: Direction },
    /// A second passes.
    Tick,
}

/// The world after one event.
pub open spec fn after(world: WorldView, event: WorldEvent) -> WorldView {
    match event {
        WorldEvent::Connect => world.connect(),
        WorldEvent::Move { id, direction } => world.apply_move(id, direction),
        WorldEvent::Tick => world.tick(),
    }
}

/// The world after a run of events, the first of them first.
pub open spec fn after_all(world: WorldView, events: Seq<WorldEvent>) -> WorldView
    decreases events.len(),
{
    if events.len() == 0 {
        world
    } else {
        after(after_all(world, events.drop_last()), events.last())
    }
}

/// The world every game starts from is well formed.
pub proof fn lemma_starting_world_wf()
    ensures
        starting_world().wf(),
{
}

/// A snapshot of a world survives the wire: what is read from the bytes
/// written for it is the snapshot again, with every player under the
/// identity the world gave, however many players, treasures and traps there
/// are.
pub proof fn lemma_world_snapshot_round_trip(world: WorldView)
    ensures
        snapshot_of(snapshot_text(world.snapshot())) == Ok::<SnapshotView, GameError>(
            world.snapshot(),
        ),
        world.snapshot().players.len() == world.players.len(),
        forall|id: PlayerId|
            world.wf() && world.has_player(id) ==> world.snapshot().player(id) == world.player(
                id,
            ),
{
    lemma_snapshot_round_trip(world.snapshot());
    assert forall|id: PlayerId| world.wf() && world.has_player(id) implies world.snapshot().player(
        id,
    ) == world.player(id) by {
        lemma_records_are_found(world, world.players.len() as int, id);
        assert(world.records().take(world.players.len() as int) =~= world.records());
    }
}

/// Among the first `n` records of a world with at most `MAX_PLAYERS` players
/// the one of player `id`, for `id` up to `n`, is found under `id`.
pub proof fn lemma_records_are_found(world: WorldView, n: int, id: PlayerId)
    requires
        world.players.len() <= MAX_PLAYERS,
        0 <= n <= world.players.len(),
        1 <= id <= n,
    ensures
        crate::types::last_state_of(world.records().take(n), id) == Some(world.players[id - 1]),
    decreases n,
{
    let records = world.records().take(n);
    assert(records.last() == world.records()[n - 1]);
    if id == n {
    } else {
        assert(records.drop_last() =~= world.records().take(n - 1));
        lemma_records_are_found(world, n - 1, id);
    }
}

/// A well-formed world is well formed after a player has joined.
pub proof fn lemma_connect_keeps_wf(world: WorldView)
    requires
        world.wf(),
    ensures
        world.connect().wf(),
{
}

/// A well-formed world is well formed after a second has passed.
pub proof fn lemma_tick_keeps_wf(world: WorldView)
    requires
        world.wf(),
    ensures
        world.tick().wf(),
{
}

/// A step ends on the grid: on the cell next to where it began, or where it
/// began.
pub proof fn lemma_target_on_grid(world: WorldView, id: PlayerId, direction: Direction)
    requires
        world.wf(),
        world.has_player(id),
    ensures
        world.target(world.players[id - 1], direction).x < world.width,
        world.target(world.players[id - 1], direction).y < world.height,
        world.apply_move(id, direction).players[id - 1].x == world.target(
            world.players[id - 1],
            direction,
        ).x,
        world.apply_move(id, direction).players[id - 1].y == world.target(
            world.players[id - 1],
            direction,
        ).y,
{
}

/// A step changes nothing but the player who takes it and the cell that the
/// player reaches: everybody else stays as they were, no treasure and no trap
/// appears, and the grid and the clock are left alone.
pub proof fn lemma_move_is_local(world: WorldView, id: PlayerId, direction: Direction)
    requires
        world.wf(),
    ensures
        world.apply_move(id, direction).players.len() == world.players.len(),
        forall|other: PlayerId|
            world.has_player(other) && other != id ==> world.apply_move(id, direction).players[other
                - 1] == world.players[other - 1],
        forall|cell: Cell| #[trigger]
            world.apply_move(id, direction).treasures.contains(cell) ==> world.treasures.contains(
                cell,
            ),
        forall|cell: Cell| #[trigger]
            world.apply_move(id, direction).traps.contains(cell) ==> world.traps.contains(cell),
        world.apply_move(id, direction).width == world.width,
        world.apply_move(id, direction).height == world.height,
        world.apply_move(id, direction).time_remaining == world.time_remaining,
{
    if world.has_player(id) {
        let cell = world.target(world.players[id - 1], direction);
        if world.treasures.contains(cell) {
            lemma_without(world.treasures, cell);
        } else if world.traps.contains(cell) {
            lemma_without(world.traps, cell);
        }
    }
}

/// A well-formed world is well formed after a step.
pub proof fn lemma_move_keeps_wf(world: WorldView, id: PlayerId, direction: Direction)
    requires
        world.wf(),
    ensures
        world.apply_move(id, direction).wf(),
{
    if world.has_player(id) {
        let next = world.apply_move(id, direction);
        let cell = world.target(world.players[id - 1], direction);
        lemma_target_on_grid(world, id, direction);
        if world.treasures.contains(cell) {
            lemma_without(world.treasures, cell);
            assert forall|i: int, j: int|
                0 <= i < next.treasures.len() && 0 <= j < next.traps.len() implies next.treasures[i]
                != next.traps[j] by {
                let t = next.treasures[i];
                assert(world.treasures.contains(t));
                let a = choose|a: int| 0 <= a < world.treasures.len() && world.treasures[a] == t;
                assert(world.treasures[a] != world.traps[j]);
            }
            assert forall|i: int| 0 <= i < next.players.len() implies {
                let p = #[trigger] next.players[i];
                &&& p.x < next.width
                &&& p.y < next.height
                &&& 0 <= p.score
                &&& p.score + TREASURE_REWARD * next.treasures.len() <= i32::MAX
            } by {
                let q = world.players[i];
                assert(q.score + TREASURE_REWARD * world.treasures.len() <= i32::MAX);
            }
        } else if world.traps.contains(cell) {
            lemma_without(world.traps, cell);
            assert forall|i: int, j: int|
                0 <= i < next.treasures.len() && 0 <= j < next.traps.len() implies next.treasures[i]
                != next.traps[j] by {
                let t = next.traps[j];
                assert(world.traps.contains(t));
                let b = choose|b: int| 0 <= b < world.traps.len() && world.traps[b] == t;
                assert(world.treasures[i] != world.traps[b]);
            }
            assert forall|i: int| 0 <= i < next.players.len() implies {
                let p = #[trigger] next.players[i];
                &&& p.x < next.width
                &&& p.y < next.height
                &&& 0 <= p.score
                &&& p.score + TREASURE_REWARD * next.treasures.len() <= i32::MAX
            } by {
                let q = world.players[i];
                assert(q.score + TREASURE_REWARD * world.treasures.len() <= i32::MAX);
            }
        } else {
            assert forall|i: int| 0 <= i < next.players.len() implies {
                let p = #[trigger] next.players[i];
                &&& p.x < next.width
                &&& p.y < next.height
                &&& 0 <= p.score
                &&& p.score + TREASURE_REWARD * next.treasures.len() <= i32::MAX
            } by {
                let q = world.players[i];
                assert(q.score + TREASURE_REWARD * world.treasures.len() <= i32::MAX);
            }
        }
    }
}

/// Whatever happens to a well-formed world, it stays well formed, no player
/// leaves, and no treasure and no trap appears that was not there before.
pub proof fn lemma_history(world: WorldView, events: Seq<WorldEvent>)
    requires
        world.wf(),
    ensures
        after_all(world, events).wf(),
        after_all(world, events).players.len() >= world.players.len(),
        after_all(world, events).width == world.width,
        after_all(world, events).height == world.height,
        forall|cell: Cell| #[trigger]
            after_all(world, events).treasures.contains(cell) ==> world.treasures.contains(cell),
        forall|cell: Cell| #[trigger]
            after_all(world, events).traps.contains(cell) ==> world.traps.contains(cell),
    decreases events.len(),
{
    if events.len() > 0 {
        let before = after_all(world, events.drop_last());
        lemma_history(world, events.drop_last());
        match events.last() {
            WorldEvent::Connect => {
                lemma_connect_keeps_wf(before);
            },
            WorldEvent::Move { id, direction } => {
                lemma_move_keeps_wf(before, id, direction);
                lemma_move_is_local(before, id, direction);
            },
            WorldEvent::Tick => {
                lemma_tick_keeps_wf(before);
            },
        }
    }
}

/// Walls stop a step. A player in column 0 who steps left, in row 0 who steps
/// up, in the last column who steps right or in the last row who steps down
/// stays on the same cell.
pub proof fn lemma_move_clamps_at_edges(world: WorldView, id: PlayerId, direction: Direction)
    requires
        world.wf(),
        world.has_player(id),
    ensures
        ({
            let before = world.players[id - 1];
            let after = world.apply_move(id, direction).players[id - 1];
            &&& direction == Direction::Left && before.x == 0 ==> after.x == 0 && after.y
                == before.y
            &&& direction == Direction::Up && before.y == 0 ==> after.y == 0 && after.x == before.x
            &&& direction == Direction::Right && before.x == world.width - 1 ==> after.x == before.x
                && after.y == before.y
            &&& direction == Direction::Down && before.y == world.height - 1 ==> after.y == before.y
                && after.x == before.x
        }),
{
}

/// Away from the walls a step goes to the neighbouring cell.
pub proof fn lemma_move_steps_to_neighbour(world: WorldView, id: PlayerId, direction: Direction)
    requires
        world.wf(),
        world.has_player(id),
    ensures
        ({
            let before = world.players[id - 1];
            let after = world.apply_move(id, direction).players[id - 1];
            &&& direction == Direction::Left && before.x > 0 ==> after.x == before.x - 1 && after.y
                == before.y
            &&& direction == Direction::Up && before.y > 0 ==> after.y == before.y - 1 && after.x
                == before.x
            &&& direction == Direction::Right && before.x < world.width - 1 ==> after.x == before.x
                + 1 && after.y == before.y
            &&& direction == Direction::Down && before.y < world.height - 1 ==> after.y == before.y
                + 1 && after.x == before.x
        }),
{
}

/// A treasure is picked up once. The player who steps onto a cell with a
/// treasure scores `TREASURE_REWARD`, and the treasure is gone. Whatever
/// happens afterwards, a player who later steps onto that cell finds neither
/// treasure nor trap there and keeps the score unchanged.
pub proof fn lemma_treasure_is_picked_up_once(
    world: WorldView,
    finder: PlayerId,
    direction: Direction,
    events: Seq<WorldEvent>,
    late: PlayerId,
    late_direction: Direction,
)
    requires
        world.wf(),
        world.has_player(finder),
        world.treasures.contains(world.target(world.players[finder - 1], direction)),
    ensures
        ({
            let cell = world.target(world.players[finder - 1], direction);
            let found = world.apply_move(finder, direction);
            let later = after_all(found, events);
            &&& found.players[finder - 1].score == world.players[finder - 1].score
                + TREASURE_REWARD
            &&& found.players[finder - 1].x == cell.x
            &&& found.players[finder - 1].y == cell.y
            &&& !found.treasures.contains(cell)
            &&& found.treasures.len() == world.treasures.len() - 1
            &&& !later.treasures.contains(cell)
            &&& !later.traps.contains(cell)
            &&& later.has_player(late) && later.target(later.players[late - 1], late_direction)
                == cell ==> later.apply_move(late, late_direction).players[late - 1].score
                == later.players[late - 1].score
        }),
{
    let cell = world.target(world.players[finder - 1], direction);
    let found = world.apply_move(finder, direction);
    let later = after_all(found, events);
    lemma_without(world.treasures, cell);
    lemma_move_keeps_wf(world, finder, direction);
    lemma_history(found, events);
    assert(!world.traps.contains(cell)) by {
        if world.traps.contains(cell) {
            let i = choose|i: int| 0 <= i < world.treasures.len() && world.treasures[i] == cell;
            let j = choose|j: int| 0 <= j < world.traps.len() && world.traps[j] == cell;
            assert(world.treasures[i] != world.traps[j]);
        }
    }
    assert(found.traps == world.traps);
}

/// A trap fires once. The player who steps onto a cell with a trap is left
/// with score 0, and the trap is gone. Whatever happens afterwards, a player
/// who later steps onto that cell finds neither trap nor treasure there and
/// keeps the score unchanged.
pub proof fn lemma_trap_fires_once(
    world: WorldView,
    victim: PlayerId,
    direction: Direction,
    events: Seq<WorldEvent>,
    late: PlayerId,
    late_direction: Direction,
)
    requires
        world.wf(),
        world.has_player(victim),
        world.traps.contains(world.target(world.players[victim - 1], direction)),
    ensures
        ({
            let cell = world.target(world.players[victim - 1], direction);
            let sprung = world.apply_move(victim, direction);
            let later = after_all(sprung, events);
            &&& sprung.players[victim - 1].score == 0
            &&& sprung.players[victim - 1].x == cell.x
            &&& sprung.players[victim - 1].y == cell.y
            &&& !sprung.traps.contains(cell)
            &&& sprung.traps.len() == world.traps.len() - 1
            &&& !later.traps.contains(cell)
            &&& !later.treasures.contains(cell)
            &&& later.has_player(late) && later.target(later.players[late - 1], late_direction)
                == cell ==> later.apply_move(late, late_direction).players[late - 1].score
                == later.players[late - 1].score
        }),
{
    let cell = world.target(world.players[victim - 1], direction);
    let sprung = world.apply_move(victim, direction);
    lemma_without(world.traps, cell);
    lemma_move_keeps_wf(world, victim, direction);
    lemma_history(sprung, events);
    assert(!world.treasures.contains(cell)) by {
        if world.treasures.contains(cell) {
            let i = choose|i: int| 0 <= i < world.treasures.len() && world.treasures[i] == cell;
            let j = choose|j: int| 0 <= j < world.traps.len() && world.traps[j] == cell;
            assert(world.treasures[i] != world.traps[j]);
        }
    }
    assert(sprung.treasures == world.treasures);
}

} // verus!
