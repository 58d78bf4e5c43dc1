use treasure_hunt::error::GameError;
use treasure_hunt::types::{Cell, Direction, PlayerRecord, PlayerState};
use treasure_hunt::world::{GameWorld, MAX_PLAYERS, TREASURE_REWARD};

fn at(x: u8, y: u8, score: i32) -> Option<PlayerState> {
    Some(PlayerState { x, y, score })
}

fn world_with_players(count: usize) -> GameWorld {
    let mut world = GameWorld::new();
    for _ in 0..count {
        world.apply_connect().unwrap();
    }
    world
}

fn walk(world: &mut GameWorld, id: u16, steps: &[Direction]) {
    for step in steps {
        world.apply_move(id, *step);
    }
}

#[test]
fn new_world_has_the_starting_layout() {
    let world = GameWorld::new();
    assert_eq!(world.width(), 10);
    assert_eq!(world.height(), 10);
    assert_eq!(world.time_remaining(), 60);
    assert_eq!(world.player_count(), 0);
    assert_eq!(world.treasures(), vec![Cell { x: 2, y: 3 }, Cell { x: 5, y: 5 }]);
    assert_eq!(world.traps(), vec![Cell { x: 3, y: 3 }, Cell { x: 6, y: 6 }]);
    assert!(world.has_treasure(Cell { x: 2, y: 3 }));
    assert!(world.has_trap(Cell { x: 6, y: 6 }));
    assert!(!world.has_treasure(Cell { x: 3, y: 3 }));
    assert!(!world.has_trap(Cell { x: 0, y: 0 }));
}

#[test]
fn connect_gives_identities_from_one_upwards() {
    let mut world = GameWorld::new();
    assert_eq!(world.apply_connect(), Ok(1));
    assert_eq!(world.apply_connect(), Ok(2));
    assert_eq!(world.apply_connect(), Ok(3));
    assert_eq!(world.player_count(), 3);
    for id in 1..=3u16 {
        assert_eq!(world.player(id), at(0, 0, 0));
    }
    assert_eq!(world.player(0), None);
    assert_eq!(world.player(4), None);
}

#[test]
fn connect_beyond_the_cap_is_refused_and_changes_nothing() {
    let mut world = world_with_players(MAX_PLAYERS);
    world.apply_move(2, Direction::Right);
    let before = world.snapshot();
    assert_eq!(world.apply_connect(), Err(GameError::CapacityExceeded));
    assert_eq!(world.apply_connect(), Err(GameError::CapacityExceeded));
    assert_eq!(world.player_count(), 3);
    assert_eq!(world.snapshot(), before);
}

#[test]
fn moves_step_one_cell_in_their_direction() {
    let mut world = world_with_players(1);
    world.apply_move(1, Direction::Right);
    assert_eq!(world.player(1), at(1, 0, 0));
    world.apply_move(1, Direction::Down);
    assert_eq!(world.player(1), at(1, 1, 0));
    world.apply_move(1, Direction::Left);
    assert_eq!(world.player(1), at(0, 1, 0));
    world.apply_move(1, Direction::Up);
    assert_eq!(world.player(1), at(0, 0, 0));
}

#[test]
fn moves_clamp_at_the_left_edge() {
    let mut world = world_with_players(1);
    for y in 0..10u8 {
        assert_eq!(world.player(1).map(|p| (p.x, p.y)), Some((0, y)));
        world.apply_move(1, Direction::Left);
        assert_eq!(world.player(1).map(|p| (p.x, p.y)), Some((0, y)));
        world.apply_move(1, Direction::Down);
    }
}

#[test]
fn moves_clamp_at_every_edge() {
    let mut world = world_with_players(1);
    world.apply_move(1, Direction::Up);
    assert_eq!(world.player(1), at(0, 0, 0));
    walk(&mut world, 1, &[Direction::Right; 12]);
    assert_eq!(world.player(1), at(9, 0, 0));
    walk(&mut world, 1, &[Direction::Down; 12]);
    assert_eq!(world.player(1), at(9, 9, 0));
    walk(&mut world, 1, &[Direction::Left; 12]);
    assert_eq!(world.player(1), at(0, 9, 0));
    walk(&mut world, 1, &[Direction::Up; 12]);
    assert_eq!(world.player(1), at(0, 0, 0));
}

#[test]
fn moves_on_a_grid_of_one_cell_go_nowhere() {
    let mut world = GameWorld::with_layout(1, 1, vec![], vec![], 5).unwrap();
    world.apply_connect().unwrap();
    for direction in [Direction::Up, Direction::Left, Direction::Down, Direction::Right] {
        world.apply_move(1, direction);
        assert_eq!(world.player(1), at(0, 0, 0));
    }
}

#[test]
fn moves_of_a_player_who_is_not_there_change_nothing() {
    let mut world = world_with_players(2);
    let before = world.snapshot();
    world.apply_move(0, Direction::Right);
    world.apply_move(3, Direction::Right);
    world.apply_move(65535, Direction::Down);
    assert_eq!(world.snapshot(), before);
}

#[test]
fn treasure_is_picked_up_once() {
    let mut world = world_with_players(2);
    walk(&mut world, 1, &[Direction::Right, Direction::Right, Direction::Down, Direction::Down]);
    assert_eq!(world.player(1), at(2, 2, 0));
    assert!(world.has_treasure(Cell { x: 2, y: 3 }));
    world.apply_move(1, Direction::Down);
    assert_eq!(world.player(1), at(2, 3, 10));
    assert!(!world.has_treasure(Cell { x: 2, y: 3 }));
    assert_eq!(world.treasures(), vec![Cell { x: 5, y: 5 }]);

    walk(&mut world, 2, &[Direction::Right, Direction::Right, Direction::Down, Direction::Down]);
    world.apply_move(2, Direction::Down);
    assert_eq!(world.player(2), at(2, 3, 0));
    assert_eq!(world.player(1), at(2, 3, 10));
    assert_eq!(world.treasures(), vec![Cell { x: 5, y: 5 }]);
}

#[test]
fn treasure_is_not_picked_up_again_by_the_finder() {
    let mut world = world_with_players(1);
    walk(
        &mut world,
        1,
        &[Direction::Right, Direction::Right, Direction::Down, Direction::Down, Direction::Down],
    );
    assert_eq!(world.player(1), at(2, 3, TREASURE_REWARD));
    walk(&mut world, 1, &[Direction::Up, Direction::Down]);
    assert_eq!(world.player(1), at(2, 3, 10));
}

#[test]
fn treasures_add_up() {
    let mut world = world_with_players(1);
    walk(
        &mut world,
        1,
        &[Direction::Right, Direction::Right, Direction::Down, Direction::Down, Direction::Down],
    );
    walk(&mut world, 1, &[Direction::Down, Direction::Down]);
    walk(&mut world, 1, &[Direction::Right, Direction::Right, Direction::Right]);
    assert_eq!(world.player(1), at(5, 5, 20));
    assert_eq!(world.treasures(), vec![]);
}

#[test]
fn trap_resets_the_score_and_fires_once() {
    let mut world = world_with_players(2);
    walk(
        &mut world,
        1,
        &[Direction::Right, Direction::Right, Direction::Down, Direction::Down, Direction::Down],
    );
    assert_eq!(world.player(1), at(2, 3, 10));
    world.apply_move(1, Direction::Right);
    assert_eq!(world.player(1), at(3, 3, 0));
    assert!(!world.has_trap(Cell { x: 3, y: 3 }));
    assert_eq!(world.traps(), vec![Cell { x: 6, y: 6 }]);

    let mut rich = GameWorld::with_layout(
        4,
        1,
        vec![Cell { x: 1, y: 0 }],
        vec![Cell { x: 2, y: 0 }],
        9,
    )
    .unwrap();
    rich.apply_connect().unwrap();
    rich.apply_connect().unwrap();
    walk(&mut rich, 1, &[Direction::Right, Direction::Right]);
    assert_eq!(rich.player(1), at(2, 0, 0));
    walk(&mut rich, 1, &[Direction::Left, Direction::Right]);
    assert_eq!(rich.player(1), at(2, 0, 0));
    walk(&mut rich, 2, &[Direction::Right, Direction::Right]);
    assert_eq!(rich.player(2), at(2, 0, 0));
    assert_eq!(rich.traps(), vec![]);
}

#[test]
fn trap_leaves_a_later_visitor_alone() {
    let mut world = GameWorld::with_layout(
        3,
        2,
        vec![Cell { x: 0, y: 1 }],
        vec![Cell { x: 1, y: 0 }],
        9,
    )
    .unwrap();
    world.apply_connect().unwrap();
    world.apply_connect().unwrap();
    world.apply_move(1, Direction::Right);
    assert_eq!(world.player(1), at(1, 0, 0));
    world.apply_move(2, Direction::Down);
    assert_eq!(world.player(2), at(0, 1, 10));
    walk(&mut world, 2, &[Direction::Up, Direction::Right]);
    assert_eq!(world.player(2), at(1, 0, 10));
}

#[test]
fn a_clamped_move_still_looks_at_the_cell() {
    let mut world =
        GameWorld::with_layout(2, 2, vec![Cell { x: 0, y: 0 }], vec![], 9).unwrap();
    world.apply_connect().unwrap();
    assert_eq!(world.player(1), at(0, 0, 0));
    world.apply_move(1, Direction::Left);
    assert_eq!(world.player(1), at(0, 0, 10));
    world.apply_move(1, Direction::Left);
    assert_eq!(world.player(1), at(0, 0, 10));
}

#[test]
fn tick_counts_down_and_stops_at_zero() {
    let mut world = GameWorld::with_layout(2, 2, vec![], vec![], 2).unwrap();
    world.tick();
    assert_eq!(world.time_remaining(), 1);
    world.tick();
    assert_eq!(world.time_remaining(), 0);
    world.tick();
    assert_eq!(world.time_remaining(), 0);

    let mut full = GameWorld::new();
    for _ in 0..100 {
        full.tick();
    }
    assert_eq!(full.time_remaining(), 0);
}

#[test]
fn tick_touches_nothing_but_the_clock() {
    let mut world = world_with_players(2);
    world.apply_move(1, Direction::Right);
    let before = world.snapshot();
    world.tick();
    let after = world.snapshot();
    assert_eq!(after.time_remaining, 59);
    assert_eq!(after.players, before.players);
    assert_eq!(after.treasures, before.treasures);
    assert_eq!(after.traps, before.traps);
}

#[test]
fn layout_is_checked() {
    let a = Cell { x: 1, y: 1 };
    let b = Cell { x: 2, y: 2 };
    assert!(GameWorld::with_layout(3, 3, vec![a], vec![b], 1).is_some());
    assert!(GameWorld::with_layout(0, 3, vec![], vec![], 1).is_none());
    assert!(GameWorld::with_layout(3, 0, vec![], vec![], 1).is_none());
    assert!(GameWorld::with_layout(3, 3, vec![a, a], vec![], 1).is_none());
    assert!(GameWorld::with_layout(3, 3, vec![a, b, a], vec![], 1).is_none());
    assert!(GameWorld::with_layout(3, 3, vec![], vec![b, b], 1).is_none());
    assert!(GameWorld::with_layout(3, 3, vec![a, b], vec![b], 1).is_none());
    assert!(GameWorld::with_layout(3, 3, vec![a], vec![b, a], 1).is_none());
    assert!(GameWorld::with_layout(255, 255, vec![], vec![], u32::MAX).is_some());
}

#[test]
fn layout_of_the_callers_choosing_is_kept() {
    let world = GameWorld::with_layout(
        7,
        4,
        vec![Cell { x: 6, y: 3 }, Cell { x: 0, y: 0 }],
        vec![Cell { x: 200, y: 200 }],
        123,
    )
    .unwrap();
    assert_eq!(world.width(), 7);
    assert_eq!(world.height(), 4);
    assert_eq!(world.time_remaining(), 123);
    assert_eq!(world.treasures(), vec![Cell { x: 6, y: 3 }, Cell { x: 0, y: 0 }]);
    assert_eq!(world.traps(), vec![Cell { x: 200, y: 200 }]);
    assert_eq!(world.player_count(), 0);
}

#[test]
fn snapshot_lists_players_by_identity() {
    let mut world = world_with_players(3);
    walk(&mut world, 2, &[Direction::Right, Direction::Down]);
    world.apply_move(3, Direction::Down);
    world.tick();
    let snapshot = world.snapshot();
    assert_eq!(snapshot.time_remaining, 59);
    assert_eq!(
        snapshot.players,
        vec![
            PlayerRecord { id: 1, state: PlayerState { x: 0, y: 0, score: 0 } },
            PlayerRecord { id: 2, state: PlayerState { x: 1, y: 1, score: 0 } },
            PlayerRecord { id: 3, state: PlayerState { x: 0, y: 1, score: 0 } },
        ]
    );
    assert_eq!(snapshot.treasures, world.treasures());
    assert_eq!(snapshot.traps, world.traps());
}
