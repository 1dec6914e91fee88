use sokoban::components::{Direction, Position, Sprite};
use sokoban::loader::{initialize_level, load_map, LoadError};
use sokoban::resources::GameplayState;
use sokoban::resolver::resolve;
use sokoban::turn::{evaluate, tick, EngineError, InputSystem};
use sokoban::world::{create_box, create_box_spot, create_floor, create_player, create_wall, World};

fn player_position(world: &World) -> Position {
    for e in world.entities.iter() {
        if e.player.is_some() {
            return e.position;
        }
    }
    panic!("no player entity");
}

fn box_position(world: &World) -> Position {
    for e in world.entities.iter() {
        if e.box_tag.is_some() {
            return e.position;
        }
    }
    panic!("no box entity");
}

fn default_world() -> World {
    let mut world = World::new(8, 9);
    initialize_level(&mut world).expect("default level loads");
    world
}

#[test]
fn default_level_loads() {
    let world = default_world();
    // 72 cells, 2 void: 70 floors; 30 walls, 1 player, 1 box, 1 target.
    assert_eq!(world.entities.len(), 103);
    assert!(world.wf_check());
    let p = player_position(&world);
    assert_eq!((p.x, p.y), (2, 4));
    let b = box_position(&world);
    assert_eq!((b.x, b.y), (4, 2));
    assert_eq!(world.gameplay.moves_count, 0);
    assert!(matches!(world.gameplay.state, GameplayState::Playing));
}

#[test]
fn default_level_move_right() {
    // Player at (2, 4); the row is empty through (6, 4): one step right.
    let mut world = default_world();
    world.input_queue.keys_pressed.push(Direction::Right);
    tick(&mut world).expect("tick succeeds");
    let p = player_position(&world);
    assert_eq!((p.x, p.y), (3, 4));
    assert_eq!(world.gameplay.moves_count, 1);
    assert!(matches!(world.gameplay.state, GameplayState::Playing));
    let b = box_position(&world);
    assert_eq!((b.x, b.y), (4, 2));
    assert!(world.wf_check());
}

#[test]
fn chain_push_moves_player_and_box() {
    // Row: P B . — both shift one cell right, one move counted.
    let mut world = World::new(3, 1);
    create_floor(&mut world, Position { x: 0, y: 0, z: 0 });
    create_floor(&mut world, Position { x: 1, y: 0, z: 0 });
    create_floor(&mut world, Position { x: 2, y: 0, z: 0 });
    create_player(&mut world, Position { x: 0, y: 0, z: 0 });
    create_box(&mut world, Position { x: 1, y: 0, z: 0 });
    world.input_queue.keys_pressed.push(Direction::Right);
    tick(&mut world).expect("tick succeeds");
    assert_eq!(player_position(&world).x, 1);
    assert_eq!(box_position(&world).x, 2);
    assert_eq!(world.gameplay.moves_count, 1);
    assert!(world.wf_check());
}

#[test]
fn wall_blocks_whole_chain() {
    // Row: P B W — nothing moves, no move counted.
    let mut world = World::new(4, 1);
    create_player(&mut world, Position { x: 0, y: 0, z: 0 });
    create_box(&mut world, Position { x: 1, y: 0, z: 0 });
    create_wall(&mut world, Position { x: 2, y: 0, z: 0 });
    world.input_queue.keys_pressed.push(Direction::Right);
    tick(&mut world).expect("tick succeeds");
    assert_eq!(player_position(&world).x, 0);
    assert_eq!(box_position(&world).x, 1);
    assert_eq!(world.gameplay.moves_count, 0);
    assert!(world.wf_check());
}

#[test]
fn boundary_blocks_without_gap() {
    // Player on the left edge pushed left: empty plan, nothing moves.
    let mut world = World::new(3, 3);
    create_player(&mut world, Position { x: 0, y: 1, z: 0 });
    world.input_queue.keys_pressed.push(Direction::Left);
    tick(&mut world).expect("tick succeeds");
    let p = player_position(&world);
    assert_eq!((p.x, p.y), (0, 1));
    assert_eq!(world.gameplay.moves_count, 0);
}

#[test]
fn boundary_blocks_chain_without_gap() {
    // Row: P B at the right edge pushed right: no gap on the grid.
    let mut world = World::new(2, 1);
    create_player(&mut world, Position { x: 0, y: 0, z: 0 });
    create_box(&mut world, Position { x: 1, y: 0, z: 0 });
    world.input_queue.keys_pressed.push(Direction::Right);
    tick(&mut world).expect("tick succeeds");
    assert_eq!(player_position(&world).x, 0);
    assert_eq!(box_position(&world).x, 1);
    assert_eq!(world.gameplay.moves_count, 0);
}

#[test]
fn box_on_target_wins_same_tick() {
    // Row: P B S — the push lands the box on the only target: Won.
    let mut world = World::new(3, 1);
    create_player(&mut world, Position { x: 0, y: 0, z: 0 });
    create_box(&mut world, Position { x: 1, y: 0, z: 0 });
    create_box_spot(&mut world, Position { x: 2, y: 0, z: 0 });
    world.input_queue.keys_pressed.push(Direction::Right);
    tick(&mut world).expect("tick succeeds");
    assert_eq!(box_position(&world).x, 2);
    assert_eq!(world.gameplay.moves_count, 1);
    assert!(matches!(world.gameplay.state, GameplayState::Won));
}

#[test]
fn won_phase_never_reverts() {
    let mut world = World::new(3, 1);
    create_player(&mut world, Position { x: 0, y: 0, z: 0 });
    create_box(&mut world, Position { x: 1, y: 0, z: 0 });
    create_box_spot(&mut world, Position { x: 2, y: 0, z: 0 });
    world.input_queue.keys_pressed.push(Direction::Right);
    tick(&mut world).expect("tick succeeds");
    assert!(matches!(world.gameplay.state, GameplayState::Won));
    // Later ticks, with and without input, keep the phase Won.
    world.input_queue.keys_pressed.push(Direction::Left);
    tick(&mut world).expect("tick succeeds");
    assert!(matches!(world.gameplay.state, GameplayState::Won));
    tick(&mut world).expect("tick succeeds");
    assert!(matches!(world.gameplay.state, GameplayState::Won));
}

#[test]
fn invariant_holds_over_many_ticks() {
    let mut world = default_world();
    let commands = [
        Direction::Right,
        Direction::Right,
        Direction::Up,
        Direction::Left,
        Direction::Down,
        Direction::Down,
        Direction::Left,
        Direction::Up,
        Direction::Right,
        Direction::Down,
    ];
    for d in commands {
        world.input_queue.keys_pressed.push(d);
        tick(&mut world).expect("tick succeeds");
        assert!(world.wf_check());
    }
}

#[test]
fn queue_is_consumed_oldest_first() {
    // Right then Left: the first tick consumes Right.
    let mut world = World::new(3, 1);
    create_player(&mut world, Position { x: 0, y: 0, z: 0 });
    world.input_queue.keys_pressed.push(Direction::Right);
    world.input_queue.keys_pressed.push(Direction::Left);
    tick(&mut world).expect("tick succeeds");
    assert_eq!(player_position(&world).x, 1);
    assert_eq!(world.input_queue.keys_pressed.len(), 1);
    assert!(matches!(world.input_queue.keys_pressed[0], Direction::Left));
    tick(&mut world).expect("tick succeeds");
    assert_eq!(player_position(&world).x, 0);
    assert_eq!(world.gameplay.moves_count, 2);
}

#[test]
fn tick_without_input_changes_nothing() {
    let mut world = default_world();
    tick(&mut world).expect("tick succeeds");
    assert_eq!(player_position(&world).x, 2);
    assert_eq!(world.gameplay.moves_count, 0);
    assert!(matches!(world.gameplay.state, GameplayState::Playing));
}

#[test]
fn input_system_runs_one_tick() {
    let mut world = default_world();
    world.input_queue.keys_pressed.push(Direction::Down);
    let system = InputSystem {};
    system.run(&mut world).expect("tick succeeds");
    let p = player_position(&world);
    assert_eq!((p.x, p.y), (2, 5));
    assert_eq!(world.gameplay.moves_count, 1);
}

#[test]
fn resolve_lists_chain_in_ray_order() {
    let mut world = World::new(4, 1);
    create_player(&mut world, Position { x: 0, y: 0, z: 0 });
    create_box(&mut world, Position { x: 1, y: 0, z: 0 });
    let plan = resolve(&world.entities, 0, 0, Direction::Right, 4, 1);
    assert_eq!(plan, vec![0, 1]);
}

#[test]
fn resolve_empty_on_wall() {
    let mut world = World::new(4, 1);
    create_player(&mut world, Position { x: 0, y: 0, z: 0 });
    create_box(&mut world, Position { x: 1, y: 0, z: 0 });
    create_wall(&mut world, Position { x: 2, y: 0, z: 0 });
    let plan = resolve(&world.entities, 0, 0, Direction::Right, 4, 1);
    assert!(plan.is_empty());
}

#[test]
fn two_players_on_one_ray_fail_fast() {
    // Two players and a single gap: the combined plan relocates the second
    // player twice, past the boundary — an invariant violation.
    let mut world = World::new(3, 1);
    create_player(&mut world, Position { x: 0, y: 0, z: 0 });
    create_player(&mut world, Position { x: 1, y: 0, z: 0 });
    world.input_queue.keys_pressed.push(Direction::Right);
    let r = tick(&mut world);
    assert!(matches!(r, Err(EngineError::OutOfBoundsRelocation)));
    // The store is untouched.
    assert_eq!(world.entities[0].position.x, 0);
    assert_eq!(world.entities[1].position.x, 1);
    assert_eq!(world.gameplay.moves_count, 0);
}

#[test]
fn evaluate_with_no_targets_wins() {
    // Vacuously: no scoring target means every target is covered.
    let mut world = World::new(2, 1);
    create_player(&mut world, Position { x: 0, y: 0, z: 0 });
    let phase = evaluate(&mut world);
    assert!(matches!(phase, GameplayState::Won));
}

#[test]
fn evaluate_uncovered_target_stays_playing() {
    let mut world = World::new(3, 1);
    create_player(&mut world, Position { x: 0, y: 0, z: 0 });
    create_box(&mut world, Position { x: 1, y: 0, z: 0 });
    create_box_spot(&mut world, Position { x: 2, y: 0, z: 0 });
    let phase = evaluate(&mut world);
    assert!(matches!(phase, GameplayState::Playing));
}

#[test]
fn player_on_target_counts_as_covered() {
    // The player carries movable semantics, so it covers a target.
    let mut world = World::new(2, 1);
    create_box_spot(&mut world, Position { x: 0, y: 0, z: 0 });
    create_player(&mut world, Position { x: 0, y: 0, z: 0 });
    let phase = evaluate(&mut world);
    assert!(matches!(phase, GameplayState::Won));
}

#[test]
fn wf_check_detects_shared_cell() {
    let mut world = World::new(3, 1);
    create_box(&mut world, Position { x: 1, y: 0, z: 0 });
    create_box(&mut world, Position { x: 1, y: 0, z: 0 });
    assert!(!world.wf_check());
}

#[test]
fn floor_and_target_do_not_block() {
    // A floor and a target under the box never block the chain.
    let mut world = World::new(3, 1);
    create_floor(&mut world, Position { x: 1, y: 0, z: 0 });
    create_box_spot(&mut world, Position { x: 1, y: 0, z: 0 });
    create_player(&mut world, Position { x: 0, y: 0, z: 0 });
    world.input_queue.keys_pressed.push(Direction::Right);
    tick(&mut world).expect("tick succeeds");
    assert_eq!(player_position(&world).x, 1);
    assert_eq!(world.gameplay.moves_count, 1);
}

#[test]
fn gameplay_state_names() {
    assert_eq!(GameplayState::Playing.name(), "Playing");
    assert_eq!(GameplayState::Won.name(), "Won");
    assert!(matches!(GameplayState::default(), GameplayState::Playing));
}

#[test]
fn sprite_paths_match_kind() {
    let world = default_world();
    let mut saw_player = false;
    for e in world.entities.iter() {
        if e.player.is_some() {
            assert!(matches!(e.renderable.sprite, Sprite::Player));
            assert_eq!(e.renderable.path(), "/images/player.png");
            saw_player = true;
        }
        if e.wall.is_some() {
            assert_eq!(e.renderable.path(), "/images/wall.png");
        }
    }
    assert!(saw_player);
}

#[test]
fn load_rejects_unrecognized_token() {
    let mut world = World::new(2, 1);
    let r = load_map(&mut world, "P X".to_string());
    match r {
        Err(LoadError::UnrecognizedToken { x, y, token }) => {
            assert_eq!((x, y), (1, 0));
            assert_eq!(token, vec!['X']);
        }
        other => panic!("expected an unrecognized-token error, got {:?}", other),
    }
    assert_eq!(world.entities.len(), 0);
}

#[test]
fn load_rejects_wrong_row_count() {
    let mut world = World::new(2, 2);
    let r = load_map(&mut world, "P .".to_string());
    match r {
        Err(LoadError::BadRowCount { expected, found }) => {
            assert_eq!(expected, 2);
            assert_eq!(found, 1);
        }
        other => panic!("expected a row-count error, got {:?}", other),
    }
    assert_eq!(world.entities.len(), 0);
}

#[test]
fn load_rejects_wrong_row_width() {
    let mut world = World::new(2, 2);
    let r = load_map(&mut world, "P .\n.".to_string());
    match r {
        Err(LoadError::BadRowWidth { y, expected, found }) => {
            assert_eq!(y, 1);
            assert_eq!(expected, 2);
            assert_eq!(found, 1);
        }
        other => panic!("expected a row-width error, got {:?}", other),
    }
    assert_eq!(world.entities.len(), 0);
}

#[test]
fn load_rejects_multi_character_token() {
    let mut world = World::new(2, 1);
    let r = load_map(&mut world, "P BW".to_string());
    match r {
        Err(LoadError::UnrecognizedToken { x, y, token }) => {
            assert_eq!((x, y), (1, 0));
            assert_eq!(token, vec!['B', 'W']);
        }
        other => panic!("expected an unrecognized-token error, got {:?}", other),
    }
}

#[test]
fn load_ignores_extra_blanks_and_empty_lines() {
    let mut world = World::new(2, 1);
    load_map(&mut world, "\n  P   . \r\n\n".to_string()).expect("load succeeds");
    assert_eq!(world.entities.len(), 3);
    assert_eq!(player_position(&world).x, 0);
}

#[test]
fn load_void_creates_no_entity() {
    let mut world = World::new(2, 1);
    load_map(&mut world, "N P".to_string()).expect("load succeeds");
    // One floor and the player; nothing on the void cell.
    assert_eq!(world.entities.len(), 2);
    assert_eq!(player_position(&world).x, 1);
}

#[test]
fn load_assigns_layers_by_kind() {
    let mut world = World::new(5, 1);
    load_map(&mut world, ". W P B S".to_string()).expect("load succeeds");
    for e in world.entities.iter() {
        let z = e.position.z;
        if e.wall.is_some() || e.player.is_some() || e.box_tag.is_some() {
            assert_eq!(z, 10);
        } else if e.box_spot.is_some() {
            assert_eq!(z, 9);
        } else {
            assert_eq!(z, 5);
        }
    }
}

#[test]
fn moves_count_counts_ticks_not_entities() {
    // A two-entity chain push bumps the counter by exactly one.
    let mut world = World::new(3, 1);
    create_player(&mut world, Position { x: 0, y: 0, z: 0 });
    create_box(&mut world, Position { x: 1, y: 0, z: 0 });
    world.input_queue.keys_pressed.push(Direction::Right);
    tick(&mut world).expect("tick succeeds");
    assert_eq!(world.gameplay.moves_count, 1);
}
