use counterpuncher::{
    after_tick, await_input, build_archer, build_empty_barrel, build_mook, build_player, run_systems,
    track_entity, AiSystem, AttackIntent, AttackType, Behavior, CanActFlag, Charge, Command,
    DeathSystem, Direction, Health, Lance, MapIndexSystem, MoveIntent, MovementSystem,
    NavigationPath, PartMoveIntent, PartMoveSystem, Point, Position, Rect, RunState, TileMap,
    TileType, TurnSystem, World,
};

fn open_map(width: i32, height: i32) -> TileMap {
    let mut map = TileMap::new(width, height, 1);
    map.build_room(Rect { x1: 1, x2: width - 2, y1: 1, y2: height - 2 });
    map.set_blocked_tiles();
    map
}

fn arena() -> World {
    let mut world = World::new(open_map(30, 30), build_player(Point::new(10, 14))).unwrap();
    assert_eq!(world.spawn(build_mook(Point::new(10, 10))), Some(1));
    assert_eq!(world.spawn(build_archer(Point::new(20, 20))), Some(2));
    world
}

/// The tiles under an actor, from its position and its footprint.
fn tiles_of(world: &World, actor: usize) -> Vec<usize> {
    let at = world.positions[actor];
    let mut tiles = vec![world.map.get_index(at.x, at.y)];
    if let Some(multi) = &world.multis[actor] {
        for cell in multi.offsets() {
            tiles.push(world.map.get_index(at.x + cell.x, at.y + cell.y));
        }
    }
    tiles
}

/// Every tile is blocked exactly if it is a wall, indexed, or under an actor,
/// and the index holds exactly the tiles under the actors that are alive.
fn assert_in_order(world: &World) {
    assert!(world.is_in_order());
    let mut covered = vec![None; world.map.tiles.len()];
    for actor in 0..world.alive.len() {
        if world.alive[actor] {
            for t in tiles_of(world, actor) {
                assert_eq!(covered[t], None, "two actors on tile {}", t);
                covered[t] = Some(actor);
            }
        }
    }
    for t in 0..world.map.tiles.len() {
        assert_eq!(world.map.creature_map.get(&t).copied(), covered[t], "tile {}", t);
        let wall = world.map.tiles[t] == TileType::Wall;
        let indexed = world.map.creature_map.contains_key(&t);
        assert_eq!(world.map.blocked_tiles[t], wall || indexed || covered[t].is_some(), "tile {}", t);
    }
}

/// A tick in which nobody asks for a path.
fn tick(world: &mut World) {
    let paths = vec![None; world.alive.len()];
    let mut rng = rltk::RandomNumberGenerator::seeded(11);
    assert!(world.is_in_order() && world.has_headroom());
    run_systems(world, &paths, &mut rng);
}

#[test]
fn a_new_world_holds_the_player() {
    let world = World::new(open_map(30, 30), build_player(Point::new(10, 14))).unwrap();
    assert_eq!(world.player, 0);
    assert!(!world.dead);
    assert_eq!(world.alive, vec![true]);
    assert_eq!(world.positions, vec![Position { x: 10, y: 14 }]);
    assert_eq!(world.map.creature_map.get(&(14 * 30 + 10)), Some(&0));
    assert_in_order(&world);
}

#[test]
fn a_player_in_a_wall_makes_no_world() {
    assert!(World::new(open_map(30, 30), build_player(Point::new(0, 14))).is_none());
    assert!(World::new(open_map(30, 30), build_player(Point::new(40, 14))).is_none());
}

#[test]
fn spawning_places_the_actor_or_changes_nothing() {
    let mut world = arena();
    assert_in_order(&world);
    assert_eq!(world.map.creature_map.len(), 1 + 7 + 1);
    // the footprint would overlap the mook
    assert_eq!(world.spawn(build_mook(Point::new(12, 10))), None);
    // the anchor is taken
    assert_eq!(world.spawn(build_archer(Point::new(10, 14))), None);
    // the footprint would reach into the wall
    assert_eq!(world.spawn(build_mook(Point::new(1, 5))), None);
    assert_eq!(world.alive.len(), 3);
    assert_eq!(world.map.creature_map.len(), 9);
    assert_in_order(&world);
    assert_eq!(world.spawn(build_mook(Point::new(13, 10))), Some(3));
    assert_in_order(&world);
}

#[test]
fn track_entity_places_by_tile_number() {
    let mut world = arena();
    let tile = world.map.get_index(5, 7);
    assert_eq!(track_entity(&mut world, build_archer(Point::new(0, 0)), tile), Some(3));
    assert_eq!(world.positions[3], Position { x: 5, y: 7 });
    assert_eq!(world.map.creature_map.get(&tile), Some(&3));
    assert_eq!(track_entity(&mut world, build_archer(Point::new(0, 0)), tile), None);
    assert_eq!(track_entity(&mut world, build_archer(Point::new(0, 0)), 900), None);
    assert_eq!(track_entity(&mut world, build_archer(Point::new(0, 0)), usize::MAX), None);
    assert_in_order(&world);
}

#[test]
fn movement_applies_steps_and_uses_the_intents_up() {
    let mut world = arena();
    world.facings[0] = Some(Direction::N);
    world.move_intents[0] = Some(MoveIntent { loc: Point::new(11, 14) });
    world.move_intents[1] = Some(MoveIntent { loc: Point::new(11, 10) });
    world.move_intents[2] = Some(MoveIntent { loc: Point::new(0, 20) });
    world.viewsheds[0].as_mut().unwrap().dirty = false;
    world.viewsheds[2].as_mut().unwrap().dirty = false;
    MovementSystem.run(&mut world);
    assert_eq!(world.positions[0], Position { x: 11, y: 14 });
    assert_eq!(world.positions[1], Position { x: 11, y: 10 });
    assert_eq!(world.positions[2], Position { x: 20, y: 20 });
    assert_eq!(world.move_intents, vec![None, None, None]);
    assert!(world.viewsheds[0].as_ref().unwrap().dirty);
    assert!(!world.viewsheds[2].as_ref().unwrap().dirty);
    assert_eq!(world.facings[0], Some(Direction::E));
    assert_eq!(world.facings[1], Some(Direction::E));
    assert_eq!(world.facings[2], None);
    assert_in_order(&world);
}

#[test]
fn a_destination_taken_in_the_meantime_is_caught() {
    let mut world = arena();
    assert_eq!(world.spawn(build_archer(Point::new(12, 14))), Some(3));
    // both want the tile between them; the lower id moves first
    world.move_intents[0] = Some(MoveIntent { loc: Point::new(11, 14) });
    world.move_intents[3] = Some(MoveIntent { loc: Point::new(11, 14) });
    MovementSystem.run(&mut world);
    assert_eq!(world.positions[0], Position { x: 11, y: 14 });
    assert_eq!(world.positions[3], Position { x: 12, y: 14 });
    assert_in_order(&world);
}

#[test]
fn the_dead_are_removed_and_the_player_ends_the_simulation() {
    let mut world = arena();
    world.healths[1] = Some(Health { current: 0, max: 10 });
    world.healths[2] = Some(Health { current: -3, max: 2 });
    DeathSystem.run(&mut world);
    assert_eq!(world.alive, vec![true, false, false]);
    assert_eq!(world.map.creature_map.len(), 1);
    assert!(!world.dead);
    assert_in_order(&world);
    world.healths[0] = Some(Health { current: 0, max: 10 });
    DeathSystem.run(&mut world);
    assert!(world.dead);
    assert_eq!(world.alive, vec![true, false, false]);
    assert_eq!(world.map.creature_map.get(&(14 * 30 + 10)), Some(&0));
    assert_in_order(&world);
}

#[test]
fn who_has_no_health_does_not_die() {
    let mut world = arena();
    world.healths[2] = None;
    DeathSystem.run(&mut world);
    assert_eq!(world.alive, vec![true, true, true]);
}

#[test]
fn reindexing_repairs_the_blocked_bitmap() {
    let mut world = arena();
    for b in world.map.blocked_tiles.iter_mut() {
        *b = !*b;
    }
    MapIndexSystem.run(&mut world);
    assert_in_order(&world);
}

#[test]
fn parts_move_with_their_tiles() {
    let mut world = arena();
    world.part_moves[1] = Some(PartMoveIntent { part_delta: vec![Point::new(-1, 0)] });
    PartMoveSystem.run(&mut world);
    let multi = world.multis[1].as_ref().unwrap();
    assert_eq!(
        multi.part_list[0].symbol_map.iter().map(|c| c.0).collect::<Vec<_>>(),
        vec![Point::new(-2, 0), Point::new(-2, 1), Point::new(-1, 1)]
    );
    assert_eq!(multi.part_list[1].symbol_map[0].0, Point::new(0, -1));
    assert_eq!(world.part_moves, vec![None, None, None]);
    assert_eq!(world.map.creature_map.get(&world.map.get_index(8, 10)), Some(&1));
    assert_eq!(world.map.creature_map.get(&world.map.get_index(10, 11)), None);
    assert_in_order(&world);
}

#[test]
fn parts_that_cannot_move_stay() {
    let mut world = arena();
    assert_eq!(world.spawn(build_archer(Point::new(8, 10))), Some(3));
    let before = world.multis[1].as_ref().unwrap().offsets();
    for part_delta in [
        vec![Point::new(-1, 0)],
        vec![Point::new(0, 0); 3],
        vec![Point::new(i32::MAX, 0)],
        vec![Point::new(0, 40)],
    ] {
        world.part_moves[1] = Some(PartMoveIntent { part_delta });
        PartMoveSystem.run(&mut world);
        assert_eq!(world.multis[1].as_ref().unwrap().offsets(), before);
        assert_eq!(world.part_moves[1], None);
        assert_in_order(&world);
    }
}

#[test]
fn a_tick_moves_then_strikes_then_buries() {
    let mut world = arena();
    world.healths[2] = Some(Health { current: 1, max: 2 });
    // the archer steps next to the player, who strikes where the archer will be
    world.move_intents[2] = Some(MoveIntent { loc: Point::new(20, 21) });
    world.attack_intents[0] =
        Some(AttackIntent { main: AttackType::Punch, modifier: None, loc: Point::new(20, 21), delay: 0 });
    tick(&mut world);
    assert_eq!(world.positions[2], Position { x: 20, y: 21 });
    assert_eq!(world.healths[2], Some(Health { current: 0, max: 2 }));
    assert_eq!(world.alive, vec![true, true, false]);
    assert_eq!(world.map.creature_map.get(&world.map.get_index(20, 21)), None);
    assert_eq!(world.map.creature_map.get(&world.map.get_index(20, 20)), None);
    assert_eq!(world.move_intents, vec![None, None, None]);
    assert_eq!(world.attack_intents, vec![None, None, None]);
    assert_in_order(&world);
}

#[test]
fn every_tick_leaves_the_map_in_order() {
    let mut world = arena();
    assert_eq!(world.spawn(build_empty_barrel(Point::new(12, 14), 0)), Some(3));
    let steps = [(1, 0), (0, 1), (-1, 0), (0, -1), (1, 0), (1, 0), (0, -1), (-1, 0)];
    for (round, step) in steps.iter().enumerate() {
        for actor in 0..world.alive.len() {
            let at = world.positions[actor];
            world.move_intents[actor] =
                Some(MoveIntent { loc: Point::new(at.x + step.0, at.y + step.1) });
        }
        if round % 2 == 0 {
            let at = world.positions[1];
            world.attack_intents[0] = Some(AttackIntent {
                main: AttackType::Sweep,
                modifier: None,
                loc: Point::new(at.x, at.y),
                delay: 0,
            });
        }
        world.part_moves[1] = Some(PartMoveIntent { part_delta: vec![Point::new(0, 0), Point::new(1, 0)] });
        tick(&mut world);
        assert_in_order(&world);
        assert!(world.move_intents.iter().all(|i| i.is_none()));
        assert!(world.part_moves.iter().all(|i| i.is_none()));
    }
    assert_eq!(world.healths[1], Some(Health { current: 6, max: 10 }));
}

#[test]
fn a_tick_lets_everybody_decide_first() {
    let mut world = arena();
    // the archer sees the player and is out of reach: it asks for a path
    world.viewsheds[2].as_mut().unwrap().visible = vec![Point::new(10, 14)];
    world.can_act[2] = Some(CanActFlag { is_reaction: false, reaction_target: None });
    // the mook has lost the player and arrives where it last saw it
    world.ai_states[1].as_mut().unwrap().status = Behavior::Chase { target_point: Point::new(10, 10) };
    world.can_act[1] = Some(CanActFlag { is_reaction: false, reaction_target: None });
    let goals: Vec<Option<usize>> = (0..3).map(|a| AiSystem::path_goal(&world, a)).collect();
    let player_tile = world.map.get_index(10, 14);
    assert_eq!(goals, vec![None, Some(world.map.get_index(10, 10)), Some(player_tile)]);
    let from = world.map.get_index(20, 20);
    let paths = vec![
        None,
        Some(NavigationPath { destination: 0, success: true, steps: vec![world.map.get_index(10, 10)] }),
        Some(NavigationPath { destination: player_tile, success: true, steps: vec![from, from - 1, from - 2] }),
    ];
    let mut rng = rltk::RandomNumberGenerator::seeded(5);
    run_systems(&mut world, &paths, &mut rng);
    assert_eq!(world.positions[2], Position { x: 19, y: 20 });
    assert_eq!(world.ai_states[2].unwrap().status, Behavior::Chase { target_point: Point::new(10, 14) });
    assert_eq!(world.positions[1], Position { x: 10, y: 10 });
    assert_eq!(world.ai_states[1].unwrap().status, Behavior::Wander);
    // whoever decided has spent its leave; the player held none, so a new
    // round begins, and everybody holds new leave
    let leave = Some(CanActFlag { is_reaction: false, reaction_target: None });
    assert_eq!(world.can_act, vec![leave, leave, leave]);
    assert_in_order(&world);
}

#[test]
fn a_round_is_two_ticks_long() {
    let mut world = arena();
    let leave = Some(CanActFlag { is_reaction: false, reaction_target: None });
    assert_eq!(world.can_act, vec![None, None, None]);
    // nobody holds leave: nobody decides in this tick, and a round begins
    tick(&mut world);
    assert_eq!(world.move_intents, vec![None, None, None]);
    assert_eq!(world.positions[1], Position { x: 10, y: 10 });
    assert_eq!(world.can_act, vec![leave, leave, leave]);
    assert_eq!(after_tick(&world), RunState::Running);
    // the mook, which sees nobody, wanders off; the player has yet to move,
    // so nobody is given new leave
    tick(&mut world);
    assert!(world.positions[1] != Position { x: 10, y: 10 });
    assert_eq!(world.can_act, vec![leave, None, None]);
    assert_eq!(after_tick(&world), RunState::AwaitingInput);
    // the player waits; its turn ends, and the next round begins
    let mut lance = Lance::new();
    let mut charge = Charge { active: false, direction: Direction::N, speed: 0 };
    let next = await_input(&mut world, &mut lance, &mut charge, Some(Command::Wait));
    assert_eq!(next, RunState::Running);
    assert_eq!(world.can_act, vec![None, None, None]);
    let at = world.positions[1];
    tick(&mut world);
    assert_eq!(world.positions[1], at);
    assert_eq!(world.can_act, vec![leave, leave, leave]);
    assert_eq!(after_tick(&world), RunState::Running);
    tick(&mut world);
    assert!(world.positions[1] != at);
    assert_eq!(after_tick(&world), RunState::AwaitingInput);
    assert_in_order(&world);
}

#[test]
fn alone_on_the_level_the_player_is_asked_after_every_tick() {
    let mut world = World::new(open_map(30, 30), build_player(Point::new(10, 14))).unwrap();
    let leave = Some(CanActFlag { is_reaction: false, reaction_target: None });
    assert_eq!(after_tick(&world), RunState::Running);
    tick(&mut world);
    assert_eq!(world.can_act, vec![leave]);
    assert_eq!(after_tick(&world), RunState::AwaitingInput);
}

#[test]
fn a_missing_path_counts_as_none_found() {
    let mut world = arena();
    world.viewsheds[2].as_mut().unwrap().visible = vec![Point::new(10, 14)];
    world.can_act[2] = Some(CanActFlag { is_reaction: false, reaction_target: None });
    let mut rng = rltk::RandomNumberGenerator::seeded(5);
    AiSystem.run(&mut world, &vec![None, None, None], &mut rng);
    assert_eq!(world.ai_states[2].unwrap().status, Behavior::Wander);
    assert_eq!(world.move_intents[2], None);
    assert_eq!(world.can_act[2], None);
}

#[test]
fn leave_is_handed_out_to_those_who_take_turns() {
    let mut world = arena();
    let mook = world.spawn(build_mook(Point::new(3, 3))).expect("the mook fits");
    let barrel = world.spawn(build_empty_barrel(Point::new(6, 6), 0)).expect("the barrel fits");
    let me = world.player;
    world.can_act[me] = None;
    world.can_act[mook] = None;
    world.can_act[barrel] = None;
    let positions = world.positions.clone();
    let blocked = world.map.blocked_tiles.clone();
    TurnSystem.run(&mut world);
    let leave = Some(CanActFlag { is_reaction: false, reaction_target: None });
    assert_eq!(world.can_act[me], leave);
    assert_eq!(world.can_act[mook], leave);
    assert_eq!(world.can_act[barrel], None);
    assert_eq!(world.positions, positions);
    assert_eq!(world.map.blocked_tiles, blocked);
    assert!(world.is_in_order());
}

#[test]
fn while_the_player_holds_leave_nobody_is_admitted() {
    let mut world = arena();
    let mook = world.spawn(build_mook(Point::new(3, 3))).expect("the mook fits");
    let held = Some(CanActFlag { is_reaction: true, reaction_target: Some(mook) });
    let me = world.player;
    world.can_act[me] = held;
    TurnSystem.run(&mut world);
    assert_eq!(world.can_act, vec![held, None, None, None]);
}

#[test]
fn paths_for_too_few_actors_count_as_none_found() {
    let mut world = arena();
    world.viewsheds[2].as_mut().unwrap().visible = vec![Point::new(10, 14)];
    world.can_act[2] = Some(CanActFlag { is_reaction: false, reaction_target: None });
    let mut rng = rltk::RandomNumberGenerator::seeded(5);
    AiSystem.run(&mut world, &vec![], &mut rng);
    assert_eq!(world.ai_states[2].unwrap().status, Behavior::Wander);
    assert_eq!(world.move_intents[2], None);
    assert_eq!(world.attack_intents[2], None);
    assert_eq!(world.can_act[2], None);
}

#[test]
fn a_tick_leaves_the_ground_as_it_was() {
    let mut world = arena();
    let ground = world.map.tiles.clone();
    let rooms = world.map.rooms.clone();
    for _ in 0..5 {
        tick(&mut world);
    }
    assert_eq!(world.map.tiles, ground);
    assert_eq!(world.map.rooms, rooms);
    assert_in_order(&world);
}

#[test]
fn a_press_of_the_player_lands_in_the_next_tick() {
    let mut world = arena();
    assert_eq!(world.spawn(build_archer(Point::new(11, 14))), Some(3));
    world.facings[0] = Some(Direction::E);
    world.can_act[0] = Some(CanActFlag { is_reaction: false, reaction_target: None });
    let mut lance = Lance::new();
    let mut charge = Charge { active: false, direction: Direction::N, speed: 0 };
    let next = await_input(&mut world, &mut lance, &mut charge, Some(Command::Light));
    assert_eq!(next, RunState::Running);
    assert_eq!(world.can_act[0], None);
    tick(&mut world);
    // the draw attack is a punch at the tile ahead
    assert_eq!(world.healths[3], Some(Health { current: 1, max: 2 }));
    assert_eq!(world.attack_intents[0], None);
    assert!(world.can_act[0].is_some());
    assert_in_order(&world);
}
