use counterpuncher::sys_ai::{can_see_target, select_attack};
use counterpuncher::{
    build_mook, build_player, AiState, AiStep, AiSystem, AttackType, Behavior, CanActFlag,
    MoveIntent, Moveset, NavigationPath, NextIntent, Point, Position, Rect, TileMap, Viewshed, World,
};
use rltk::RandomNumberGenerator;

fn open_map(width: i32, height: i32) -> TileMap {
    let mut map = TileMap::new(width, height, 1);
    map.build_room(Rect { x1: 1, x2: width - 2, y1: 1, y2: height - 2 });
    map.set_blocked_tiles();
    map
}

fn mook_moves() -> Moveset {
    Moveset { moves: vec![(AttackType::Sweep, 25), (AttackType::Punch, 75)] }
}

fn attack_of(step: AiStep) -> (AttackType, Point) {
    match step {
        AiStep::Done { intent: NextIntent::Attack { intent } } => {
            assert_eq!(intent.modifier, None);
            assert_eq!(intent.delay, 0);
            (intent.main, intent.loc)
        }
        other => panic!("no attack: {:?}", other),
    }
}

/// A world with the player at `player` and a mook that may act at `mook`.
fn duel(player: Point, mook: Point) -> World {
    let mut world = World::new(open_map(30, 30), build_player(player)).unwrap();
    assert_eq!(world.spawn(build_mook(mook)), Some(1));
    world.can_act[1] = Some(CanActFlag { is_reaction: false, reaction_target: None });
    world
}

#[test]
fn a_sleeper_sleeps() {
    let map = open_map(20, 20);
    let turn = AiSystem::decide(
        Behavior::Sleep,
        true,
        Point::new(5, 5),
        Point::new(5, 6),
        &mook_moves(),
        Some(Point::new(4, 5)),
        0,
        &map,
    );
    assert_eq!(turn, (Behavior::Sleep, AiStep::Done { intent: NextIntent::Idle }));
}

#[test]
fn fleeing_is_a_no_op() {
    let map = open_map(20, 20);
    let turn = AiSystem::decide(
        Behavior::Flee,
        true,
        Point::new(5, 5),
        Point::new(5, 6),
        &mook_moves(),
        None,
        0,
        &map,
    );
    assert_eq!(turn, (Behavior::Flee, AiStep::Done { intent: NextIntent::Idle }));
}

#[test]
fn a_wanderer_takes_the_exit_that_was_drawn() {
    let map = open_map(20, 20);
    let turn = AiSystem::decide(
        Behavior::Wander,
        false,
        Point::new(5, 5),
        Point::new(15, 15),
        &mook_moves(),
        Some(Point::new(4, 5)),
        0,
        &map,
    );
    let step = NextIntent::Move { intent: MoveIntent { loc: Point::new(4, 5) } };
    assert_eq!(turn, (Behavior::Wander, AiStep::Done { intent: step }));
}

#[test]
fn a_wanderer_without_an_exit_stays() {
    let map = open_map(20, 20);
    let turn = AiSystem::decide(
        Behavior::Wander,
        false,
        Point::new(5, 5),
        Point::new(15, 15),
        &mook_moves(),
        None,
        0,
        &map,
    );
    assert_eq!(turn, (Behavior::Wander, AiStep::Done { intent: NextIntent::Idle }));
}

#[test]
fn an_adjacent_target_is_attacked_in_either_band() {
    let map = open_map(20, 20);
    let from = Point::new(5, 5);
    let target = Point::new(5, 6);
    for roll in 0..100 {
        for status in [Behavior::Wander, Behavior::Chase { target_point: Point::new(9, 9) }] {
            let (next, step) =
                AiSystem::decide(status, true, from, target, &mook_moves(), None, roll, &map);
            assert_eq!(next, Behavior::Chase { target_point: target });
            let (attack, loc) = attack_of(step);
            if roll < 25 {
                assert_eq!((attack, loc), (AttackType::Sweep, from));
            } else {
                assert_eq!((attack, loc), (AttackType::Punch, target));
            }
        }
    }
}

#[test]
fn a_target_out_of_reach_is_walked_to() {
    let map = open_map(20, 20);
    let target = Point::new(9, 5);
    for roll in [0, 24, 25, 99] {
        let turn = AiSystem::decide(
            Behavior::Wander,
            true,
            Point::new(5, 5),
            target,
            &mook_moves(),
            Some(Point::new(4, 5)),
            roll,
            &map,
        );
        let goal = map.get_index(9, 5);
        assert_eq!(turn, (Behavior::Chase { target_point: target }, AiStep::Seek { goal }));
    }
}

#[test]
fn a_chase_without_sight_heads_for_the_last_known_tile() {
    let map = open_map(20, 20);
    let last = Point::new(7, 3);
    let turn = AiSystem::decide(
        Behavior::Chase { target_point: last },
        false,
        Point::new(5, 5),
        Point::new(5, 6),
        &mook_moves(),
        None,
        0,
        &map,
    );
    let goal = map.get_index(7, 3);
    assert_eq!(turn, (Behavior::Chase { target_point: last }, AiStep::Seek { goal }));
}

#[test]
fn a_prepared_attack_is_queued_and_sight_decides_what_follows() {
    let map = open_map(20, 20);
    let status = Behavior::Attack { attack: AttackType::Haymaker, attack_loc: Point::new(6, 5) };
    let player = Point::new(8, 8);
    let moves = mook_moves();
    let (seen, step) = AiSystem::decide(status, true, Point::new(5, 5), player, &moves, None, 0, &map);
    assert_eq!(seen, Behavior::Chase { target_point: player });
    assert_eq!(attack_of(step), (AttackType::Haymaker, Point::new(6, 5)));
    let (unseen, step) =
        AiSystem::decide(status, false, Point::new(5, 5), player, &moves, None, 0, &map);
    assert_eq!(unseen, Behavior::Wander);
    assert_eq!(attack_of(step), (AttackType::Haymaker, Point::new(6, 5)));
}

#[test]
fn a_move_that_does_not_reach_falls_through_without_a_new_draw() {
    let moves = Moveset { moves: vec![(AttackType::Recover, 50), (AttackType::Punch, 50)] };
    let from = Point::new(5, 5);
    let target = Point::new(6, 5);
    for roll in [0, 49, 50, 99] {
        assert_eq!(select_attack(&moves, roll, from, target), Some((AttackType::Punch, target)));
    }
}

#[test]
fn a_draw_beyond_the_weights_selects_nothing() {
    let moves = Moveset { moves: vec![(AttackType::Punch, 30)] };
    let from = Point::new(5, 5);
    let target = Point::new(6, 5);
    assert_eq!(select_attack(&moves, 29, from, target), Some((AttackType::Punch, target)));
    assert_eq!(select_attack(&moves, 30, from, target), None);
    assert_eq!(select_attack(&moves, 99, from, target), None);
    assert_eq!(select_attack(&Moveset { moves: vec![] }, 0, from, target), None);
}

#[test]
fn a_draw_skips_the_moves_before_its_band() {
    let moves = Moveset { moves: vec![(AttackType::Punch, 25), (AttackType::Ranged, 75)] };
    let from = Point::new(5, 5);
    let near = Point::new(6, 5);
    assert_eq!(select_attack(&moves, 24, from, near), Some((AttackType::Punch, near)));
    assert_eq!(select_attack(&moves, 25, from, near), Some((AttackType::Ranged, near)));
    let far = Point::new(8, 5);
    assert_eq!(select_attack(&moves, 0, from, far), Some((AttackType::Ranged, far)));
}

#[test]
fn weights_that_nearly_overflow_are_added_up_safely() {
    let moves = Moveset {
        moves: vec![(AttackType::Recover, u32::MAX), (AttackType::Recover, u32::MAX), (AttackType::Punch, 1)],
    };
    let from = Point::new(5, 5);
    let target = Point::new(6, 5);
    assert_eq!(select_attack(&moves, u32::MAX, from, target), Some((AttackType::Punch, target)));
}

#[test]
fn sight_is_a_tile_of_the_viewshed() {
    let viewshed = Viewshed { visible: vec![Point::new(1, 1), Point::new(2, 1)], dirty: false, range: 5 };
    assert!(can_see_target(&viewshed, Point::new(2, 1)));
    assert!(!can_see_target(&viewshed, Point::new(1, 2)));
}

#[test]
fn a_path_is_followed_by_one_step() {
    let map = open_map(20, 20);
    let chase = Behavior::Chase { target_point: Point::new(9, 9) };
    let mut state = AiState { status: chase };
    let path = NavigationPath { destination: 189, success: true, steps: vec![105, 106, 107] };
    let intent = AiSystem::follow_path(&mut state, &path, &map);
    assert_eq!(intent, NextIntent::Move { intent: MoveIntent { loc: Point::new(6, 5) } });
    assert_eq!(state.status, chase);
}

#[test]
fn no_path_or_a_short_one_ends_the_chase() {
    let map = open_map(20, 20);
    let chase = Behavior::Chase { target_point: Point::new(9, 9) };
    let none = NavigationPath { destination: 189, success: false, steps: vec![105, 106] };
    let arrived = NavigationPath { destination: 105, success: true, steps: vec![105] };
    let empty = NavigationPath { destination: 105, success: true, steps: vec![] };
    for path in [none, arrived, empty] {
        let mut state = AiState { status: chase };
        assert_eq!(AiSystem::follow_path(&mut state, &path, &map), NextIntent::Idle);
        assert_eq!(state.status, Behavior::Wander);
    }
}

#[test]
fn next_step_draws_a_valid_exit_for_a_wanderer() {
    for seed in 0..20u64 {
        let mut map = open_map(20, 20);
        assert!(map.track_creature(1, Point::new(5, 5), None));
        assert!(map.track_creature(2, Point::new(6, 5), None));
        let mut rng = RandomNumberGenerator::seeded(seed);
        let mut state = AiState { status: Behavior::Wander };
        let viewshed = Viewshed { visible: vec![], dirty: false, range: 5 };
        let step = AiSystem.next_step(
            1,
            &Position { x: 5, y: 5 },
            &mut state,
            &viewshed,
            &mook_moves(),
            None,
            Point::new(15, 15),
            &mut map,
            &mut rng,
        );
        assert_eq!(state.status, Behavior::Wander);
        match step {
            AiStep::Done { intent: NextIntent::Move { intent } } => {
                let exits = [Point::new(4, 5), Point::new(5, 4), Point::new(5, 6)];
                assert!(exits.contains(&intent.loc), "{:?}", intent.loc);
            }
            other => panic!("no step: {:?}", other),
        }
    }
}

#[test]
fn next_step_attacks_whatever_is_drawn() {
    for seed in 0..20u64 {
        let mut map = open_map(20, 20);
        let mut rng = RandomNumberGenerator::seeded(seed);
        let mut state = AiState { status: Behavior::Wander };
        let player = Point::new(5, 6);
        let viewshed = Viewshed { visible: vec![player], dirty: false, range: 5 };
        let step = AiSystem.next_step(
            1,
            &Position { x: 5, y: 5 },
            &mut state,
            &viewshed,
            &mook_moves(),
            None,
            player,
            &mut map,
            &mut rng,
        );
        assert_eq!(state.status, Behavior::Chase { target_point: player });
        let (attack, loc) = attack_of(step);
        assert!(
            (attack, loc) == (AttackType::Sweep, Point::new(5, 5))
                || (attack, loc) == (AttackType::Punch, player)
        );
    }
}

#[test]
fn a_turn_queues_one_intent_and_uses_up_the_leave_to_act() {
    let mut world = duel(Point::new(5, 6), Point::new(5, 4));
    world.viewsheds[1].as_mut().unwrap().visible = vec![Point::new(5, 6)];
    let mut rng = RandomNumberGenerator::seeded(3);
    let step = AiSystem.begin(&mut world, 1, &mut rng);
    // the footprint of the mook reaches (5, 5), but its anchor is two tiles away
    assert_eq!(step, Some(AiStep::Seek { goal: world.map.get_index(5, 6) }));
    assert_eq!(world.move_intents[1], None);
    assert_eq!(world.attack_intents[1], None);
    assert!(world.can_act[1].is_some());
    assert_eq!(world.ai_states[1].unwrap().status, Behavior::Chase { target_point: Point::new(5, 6) });
    let from = world.map.get_index(5, 4);
    let path = NavigationPath { destination: 0, success: true, steps: vec![from, from + 1] };
    AiSystem.finish(&mut world, 1, &path);
    assert_eq!(world.move_intents[1], Some(MoveIntent { loc: Point::new(6, 4) }));
    assert_eq!(world.attack_intents[1], None);
    assert_eq!(world.can_act[1], None);
}

#[test]
fn a_turn_that_attacks_queues_no_step() {
    let mut world = duel(Point::new(5, 8), Point::new(5, 6));
    world.viewsheds[1].as_mut().unwrap().visible = vec![Point::new(5, 8)];
    world.movesets[1] = Some(Moveset { moves: vec![(AttackType::Ranged, 100)] });
    let mut rng = RandomNumberGenerator::seeded(3);
    let step = AiSystem.begin(&mut world, 1, &mut rng);
    assert_eq!(attack_of(step.unwrap()), (AttackType::Ranged, Point::new(5, 8)));
    assert_eq!(world.move_intents[1], None);
    assert_eq!(world.attack_intents[1].unwrap().main, AttackType::Ranged);
    assert_eq!(world.attack_intents[1].unwrap().loc, Point::new(5, 8));
    assert_eq!(world.can_act[1], None);
}

#[test]
fn who_may_not_act_is_passed_over() {
    let mut world = duel(Point::new(5, 8), Point::new(5, 5));
    let mut rng = RandomNumberGenerator::seeded(3);
    // the player has no state of its own
    world.can_act[0] = Some(CanActFlag { is_reaction: false, reaction_target: None });
    assert_eq!(AiSystem.begin(&mut world, 0, &mut rng), None);
    assert!(world.can_act[0].is_some());
    world.can_act[1] = None;
    assert_eq!(AiSystem.begin(&mut world, 1, &mut rng), None);
    assert_eq!(world.move_intents[1], None);
    assert_eq!(world.attack_intents[1], None);
}

#[test]
fn a_failed_path_sends_the_actor_wandering() {
    let mut world = duel(Point::new(5, 20), Point::new(5, 5));
    world.ai_states[1] = Some(AiState { status: Behavior::Chase { target_point: Point::new(9, 9) } });
    let mut rng = RandomNumberGenerator::seeded(3);
    let step = AiSystem.begin(&mut world, 1, &mut rng);
    assert_eq!(step, Some(AiStep::Seek { goal: world.map.get_index(9, 9) }));
    let path = NavigationPath { destination: 0, success: false, steps: vec![] };
    AiSystem.finish(&mut world, 1, &path);
    assert_eq!(world.ai_states[1].unwrap().status, Behavior::Wander);
    assert_eq!(world.move_intents[1], None);
    assert_eq!(world.can_act[1], None);
}

#[test]
fn a_path_that_leads_off_the_map_counts_as_none() {
    let map = open_map(20, 20);
    let chase = Behavior::Chase { target_point: Point::new(9, 9) };
    for second in [400, 401, usize::MAX] {
        let mut state = AiState { status: chase };
        let path = NavigationPath { destination: 189, success: true, steps: vec![105, second, 107] };
        assert_eq!(AiSystem::follow_path(&mut state, &path, &map), NextIntent::Idle);
        assert_eq!(state.status, Behavior::Wander);
    }
    let mut state = AiState { status: chase };
    let last = NavigationPath { destination: 399, success: true, steps: vec![398, 399] };
    let intent = AiSystem::follow_path(&mut state, &last, &map);
    assert_eq!(intent, NextIntent::Move { intent: MoveIntent { loc: Point::new(19, 19) } });
}
