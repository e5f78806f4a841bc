use counterpuncher::{
    after_tick, await_input, build_archer, build_empty_barrel, build_npc_blacksmith, build_npc_handler,
    build_npc_shopkeeper, build_player, choose_target, end_turn_cleanup, handle_charging, handle_keys,
    mission_select_input, player_input, ranged_target, try_move_player, view_input, weapon_attack,
    AttackIntent, AttackType, CanActFlag, Charge, Command, Direction, Health, Lance, LanceState, MapBuilderArgs,
    MoveIntent, NpcType, Point, Position, Quest, QuestLog, QuestPick, QuestType, Rect, RunState,
    SelectionResult, SpawnInfo, Targeting, TileMap, Viewshed, WeaponButton, World,
};

fn open_map(width: i32, height: i32) -> TileMap {
    let mut map = TileMap::new(width, height, 1);
    map.build_room(Rect { x1: 1, x2: width - 2, y1: 1, y2: height - 2 });
    map.set_blocked_tiles();
    map
}

/// The player at (5, 5), looking east, an archer to the east, a barrel to
/// the south.
fn yard() -> World {
    let mut world = World::new(open_map(20, 20), build_player(Point::new(5, 5))).unwrap();
    assert_eq!(world.spawn(build_archer(Point::new(6, 5))), Some(1));
    assert_eq!(world.spawn(build_empty_barrel(Point::new(5, 6), 0)), Some(2));
    world.facings[0] = Some(Direction::E);
    world
}

#[test]
fn a_step_onto_a_free_tile_is_queued() {
    let mut world = yard();
    assert_eq!(try_move_player(&mut world, -1, 0), RunState::Running);
    assert_eq!(world.move_intents[0], Some(MoveIntent { loc: Point::new(4, 5) }));
    assert_eq!(world.attack_intents[0], None);
}

#[test]
fn a_step_into_somebody_is_a_punch() {
    let mut world = yard();
    assert_eq!(try_move_player(&mut world, 1, 0), RunState::Running);
    assert_eq!(world.move_intents[0], None);
    let attack = world.attack_intents[0].unwrap();
    assert_eq!((attack.main, attack.loc, attack.delay), (AttackType::Punch, Point::new(6, 5), 0));
    assert_eq!(world.healths[1], Some(Health { current: 2, max: 2 }));
}

#[test]
fn a_step_into_a_barrel_breaks_it_open() {
    let mut world = yard();
    assert_eq!(try_move_player(&mut world, 0, 1), RunState::Running);
    assert_eq!(world.healths[2], Some(Health { current: 0, max: 2 }));
    assert_eq!(world.move_intents[0], None);
    assert_eq!(world.attack_intents[0], None);
}

#[test]
fn a_step_into_a_wall_takes_no_turn() {
    let mut world = World::new(open_map(20, 20), build_player(Point::new(1, 1))).unwrap();
    assert_eq!(try_move_player(&mut world, -1, 0), RunState::AwaitingInput);
    assert_eq!(try_move_player(&mut world, 0, -1), RunState::AwaitingInput);
    assert_eq!(try_move_player(&mut world, i32::MIN, i32::MIN), RunState::AwaitingInput);
    assert_eq!(world.move_intents[0], None);
    assert_eq!(world.attack_intents[0], None);
}

#[test]
fn a_long_step_ends_at_the_edge_of_the_grid() {
    let mut world = yard();
    assert_eq!(try_move_player(&mut world, i32::MAX, 0), RunState::AwaitingInput);
    world.map.tiles[5 * 20 + 19] = counterpuncher::TileType::Floor;
    world.map.blocked_tiles[5 * 20 + 19] = false;
    assert_eq!(try_move_player(&mut world, i32::MAX, 0), RunState::Running);
    assert_eq!(world.move_intents[0], Some(MoveIntent { loc: Point::new(19, 5) }));
}

#[test]
fn a_press_that_the_weapon_takes_is_a_turn() {
    let mut world = yard();
    let mut lance = Lance::new();
    assert_eq!(weapon_attack(&mut world, &mut lance, WeaponButton::Heavy), RunState::AwaitingInput);
    assert_eq!(lance.state(), LanceState::Sheathed);
    assert_eq!(world.attack_intents[0], None);
    assert_eq!(weapon_attack(&mut world, &mut lance, WeaponButton::Light), RunState::Running);
    assert_eq!(lance.state(), LanceState::Attack { prev_count: 1 });
    // the draw attack, at the tile ahead of the player
    assert_eq!(
        world.attack_intents[0],
        Some(AttackIntent { main: AttackType::Punch, modifier: None, loc: Point::new(6, 5), delay: 0 })
    );
    assert_eq!(weapon_attack(&mut world, &mut lance, WeaponButton::Heavy), RunState::Running);
    assert_eq!(lance.state(), LanceState::Wait);
    // the sweep, round the tile of the player
    assert_eq!(
        world.attack_intents[0],
        Some(AttackIntent { main: AttackType::Sweep, modifier: None, loc: Point::new(5, 5), delay: 0 })
    );
    assert_eq!(weapon_attack(&mut world, &mut lance, WeaponButton::Light), RunState::AwaitingInput);
    assert_eq!(world.attack_intents[0].unwrap().main, AttackType::Sweep);
}

#[test]
fn a_press_is_aimed_the_way_the_player_faces() {
    for (facing, ahead) in [
        (Direction::N, Point::new(5, 4)),
        (Direction::E, Point::new(6, 5)),
        (Direction::S, Point::new(5, 6)),
        (Direction::W, Point::new(4, 5)),
    ] {
        let mut world = yard();
        world.facings[0] = Some(facing);
        let mut lance = Lance::new();
        let next =
            handle_keys(&mut world, &mut lance, Some(Command::Light), false);
        assert_eq!(next, RunState::Running);
        assert_eq!(world.attack_intents[0].unwrap().loc, ahead);
    }
}

#[test]
fn commands() {
    let mut world = yard();
    let mut lance = Lance::new();
    assert_eq!(handle_keys(&mut world, &mut lance, None, false), RunState::AwaitingInput);
    assert_eq!(handle_keys(&mut world, &mut lance, Some(Command::View), false), RunState::ViewEnemy { index: 0 });
    assert_eq!(handle_keys(&mut world, &mut lance, Some(Command::Die), false), RunState::Dead);
    assert_eq!(handle_keys(&mut world, &mut lance, Some(Command::Confirm), false), RunState::AwaitingInput);
    assert_eq!(handle_keys(&mut world, &mut lance, Some(Command::Sheathe), false), RunState::AwaitingInput);
    assert_eq!(handle_keys(&mut world, &mut lance, Some(Command::Light), false), RunState::Running);
    assert_eq!(handle_keys(&mut world, &mut lance, Some(Command::Sheathe), false), RunState::Running);
    assert_eq!(lance.state(), LanceState::Sheathed);
    assert_eq!(handle_keys(&mut world, &mut lance, Some(Command::Special), false), RunState::AwaitingInput);
}

#[test]
fn a_step_that_takes_the_turn_ends_the_combo() {
    let mut world = yard();
    let mut lance = Lance::new();
    lance.press(WeaponButton::Light);
    lance.press(WeaponButton::Light);
    assert_eq!(handle_keys(&mut world, &mut lance, Some(Command::Up), true), RunState::AwaitingInput);
    assert_eq!(lance.state(), LanceState::Attack { prev_count: 2 });
    assert_eq!(world.move_intents[0], None);
    assert_eq!(handle_keys(&mut world, &mut lance, Some(Command::Up), false), RunState::Running);
    assert_eq!(world.move_intents[0], Some(MoveIntent { loc: Point::new(5, 4) }));
    assert_eq!(lance.state(), LanceState::Ready);
}

#[test]
fn a_step_that_takes_no_turn_keeps_the_combo() {
    let mut world = World::new(open_map(20, 20), build_player(Point::new(1, 1))).unwrap();
    let mut lance = Lance::new();
    lance.press(WeaponButton::Light);
    assert_eq!(handle_keys(&mut world, &mut lance, Some(Command::Left), false), RunState::AwaitingInput);
    assert_eq!(lance.state(), LanceState::Attack { prev_count: 1 });
    assert_eq!(handle_keys(&mut world, &mut lance, Some(Command::Wait), false), RunState::Running);
    assert_eq!(lance.state(), LanceState::Ready);
}

#[test]
fn a_charge_runs_until_it_is_stopped() {
    let mut world = World::new(open_map(20, 20), build_player(Point::new(5, 5))).unwrap();
    let mut lance = Lance::new();
    let mut charge = Charge { active: true, direction: Direction::E, speed: 1 };
    assert_eq!(handle_charging(&mut world, &mut lance, &mut charge), RunState::Running);
    assert_eq!(world.move_intents[0], Some(MoveIntent { loc: Point::new(6, 5) }));
    assert_eq!(charge, Charge { active: true, direction: Direction::E, speed: 2 });
    assert_eq!(handle_charging(&mut world, &mut lance, &mut charge), RunState::Running);
    assert_eq!(world.move_intents[0], Some(MoveIntent { loc: Point::new(7, 5) }));
    assert_eq!(charge.speed, 3);
    assert_eq!(handle_charging(&mut world, &mut lance, &mut charge), RunState::Running);
    assert_eq!(world.move_intents[0], Some(MoveIntent { loc: Point::new(8, 5) }));
    assert_eq!(charge, Charge { active: true, direction: Direction::E, speed: 3 });
}

#[test]
fn a_charge_into_a_wall_is_over() {
    let mut world = World::new(open_map(20, 20), build_player(Point::new(17, 5))).unwrap();
    let mut lance = Lance::new();
    let mut charge = Charge { active: true, direction: Direction::E, speed: 2 };
    assert_eq!(handle_charging(&mut world, &mut lance, &mut charge), RunState::Running);
    assert_eq!(world.move_intents[0], Some(MoveIntent { loc: Point::new(18, 5) }));
    assert_eq!(charge, Charge { active: false, direction: Direction::E, speed: 3 });
    assert_eq!(lance.state(), LanceState::Sheathed);
}

#[test]
fn a_charge_into_somebody_ends_with_the_light_attack() {
    let mut world = World::new(open_map(20, 20), build_player(Point::new(5, 5))).unwrap();
    assert_eq!(world.spawn(build_archer(Point::new(7, 5))), Some(1));
    let mut lance = Lance::new();
    let mut charge = Charge { active: true, direction: Direction::E, speed: 3 };
    assert_eq!(handle_charging(&mut world, &mut lance, &mut charge), RunState::Running);
    assert_eq!(world.move_intents[0], Some(MoveIntent { loc: Point::new(6, 5) }));
    assert_eq!(charge, Charge { active: false, direction: Direction::E, speed: 3 });
    assert_eq!(lance.state(), LanceState::Attack { prev_count: 1 });
}

#[test]
fn the_player_goes_on_with_a_charge() {
    let mut world = yard();
    world.can_act[0] = Some(CanActFlag { is_reaction: false, reaction_target: None });
    let mut lance = Lance::new();
    let mut charge = Charge { active: true, direction: Direction::N, speed: 2 };
    assert_eq!(player_input(&mut world, &mut lance, &mut charge, Some(Command::Left)), RunState::Running);
    assert_eq!(world.move_intents[0], Some(MoveIntent { loc: Point::new(5, 3) }));
    charge.active = false;
    assert_eq!(player_input(&mut world, &mut lance, &mut charge, Some(Command::Left)), RunState::Running);
    assert_eq!(world.move_intents[0], Some(MoveIntent { loc: Point::new(4, 5) }));
    world.can_act[0] = Some(CanActFlag { is_reaction: true, reaction_target: Some(1) });
    assert_eq!(
        player_input(&mut world, &mut lance, &mut charge, Some(Command::Right)),
        RunState::AwaitingInput
    );
}

#[test]
fn the_end_of_a_turn_takes_all_leave_to_act() {
    let mut world = yard();
    world.can_act[0] = Some(CanActFlag { is_reaction: false, reaction_target: None });
    world.can_act[2] = Some(CanActFlag { is_reaction: true, reaction_target: Some(0) });
    let positions = world.positions.clone();
    let healths = world.healths.clone();
    let blocked = world.map.blocked_tiles.clone();
    end_turn_cleanup(&mut world);
    assert_eq!(world.can_act, vec![None, None, None]);
    end_turn_cleanup(&mut world);
    assert_eq!(world.can_act, vec![None, None, None]);
    assert_eq!(world.positions, positions);
    assert_eq!(world.healths, healths);
    assert_eq!(world.map.blocked_tiles, blocked);
    assert_eq!(world.move_intents, vec![None, None, None]);
    assert_eq!(world.attack_intents, vec![None, None, None]);
}

#[test]
fn the_end_of_a_turn_where_nobody_holds_leave_changes_nothing() {
    let mut world = yard();
    end_turn_cleanup(&mut world);
    assert_eq!(world.can_act, vec![None, None, None]);
    assert!(world.is_in_order());
}

fn targeting(cursor: Point) -> Targeting {
    Targeting { cursor, tab_targets: vec![Point::new(1, 1), Point::new(2, 2), Point::new(3, 3)], tab_index: 0 }
}

#[test]
fn choosing_a_target() {
    let viewshed = Viewshed { visible: vec![Point::new(4, 4), Point::new(5, 4)], dirty: false, range: 5 };
    let in_range = vec![Point::new(5, 4), Point::new(6, 4)];
    let mut state = targeting(Point::new(5, 4));
    assert_eq!(
        ranged_target(&mut state, &viewshed, &in_range, false, Some(Command::Confirm)),
        (SelectionResult::Selected, Some(Point::new(5, 4)))
    );
    assert_eq!(
        ranged_target(&mut state, &viewshed, &in_range, true, Some(Command::Confirm)),
        (SelectionResult::Selected, None)
    );
    for cursor in [Point::new(4, 4), Point::new(6, 4), Point::new(0, 0)] {
        let mut state = targeting(cursor);
        assert_eq!(
            ranged_target(&mut state, &viewshed, &in_range, false, Some(Command::Confirm)),
            (SelectionResult::Canceled, None)
        );
    }
    for command in [Command::Cancel, Command::View] {
        assert_eq!(
            ranged_target(&mut state, &viewshed, &in_range, false, Some(command)),
            (SelectionResult::Canceled, None)
        );
    }
    assert_eq!(
        ranged_target(&mut state, &viewshed, &in_range, false, None),
        (SelectionResult::NoResponse, None)
    );
    assert_eq!(state.cursor, Point::new(5, 4));
}

#[test]
fn moving_the_cursor() {
    let viewshed = Viewshed { visible: vec![], dirty: false, range: 5 };
    let mut state = targeting(Point::new(5, 4));
    for (command, want) in [
        (Command::Left, Point::new(4, 4)),
        (Command::Up, Point::new(4, 3)),
        (Command::Right, Point::new(5, 3)),
        (Command::Down, Point::new(5, 4)),
        (Command::NextTarget, Point::new(2, 2)),
        (Command::NextTarget, Point::new(3, 3)),
        (Command::NextTarget, Point::new(1, 1)),
        (Command::Light, Point::new(1, 1)),
    ] {
        assert_eq!(
            ranged_target(&mut state, &viewshed, &vec![], false, Some(command)),
            (SelectionResult::NoResponse, None)
        );
        assert_eq!(state.cursor, want);
    }
    assert_eq!(state.tab_index, 3);
    state.tab_targets = vec![];
    ranged_target(&mut state, &viewshed, &vec![], false, Some(Command::NextTarget));
    assert_eq!((state.cursor, state.tab_index), (Point::new(1, 1), 3));
}

#[test]
fn looking_through_the_list_goes_round() {
    assert_eq!(view_input(0, 3, Some(Command::Down)), RunState::ViewEnemy { index: 1 });
    assert_eq!(view_input(3, 3, Some(Command::Down)), RunState::ViewEnemy { index: 0 });
    assert_eq!(view_input(2, 3, Some(Command::Up)), RunState::ViewEnemy { index: 1 });
    assert_eq!(view_input(0, 3, Some(Command::Up)), RunState::ViewEnemy { index: 3 });
    assert_eq!(view_input(2, 3, None), RunState::ViewEnemy { index: 2 });
    assert_eq!(view_input(7, 3, Some(Command::Light)), RunState::ViewEnemy { index: 3 });
    assert_eq!(view_input(2, 3, Some(Command::Cancel)), RunState::AwaitingInput);
    assert_eq!(view_input(0, 0, Some(Command::Up)), RunState::ViewEnemy { index: 0 });
    assert_eq!(view_input(0, 0, Some(Command::Down)), RunState::ViewEnemy { index: 0 });
}

#[test]
fn somebody_to_talk_to() {
    let handler = build_npc_handler(Point::new(4, 4));
    assert_eq!(handler.npc, Some(NpcType::Handler));
    assert_eq!(handler.position, Position { x: 4, y: 4 });
    assert_eq!(handler.health, Some(Health { current: 10, max: 10 }));
    assert!(handler.ai.is_none() && handler.moveset.is_none() && !handler.openable);
    assert_eq!(handler.viewshed.unwrap().range, 20);
    assert_eq!(build_npc_blacksmith(Point::new(4, 4)).npc, Some(NpcType::Blacksmith));
    assert_eq!(build_npc_shopkeeper(Point::new(4, 4)).npc, Some(NpcType::Shopkeeper));
}

#[test]
fn walking_into_somebody_to_talk_to_starts_the_talk() {
    let mut world = World::new(open_map(20, 20), build_player(Point::new(5, 5))).unwrap();
    assert_eq!(world.spawn(build_npc_handler(Point::new(6, 5))), Some(1));
    assert_eq!(world.spawn(build_npc_blacksmith(Point::new(4, 5))), Some(2));
    assert_eq!(world.spawn(build_npc_shopkeeper(Point::new(5, 4))), Some(3));
    assert_eq!(try_move_player(&mut world, 1, 0), RunState::MissionSelect { index: 0 });
    assert_eq!(try_move_player(&mut world, -1, 0), RunState::Shop);
    assert_eq!(try_move_player(&mut world, 0, -1), RunState::Shop);
    assert_eq!(world.attack_intents[0], None);
    assert_eq!(world.move_intents[0], None);
    assert_eq!(world.healths[1], Some(Health { current: 10, max: 10 }));
    // a talk ends the combo, as a step does
    let mut lance = Lance::new();
    lance.press(WeaponButton::Light);
    assert_eq!(handle_keys(&mut world, &mut lance, Some(Command::Right), false), RunState::MissionSelect { index: 0 });
    assert_eq!(lance.state(), LanceState::Ready);
}

fn offers(count: usize) -> QuestLog {
    let mut log = QuestLog::new();
    for k in 0..count {
        log.entries.push(Quest {
            quest_type: QuestType::Hunt,
            spawn_info: SpawnInfo { major_monsters: vec![], minor_monsters: vec![], resources: vec![] },
            area_name: format!("area {}", k),
            map_builder_args: MapBuilderArgs {
                builder_type: 1,
                height: 40,
                width: 40,
                depth: 1,
                map_color: "#FFFFFF".to_string(),
            },
            reward: 120,
            turn_limit: 300,
            completed: false,
            days_remaining: 3,
        });
    }
    log
}

#[test]
fn looking_through_the_quests() {
    let log = offers(3);
    let stay = |index| (RunState::MissionSelect { index }, QuestPick::Keep);
    assert_eq!(mission_select_input(&log, 0, Some(Command::Down)), stay(1));
    assert_eq!(mission_select_input(&log, 2, Some(Command::Down)), stay(0));
    assert_eq!(mission_select_input(&log, 2, Some(Command::Up)), stay(1));
    assert_eq!(mission_select_input(&log, 0, Some(Command::Up)), stay(0));
    assert_eq!(mission_select_input(&log, 1, None), stay(1));
    assert_eq!(mission_select_input(&log, 1, Some(Command::Light)), stay(1));
    assert_eq!(mission_select_input(&log, 1, Some(Command::Cancel)), (RunState::Running, QuestPick::Keep));
    assert_eq!(
        mission_select_input(&log, 1, Some(Command::Confirm)),
        (RunState::Running, QuestPick::Take { index: 1 })
    );
    assert_eq!(
        mission_select_input(&log, 1, Some(Command::Abandon)),
        (RunState::MissionSelect { index: 1 }, QuestPick::Drop)
    );
    assert_eq!(mission_select_input(&offers(1), 0, Some(Command::Up)), stay(0));
}

fn leave() -> Option<CanActFlag> {
    Some(CanActFlag { is_reaction: false, reaction_target: None })
}

#[test]
fn a_move_that_takes_the_turn_takes_every_leave_back() {
    let mut world = yard();
    world.can_act = vec![leave(), leave(), None];
    let mut lance = Lance::new();
    let mut charge = Charge { active: false, direction: Direction::N, speed: 0 };
    let next = await_input(&mut world, &mut lance, &mut charge, Some(Command::Left));
    assert_eq!(next, RunState::Running);
    assert_eq!(world.move_intents[0], Some(MoveIntent { loc: Point::new(4, 5) }));
    assert_eq!(world.can_act, vec![None, None, None]);
}

#[test]
fn a_move_that_takes_no_turn_leaves_the_leave() {
    let mut world = yard();
    world.can_act = vec![leave(), leave(), None];
    let mut lance = Lance::new();
    let mut charge = Charge { active: false, direction: Direction::N, speed: 0 };
    assert_eq!(await_input(&mut world, &mut lance, &mut charge, None), RunState::AwaitingInput);
    assert_eq!(world.can_act, vec![leave(), leave(), None]);
    let next = await_input(&mut world, &mut lance, &mut charge, Some(Command::View));
    assert_eq!(next, RunState::ViewEnemy { index: 0 });
    assert_eq!(world.can_act, vec![leave(), leave(), None]);
    assert_eq!(world.move_intents[0], None);
}

fn looking_east(world: &mut World) {
    world.viewsheds[0] = Some(Viewshed { visible: vec![Point::new(6, 5), Point::new(9, 9)], dirty: false, range: 20 });
}

#[test]
fn a_confirmed_target_queues_the_attack_and_ends_the_turn() {
    let mut world = yard();
    looking_east(&mut world);
    world.can_act = vec![leave(), leave(), None];
    let mut state = targeting(Point::new(6, 5));
    let mut modifier = Some(AttackType::Stun);
    let next = choose_target(&mut world, &mut state, &mut modifier, AttackType::Punch, false, Some(Command::Confirm));
    assert_eq!(next, RunState::Running);
    assert_eq!(
        world.attack_intents[0],
        Some(AttackIntent { main: AttackType::Punch, modifier: Some(AttackType::Stun), loc: Point::new(6, 5), delay: 0 })
    );
    assert_eq!(modifier, None);
    assert_eq!(world.can_act, vec![None, None, None]);
    assert_eq!(state.cursor, Point::new(6, 5));
}

#[test]
fn an_action_that_needs_no_tile_is_aimed_at_the_origin() {
    let mut world = yard();
    looking_east(&mut world);
    let mut state = targeting(Point::new(9, 9));
    let mut modifier = None;
    let next = choose_target(&mut world, &mut state, &mut modifier, AttackType::Punch, true, Some(Command::Confirm));
    assert_eq!(next, RunState::Running);
    assert_eq!(
        world.attack_intents[0],
        Some(AttackIntent { main: AttackType::Punch, modifier: None, loc: Point::new(0, 0), delay: 0 })
    );
}

#[test]
fn a_target_out_of_reach_or_given_up_leads_back_to_the_move() {
    let mut world = yard();
    looking_east(&mut world);
    world.can_act = vec![leave(), None, None];
    // seen, but further away than a punch reaches
    let mut state = targeting(Point::new(9, 9));
    let mut modifier = Some(AttackType::Stun);
    let next = choose_target(&mut world, &mut state, &mut modifier, AttackType::Punch, false, Some(Command::Confirm));
    assert_eq!(next, RunState::AwaitingInput);
    // within reach, but not seen
    let mut state = targeting(Point::new(4, 5));
    let next = choose_target(&mut world, &mut state, &mut modifier, AttackType::Punch, false, Some(Command::Confirm));
    assert_eq!(next, RunState::AwaitingInput);
    let mut state = targeting(Point::new(6, 5));
    let next = choose_target(&mut world, &mut state, &mut modifier, AttackType::Punch, false, Some(Command::Cancel));
    assert_eq!(next, RunState::AwaitingInput);
    assert_eq!(world.attack_intents[0], None);
    assert_eq!(modifier, Some(AttackType::Stun));
    assert_eq!(world.can_act, vec![leave(), None, None]);
}

#[test]
fn the_cursor_moves_while_a_target_is_chosen() {
    let mut world = yard();
    looking_east(&mut world);
    let mut state = targeting(Point::new(6, 5));
    let mut modifier = None;
    let next = choose_target(&mut world, &mut state, &mut modifier, AttackType::Punch, false, Some(Command::Down));
    assert_eq!(next, RunState::Targetting { attack_type: AttackType::Punch, ignore_targetting: false });
    assert_eq!(state.cursor, Point::new(6, 6));
    let next = choose_target(&mut world, &mut state, &mut modifier, AttackType::Punch, false, None);
    assert_eq!(next, RunState::Targetting { attack_type: AttackType::Punch, ignore_targetting: false });
    assert_eq!(state.cursor, Point::new(6, 6));
    assert_eq!(world.attack_intents[0], None);
}

#[test]
fn after_a_tick_the_player_is_asked_once_everybody_else_has_decided() {
    let mut world = yard();
    // nobody holds leave: the simulation runs on until leave is handed out
    assert_eq!(after_tick(&world), RunState::Running);
    // the archer has yet to decide
    world.can_act = vec![leave(), leave(), None];
    assert_eq!(after_tick(&world), RunState::Running);
    world.can_act = vec![None, leave(), None];
    assert_eq!(after_tick(&world), RunState::Running);
    // the archer has decided
    world.can_act = vec![leave(), None, None];
    assert_eq!(after_tick(&world), RunState::AwaitingInput);
    // leave in the hands of a barrel, which decides nothing, holds nobody up
    world.can_act = vec![leave(), None, leave()];
    assert_eq!(after_tick(&world), RunState::AwaitingInput);
    // nor does leave in the hands of somebody who is dead
    world.can_act = vec![leave(), leave(), None];
    world.alive[1] = false;
    assert_eq!(after_tick(&world), RunState::AwaitingInput);
    world.dead = true;
    assert_eq!(after_tick(&world), RunState::Dead);
}

#[test]
fn a_player_without_eyes_has_no_target_to_choose() {
    let mut world = yard();
    world.viewsheds[0] = None;
    let mut state = targeting(Point::new(6, 5));
    let mut modifier = None;
    let next = choose_target(&mut world, &mut state, &mut modifier, AttackType::Punch, false, Some(Command::Confirm));
    assert_eq!(next, RunState::AwaitingInput);
    assert_eq!(world.attack_intents[0], None);
    let next = choose_target(&mut world, &mut state, &mut modifier, AttackType::Punch, true, Some(Command::Confirm));
    assert_eq!(next, RunState::Running);
    assert_eq!(world.attack_intents[0].map(|attack| attack.loc), Some(Point::new(0, 0)));
}
