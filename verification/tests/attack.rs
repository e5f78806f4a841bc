use counterpuncher::{
    build_archer, build_mook, build_player, AttackIntent, AttackSystem, AttackType, Health,
    ParticleRequest, Point, Rect, TileMap, World,
};

fn open_map(width: i32, height: i32) -> TileMap {
    let mut map = TileMap::new(width, height, 1);
    map.build_room(Rect { x1: 1, x2: width - 2, y1: 1, y2: height - 2 });
    map.set_blocked_tiles();
    map
}

fn intent(main: AttackType, loc: Point, delay: i32) -> AttackIntent {
    AttackIntent { main, modifier: None, loc, delay }
}

fn healths(world: &World) -> Vec<Option<Health>> {
    world.healths.clone()
}

fn part_healths(world: &World, actor: usize) -> Vec<i32> {
    world.multis[actor].as_ref().unwrap().part_list.iter().map(|p| p.health).collect()
}

/// The player at (10, 14), a mook at (10, 10), an archer at (20, 20).
fn arena() -> World {
    let mut world = World::new(open_map(30, 30), build_player(Point::new(10, 14))).unwrap();
    assert_eq!(world.spawn(build_mook(Point::new(10, 10))), Some(1));
    assert_eq!(world.spawn(build_archer(Point::new(20, 20))), Some(2));
    world
}

#[test]
fn many_tiles_of_one_victim_are_one_hit() {
    let mut world = arena();
    // the sweep covers nine tiles, seven of them under the mook
    world.attack_intents[0] = Some(intent(AttackType::Sweep, Point::new(10, 10), 0));
    AttackSystem.step(&mut world, 0);
    assert_eq!(world.healths[1], Some(Health { current: 9, max: 10 }));
    assert_eq!(world.healths[0], Some(Health { current: 10, max: 10 }));
    assert_eq!(world.healths[2], Some(Health { current: 2, max: 2 }));
    assert_eq!(world.attack_intents[0], None);
    assert!(!world.attacks_in_progress[0]);
}

#[test]
fn the_first_part_that_was_hit_takes_the_part_damage() {
    let mut world = arena();
    world.attack_intents[0] = Some(intent(AttackType::Sweep, Point::new(10, 10), 0));
    AttackSystem.step(&mut world, 0);
    assert_eq!(part_healths(&world, 1), vec![0, 1]);
    let parts = &world.multis[1].as_ref().unwrap().part_list;
    assert_eq!(parts[0].max_health, 1);
    assert_eq!(parts[0].symbol_map.len(), 3);
}

#[test]
fn a_hit_on_the_second_part_alone_damages_the_second_part() {
    let mut world = arena();
    // (11, 9) is a tile of the second part of the mook
    world.attack_intents[0] = Some(intent(AttackType::Punch, Point::new(11, 9), 0));
    AttackSystem.step(&mut world, 0);
    assert_eq!(world.healths[1], Some(Health { current: 9, max: 10 }));
    assert_eq!(part_healths(&world, 1), vec![1, 0]);
}

#[test]
fn a_hit_on_the_anchor_damages_no_part() {
    let mut world = arena();
    world.attack_intents[0] = Some(intent(AttackType::Haymaker, Point::new(10, 10), 0));
    AttackSystem.step(&mut world, 0);
    assert_eq!(world.healths[1], Some(Health { current: 8, max: 10 }));
    assert_eq!(part_healths(&world, 1), vec![1, 1]);
}

#[test]
fn an_attack_on_an_empty_tile_harms_nobody() {
    let mut world = arena();
    let before = healths(&world);
    world.attack_intents[0] = Some(intent(AttackType::Punch, Point::new(15, 15), 0));
    AttackSystem.step(&mut world, 0);
    assert_eq!(healths(&world), before);
    assert_eq!(part_healths(&world, 1), vec![1, 1]);
    assert_eq!(world.particles, vec![ParticleRequest::Background { loc: Point::new(15, 15) }]);
    assert_eq!(world.attack_intents[0], None);
}

#[test]
fn an_attack_off_the_grid_harms_nobody() {
    let mut world = arena();
    let before = healths(&world);
    world.attack_intents[0] = Some(intent(AttackType::Sweep, Point::new(-40, 500), 0));
    AttackSystem.step(&mut world, 0);
    assert_eq!(healths(&world), before);
    assert_eq!(world.particles.len(), 9);
}

#[test]
fn nobody_hits_itself() {
    let mut world = arena();
    world.attack_intents[1] = Some(intent(AttackType::Sweep, Point::new(10, 10), 0));
    AttackSystem.step(&mut world, 1);
    assert_eq!(world.healths[1], Some(Health { current: 10, max: 10 }));
    assert_eq!(part_healths(&world, 1), vec![1, 1]);
    assert!(world.particles.iter().all(|p| matches!(p, ParticleRequest::Background { .. })));
}

#[test]
fn a_sweep_hits_everybody_around_once() {
    let mut world = World::new(open_map(30, 30), build_player(Point::new(10, 10))).unwrap();
    assert_eq!(world.spawn(build_archer(Point::new(9, 9))), Some(1));
    assert_eq!(world.spawn(build_archer(Point::new(11, 10))), Some(2));
    assert_eq!(world.spawn(build_archer(Point::new(13, 10))), Some(3));
    world.attack_intents[0] = Some(intent(AttackType::Sweep, Point::new(10, 10), 0));
    AttackSystem.step(&mut world, 0);
    assert_eq!(world.healths[0], Some(Health { current: 10, max: 10 }));
    assert_eq!(world.healths[1], Some(Health { current: 1, max: 2 }));
    assert_eq!(world.healths[2], Some(Health { current: 1, max: 2 }));
    assert_eq!(world.healths[3], Some(Health { current: 2, max: 2 }));
    let hits: Vec<_> =
        world.particles.iter().filter(|p| matches!(p, ParticleRequest::Hit { .. })).collect();
    assert_eq!(
        hits,
        vec![
            &ParticleRequest::Hit { loc: Point::new(9, 9) },
            &ParticleRequest::Hit { loc: Point::new(11, 10) },
        ]
    );
    assert_eq!(world.particles.len(), 11);
    assert_eq!(world.particles[0], ParticleRequest::Background { loc: Point::new(9, 9) });
}

#[test]
fn a_windup_counts_down_before_the_attack_lands() {
    let mut world = arena();
    world.attack_intents[0] = Some(intent(AttackType::Punch, Point::new(10, 10), 2));
    AttackSystem.step(&mut world, 0);
    assert_eq!(world.attack_intents[0], Some(intent(AttackType::Punch, Point::new(10, 10), 1)));
    assert!(world.attacks_in_progress[0]);
    assert_eq!(world.healths[1], Some(Health { current: 10, max: 10 }));
    AttackSystem.step(&mut world, 0);
    assert_eq!(world.attack_intents[0], Some(intent(AttackType::Punch, Point::new(10, 10), 0)));
    assert!(world.attacks_in_progress[0]);
    assert_eq!(world.healths[1], Some(Health { current: 10, max: 10 }));
    AttackSystem.step(&mut world, 0);
    assert_eq!(world.attack_intents[0], None);
    assert!(!world.attacks_in_progress[0]);
    assert_eq!(world.healths[1], Some(Health { current: 9, max: 10 }));
    assert!(world.particles.contains(&ParticleRequest::Hit { loc: Point::new(10, 10) }));
}

#[test]
fn actions_that_do_no_damage_change_no_health() {
    for main in [AttackType::Push, AttackType::Dodge, AttackType::Recover] {
        let mut world = arena();
        let before = healths(&world);
        world.attack_intents[0] = Some(intent(main, Point::new(10, 10), 0));
        AttackSystem.step(&mut world, 0);
        assert_eq!(healths(&world), before);
        assert!(world.particles.is_empty());
        assert_eq!(world.attack_intents[0], None);
    }
}

#[test]
fn a_stun_hits_for_nothing() {
    let mut world = arena();
    world.attack_intents[0] = Some(intent(AttackType::Stun, Point::new(10, 11), 0));
    AttackSystem.step(&mut world, 0);
    assert_eq!(world.healths[1], Some(Health { current: 10, max: 10 }));
    // the tile belongs to the first part, which is chipped all the same
    assert_eq!(part_healths(&world, 1), vec![0, 1]);
}

#[test]
fn a_victim_without_health_is_not_harmed() {
    let mut world = arena();
    world.healths[1] = None;
    world.attack_intents[0] = Some(intent(AttackType::Sweep, Point::new(10, 10), 0));
    AttackSystem.step(&mut world, 0);
    assert_eq!(world.healths[1], None);
    assert_eq!(part_healths(&world, 1), vec![1, 1]);
    assert!(world.particles.iter().all(|p| matches!(p, ParticleRequest::Background { .. })));
}

#[test]
fn the_pass_resolves_every_attack_in_turn() {
    let mut world = arena();
    world.attack_intents[0] = Some(intent(AttackType::Punch, Point::new(10, 10), 0));
    world.attack_intents[2] = Some(intent(AttackType::Ranged, Point::new(10, 10), 0));
    world.attack_intents[1] = Some(intent(AttackType::Haymaker, Point::new(10, 14), 1));
    AttackSystem.run(&mut world);
    assert_eq!(world.healths[1], Some(Health { current: 8, max: 10 }));
    assert_eq!(world.healths[0], Some(Health { current: 10, max: 10 }));
    assert_eq!(world.attack_intents[0], None);
    assert_eq!(world.attack_intents[2], None);
    assert_eq!(world.attack_intents[1], Some(intent(AttackType::Haymaker, Point::new(10, 14), 0)));
    assert!(world.attacks_in_progress[1]);
    AttackSystem.run(&mut world);
    assert_eq!(world.healths[0], Some(Health { current: 8, max: 10 }));
    assert!(!world.attacks_in_progress[1]);
}

#[test]
fn the_attack_of_one_who_is_gone_is_not_resolved() {
    let mut world = arena();
    world.alive[2] = false;
    let tile = world.map.get_index(20, 20);
    world.map.creature_map.remove(&tile);
    world.map.blocked_tiles[tile] = false;
    world.attack_intents[2] = Some(intent(AttackType::Ranged, Point::new(10, 10), 0));
    AttackSystem.step(&mut world, 2);
    assert_eq!(world.healths[1], Some(Health { current: 10, max: 10 }));
}
