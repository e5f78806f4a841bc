use counterpuncher::move_type::shape_in_reach;
use counterpuncher::{
    each_attack_target, get_attack_delay, get_attack_guard, get_attack_intent, get_attack_name,
    get_attack_power, get_attack_range, get_attack_shape, get_attack_speed, get_attack_traits,
    is_attack_valid, AttackTrait, AttackType, Point, RangeType,
};

const ALL: [AttackType; 8] = [
    AttackType::Sweep,
    AttackType::Punch,
    AttackType::Stun,
    AttackType::Push,
    AttackType::Dodge,
    AttackType::Recover,
    AttackType::Haymaker,
    AttackType::Ranged,
];

#[test]
fn catalog_ranges() {
    let want = [
        RangeType::Single,
        RangeType::Square { size: 1 },
        RangeType::Square { size: 1 },
        RangeType::Square { size: 1 },
        RangeType::Square { size: 2 },
        RangeType::Single,
        RangeType::Square { size: 1 },
        RangeType::Square { size: 3 },
    ];
    for (attack, range) in ALL.iter().zip(want.iter()) {
        assert_eq!(&get_attack_range(attack), range);
    }
}

#[test]
fn catalog_shapes() {
    for attack in ALL.iter() {
        let want =
            if *attack == AttackType::Sweep { RangeType::Square { size: 1 } } else { RangeType::Single };
        assert_eq!(get_attack_shape(attack), want);
    }
}

#[test]
fn catalog_power_speed_guard() {
    let power = [1, 1, 0, 0, 0, 0, 3, 1];
    let speed = [0, 1, 2, 0, 2, 0, -4, 0];
    let guard = [0, 0, 0, 0, -2, 0, 2, -4];
    for (k, attack) in ALL.iter().enumerate() {
        assert_eq!(get_attack_power(attack), power[k]);
        assert_eq!(get_attack_speed(attack), speed[k]);
        assert_eq!(get_attack_guard(attack), guard[k]);
        assert_eq!(get_attack_delay(attack), 0);
    }
}

#[test]
fn catalog_names() {
    let names = ["sweep", "punch", "stun", "push", "dodge", "recover", "haymaker", "shoot"];
    for (k, attack) in ALL.iter().enumerate() {
        assert_eq!(get_attack_name(attack), names[k]);
    }
}

#[test]
fn catalog_traits() {
    let want = [
        AttackTrait::Damage { amount: 1 },
        AttackTrait::Damage { amount: 1 },
        AttackTrait::Damage { amount: 0 },
        AttackTrait::Knockback { amount: 2 },
        AttackTrait::Movement,
        AttackTrait::Heal { amount: 2 },
        AttackTrait::Damage { amount: 2 },
        AttackTrait::Damage { amount: 1 },
    ];
    for (k, attack) in ALL.iter().enumerate() {
        assert_eq!(get_attack_traits(attack), vec![want[k]]);
    }
}

#[test]
fn punch_aims_at_the_adjacent_target() {
    let from = Point::new(5, 5);
    for dx in -1..=1 {
        for dy in -1..=1 {
            let target = Point::new(5 + dx, 5 + dy);
            assert_eq!(is_attack_valid(&AttackType::Punch, from, target), Some(target));
        }
    }
}

#[test]
fn punch_does_not_reach_two_tiles() {
    let from = Point::new(5, 5);
    assert_eq!(is_attack_valid(&AttackType::Punch, from, Point::new(7, 5)), None);
    assert_eq!(is_attack_valid(&AttackType::Punch, from, Point::new(5, 3)), None);
}

#[test]
fn sweep_is_aimed_at_the_own_tile() {
    let from = Point::new(5, 5);
    assert_eq!(is_attack_valid(&AttackType::Sweep, from, Point::new(6, 4)), Some(from));
    assert_eq!(is_attack_valid(&AttackType::Sweep, from, from), Some(from));
    assert_eq!(is_attack_valid(&AttackType::Sweep, from, Point::new(7, 5)), None);
}

#[test]
fn ranged_reaches_three_tiles_and_no_more() {
    let from = Point::new(10, 10);
    assert_eq!(is_attack_valid(&AttackType::Ranged, from, Point::new(13, 7)), Some(Point::new(13, 7)));
    assert_eq!(is_attack_valid(&AttackType::Ranged, from, Point::new(14, 10)), None);
}

#[test]
fn recover_reaches_only_the_own_tile() {
    let from = Point::new(10, 10);
    assert_eq!(is_attack_valid(&AttackType::Recover, from, from), Some(from));
    assert_eq!(is_attack_valid(&AttackType::Recover, from, Point::new(10, 11)), None);
}

#[test]
fn attack_targets_follow_the_shape() {
    assert_eq!(each_attack_target(&AttackType::Punch, Point::new(3, 4)), vec![Point::new(3, 4)]);
    let swept = each_attack_target(&AttackType::Sweep, Point::new(3, 4));
    assert_eq!(swept.len(), 9);
    assert_eq!(swept[0], Point::new(2, 3));
    assert_eq!(swept[4], Point::new(3, 4));
    assert_eq!(swept[8], Point::new(4, 5));
}

#[test]
fn attack_intent_carries_its_arguments() {
    let intent = get_attack_intent(&AttackType::Haymaker, Point::new(9, 1), Some(AttackType::Stun));
    assert_eq!(intent.main, AttackType::Haymaker);
    assert_eq!(intent.modifier, Some(AttackType::Stun));
    assert_eq!(intent.loc, Point::new(9, 1));
    assert_eq!(intent.delay, 0);
}

#[test]
fn sweep_needs_room_around_its_tile() {
    assert!(shape_in_reach(&AttackType::Sweep, Point::new(0, 0)));
    assert!(!shape_in_reach(&AttackType::Sweep, Point::new(i32::MAX, 0)));
    assert!(!shape_in_reach(&AttackType::Sweep, Point::new(0, i32::MIN)));
    assert!(shape_in_reach(&AttackType::Punch, Point::new(i32::MAX, i32::MIN)));
}
