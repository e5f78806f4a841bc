use counterpuncher::data::area_info::{
    combine_area, default_color, get_combined_color, get_combined_generator, get_combined_name,
};
use counterpuncher::quest::builder::build;
use counterpuncher::{
    generate_spawn_info, get_random_area, quest_type_name, AreaData, AreaInfo, MapBuilderArgs, Quest,
    QuestLog, QuestType, SpawnInfo,
};
use rltk::RandomNumberGenerator;

fn area(name: &str, map_type: usize, color_hex: &str) -> AreaInfo {
    AreaInfo { name: name.to_string(), map_type, color_hex: color_hex.to_string() }
}

fn table() -> AreaData {
    AreaData {
        prefixes: vec![area("Misty", 0, "#FFFFFF"), area("Burning", 2, "#FF0000")],
        areas: vec![area("Woods", 1, "#00FF00"), area("Plains", 0, "#FFFFFF")],
    }
}

fn quest(days_remaining: u8, reward: u32) -> Quest {
    Quest {
        quest_type: QuestType::Hunt,
        spawn_info: SpawnInfo {
            major_monsters: vec!["Legiana".to_string(), "Diablos".to_string()],
            minor_monsters: vec![],
            resources: vec![],
        },
        area_name: "Misty Woods".to_string(),
        map_builder_args: MapBuilderArgs {
            builder_type: 1,
            height: 40,
            width: 40,
            depth: 1,
            map_color: "#FFFFFF".to_string(),
        },
        reward,
        turn_limit: 300,
        completed: false,
        days_remaining,
    }
}

#[test]
fn quest_names_list_the_monsters() {
    assert_eq!(quest(3, 120).get_name(), "Hunt Legiana, Diablos");
    let mut lone = quest(3, 120);
    lone.spawn_info.major_monsters = vec!["Rathalos".to_string()];
    assert_eq!(lone.get_name(), "Hunt Rathalos");
    lone.spawn_info.major_monsters = vec![];
    assert_eq!(lone.get_name(), "Hunt ");
    lone.spawn_info.major_monsters = vec!["a".to_string(), "b".to_string(), "c".to_string()];
    assert_eq!(lone.get_name(), "Hunt a, b, c");
}

#[test]
fn quest_type_names() {
    assert_eq!(quest_type_name(QuestType::Hunt), "Hunting Quest");
    assert_eq!(quest_type_name(QuestType::Gather), "Gathering Quest");
    assert_eq!(quest_type_name(QuestType::Urgent), "Urgent Quest");
}

#[test]
fn a_day_withdraws_what_has_run_out() {
    let mut log = QuestLog::new();
    assert!(log.entries.is_empty());
    log.entries = vec![quest(3, 1), quest(1, 2), quest(2, 3), quest(0, 4), quest(255, 5)];
    log.advance_day();
    let left: Vec<(u32, u8)> = log.entries.iter().map(|q| (q.reward, q.days_remaining)).collect();
    assert_eq!(left, vec![(1, 2), (3, 1), (5, 254)]);
    log.advance_day();
    let left: Vec<(u32, u8)> = log.entries.iter().map(|q| (q.reward, q.days_remaining)).collect();
    assert_eq!(left, vec![(1, 1), (5, 253)]);
    assert_eq!(log.entries[0].get_name(), "Hunt Legiana, Diablos");
    assert_eq!(log.entries[0].area_name, "Misty Woods");
}

#[test]
fn a_day_on_an_empty_log_is_fine() {
    let mut log = QuestLog::new();
    log.advance_day();
    assert!(log.entries.is_empty());
}

#[test]
fn combined_areas() {
    let data = table();
    assert_eq!(get_combined_name(&data.prefixes[0], &data.areas[0]), "Misty Woods");
    assert_eq!(get_combined_generator(&data.prefixes[0], &data.areas[0]), 1);
    assert_eq!(get_combined_generator(&data.prefixes[1], &data.areas[0]), 1);
    assert_eq!(get_combined_generator(&data.prefixes[1], &data.areas[1]), 2);
    assert_eq!(get_combined_generator(&data.prefixes[0], &data.areas[1]), 0);
    assert_eq!(get_combined_color(&data.prefixes[1], &data.areas[0]), "#FF0000");
    assert_eq!(get_combined_color(&data.prefixes[0], &data.areas[0]), "#00FF00");
    assert_eq!(get_combined_color(&data.prefixes[0], &data.areas[1]), "#FFFFFF");
    assert_eq!(default_color(), "#FFFFFF");
    let both = combine_area(&data.prefixes[1], &data.areas[1]);
    assert_eq!((both.name.as_str(), both.map_type, both.color_hex.as_str()), ("Burning Plains", 2, "#FF0000"));
}

#[test]
fn a_random_area_is_made_of_the_table() {
    let data = table();
    let mut seen = std::collections::HashSet::new();
    for seed in 0..40u64 {
        let mut rng = RandomNumberGenerator::seeded(seed);
        let info = get_random_area(&mut rng, &data);
        let made = data.prefixes.iter().any(|p| {
            data.areas.iter().any(|a| {
                let want = combine_area(p, a);
                (want.name == info.name) && (want.map_type == info.map_type) && (want.color_hex == info.color_hex)
            })
        });
        assert!(made, "{:?}", info);
        seen.insert(info.name);
    }
    assert!(seen.len() > 1);
}

#[test]
fn spawn_info_names_the_monsters_of_a_hunt() {
    let rng = RandomNumberGenerator::seeded(1);
    let info = generate_spawn_info(&rng);
    assert_eq!(info.major_monsters, vec!["mook".to_string(), "archer".to_string()]);
    assert!(info.minor_monsters.is_empty());
    assert!(info.resources.is_empty());
}

#[test]
fn a_fresh_hunt() {
    let data = table();
    let mut rng = RandomNumberGenerator::seeded(5);
    let quest = build(&mut rng, &data, 2);
    assert_eq!(quest.quest_type, QuestType::Hunt);
    assert_eq!((quest.reward, quest.turn_limit, quest.completed, quest.days_remaining), (120, 300, false, 3));
    assert_eq!((quest.map_builder_args.width, quest.map_builder_args.height), (60, 60));
    assert_eq!(quest.map_builder_args.depth, 1);
    assert_eq!(quest.get_name(), "Hunt mook, archer");
    assert!(quest.area_name.contains(' '));
}

#[test]
fn added_quests_come_last() {
    let data = table();
    let mut rng = RandomNumberGenerator::seeded(5);
    let mut log = QuestLog::new();
    log.entries.push(quest(2, 7));
    log.add_quest(&mut rng, &data, 0);
    log.add_quest(&mut rng, &data, -4);
    assert_eq!(log.entries.len(), 3);
    assert_eq!(log.entries[0].reward, 7);
    assert_eq!(log.entries[1].map_builder_args.width, 40);
    assert_eq!(log.entries[2].map_builder_args.height, 0);
    assert_eq!(log.entries[2].days_remaining, 3);
}
