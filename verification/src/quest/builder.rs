use vstd::prelude::*;
use vstd::string::*;
use crate::data::area_info::{combined, get_random_area, AreaData};
use crate::quest::quest::{MapBuilderArgs, Quest, QuestType};
use crate::spawn::info::generate_spawn_info;

verus! {

/// The side of the map of a quest of the given difficulty.
pub open spec fn quest_map_side(difficulty: int) -> int {
    40 + 10 * difficulty
}

/// Whether the map of a quest of the given difficulty has a side that can be
/// computed.
pub open spec fn difficulty_fits(difficulty: int) -> bool {
    i32::MIN <= 10 * difficulty && quest_map_side(difficulty) <= i32::MAX
}

/// Whether `quest` is a fresh hunt of the given difficulty in an area of
/// the table: three days to take it, three hundred turns to do it, a reward
/// of 120, a mook and an archer to hunt.
pub open spec fn fresh_hunt(quest: Quest, data: AreaData, difficulty: int) -> bool {
    &&& quest.quest_type == QuestType::Hunt
    &&& quest.reward == 120
    &&& quest.turn_limit == 300
    &&& !quest.completed
    &&& quest.days_remaining == 3
    &&& quest.map_builder_args.height == quest_map_side(difficulty)
    &&& quest.map_builder_args.width == quest_map_side(difficulty)
    &&& quest.map_builder_args.depth == 1
    &&& quest.spawn_info.major_monsters@.len() == 2
    &&& quest.spawn_info.major_monsters@[0]@ == "mook"@
    &&& quest.spawn_info.major_monsters@[1]@ == "archer"@
    &&& quest.spawn_info.minor_monsters@.len() == 0
    &&& quest.spawn_info.resources@.len() == 0
    &&& exists|p: int, a: int|
        0 <= p < data.prefixes@.len() && 0 <= a < data.areas@.len() && {
            let area = combined((#[trigger] data.prefixes@[p])@, (#[trigger] data.areas@[a])@);
            &&& quest.area_name@ == area.name
            &&& quest.map_builder_args.builder_type == area.map_type
            &&& quest.map_builder_args.map_color@ == area.color_hex
        }
}

/// A fresh hunt of the given difficulty in an area drawn at random.
pub fn build(rng: &mut rltk::RandomNumberGenerator, data: &AreaData, difficulty: i32) -> (quest:
    Quest)
    requires
        data.prefixes@.len() > 0,
        data.areas@.len() > 0,
        difficulty_fits(difficulty as int),
    ensures
        fresh_hunt(quest, *data, difficulty as int),
{
    let area_info = get_random_area(rng, data);
    let spawn_info = generate_spawn_info(rng);
    Quest {
        quest_type: QuestType::Hunt,
        spawn_info,
        area_name: area_info.name,
        map_builder_args: MapBuilderArgs {
            builder_type: area_info.map_type,
            height: 40 + 10 * difficulty,
            width: 40 + 10 * difficulty,
            depth: 1,
            map_color: area_info.color_hex,
        },
        reward: 120,
        turn_limit: 300,
        completed: false,
        days_remaining: 3,
    }
}

} // verus!
