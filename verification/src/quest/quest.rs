use vstd::prelude::*;
use vstd::string::*;
use crate::spawn::info::SpawnInfo;

verus! {

#[derive(Clone, Copy, Debug, PartialEq, Eq, Structural)]
pub enum QuestType {
    Hunt,
    Gather,
    Urgent,
}

/// What the map of a quest is built from.
#[derive(Clone, Debug)]
pub struct MapBuilderArgs {
    pub builder_type: usize,
    pub height: i32,
    pub width: i32,
    pub depth: i32,
    pub map_color: String,
}

#[derive(Clone, Debug)]
pub struct Quest {
    pub quest_type: QuestType,
    pub spawn_info: SpawnInfo,
    pub area_name: String,
    pub map_builder_args: MapBuilderArgs,
    pub reward: u32,
    pub turn_limit: u32,
    pub completed: bool,
    pub days_remaining: u8,
}

/// The first `upto` of `names`, with a comma and a blank between each two.
pub open spec fn joined(names: Seq<String>, upto: int) -> Seq<char>
    decreases upto,
{
    if upto <= 0 {
        Seq::empty()
    } else if upto == 1 {
        names[0]@
    } else {
        joined(names, upto - 1) + ", "@ + names[upto - 1]@
    }
}

/// The title of a kind of quest.
pub open spec fn quest_type_title(quest_type: QuestType) -> Seq<char> {
    match quest_type {
        QuestType::Hunt => "Hunting Quest"@,
        QuestType::Gather => "Gathering Quest"@,
        QuestType::Urgent => "Urgent Quest"@,
    }
}

impl Quest {
    /// The name of the quest: "Hunt", and the monsters that must fall.
    pub fn get_name(&self) -> (name: String)
        ensures
            name@ == "Hunt "@ + joined(
                self.spawn_info.major_monsters@,
                self.spawn_info.major_monsters@.len() as int,
            ),
    {
        let mut name = String::from_str("Hunt ");
        let monsters = &self.spawn_info.major_monsters;
        let mut k: usize = 0;
        while k < monsters.len()
            invariant
                k <= monsters@.len(),
                name@ == "Hunt "@ + joined(monsters@, k as int),
            decreases monsters@.len() - k,
        {
            if k > 0 {
                name.append(", ");
            }
            name.append(monsters[k].as_str());
            proof {
                assert(name@ =~= "Hunt "@ + joined(monsters@, k + 1));
            }
            k = k + 1;
        }
        name
    }
}

/// The title of a kind of quest.
pub fn quest_type_name(quest_type: QuestType) -> (name: String)
    ensures
        name@ == quest_type_title(quest_type),
{
    match quest_type {
        QuestType::Hunt => String::from_str("Hunting Quest"),
        QuestType::Gather => String::from_str("Gathering Quest"),
        QuestType::Urgent => String::from_str("Urgent Quest"),
    }
}

} // verus!
