use vstd::prelude::*;
use vstd::string::*;

verus! {

/// What a quest sends the player after: the monsters that must fall, those
/// that roam besides, and what can be gathered.
#[derive(Clone, Debug, Default)]
pub struct SpawnInfo {
    pub major_monsters: Vec<String>,
    pub minor_monsters: Vec<String>,
    pub resources: Vec<String>,
}

/// The monsters of a hunt: a mook and an archer, whatever the generator
/// would draw.
pub fn generate_spawn_info(rng: &rltk::RandomNumberGenerator) -> (info: SpawnInfo)
    ensures
        info.major_monsters@.len() == 2,
        info.major_monsters@[0]@ == "mook"@,
        info.major_monsters@[1]@ == "archer"@,
        info.minor_monsters@.len() == 0,
        info.resources@.len() == 0,
{
    let mut major_monsters: Vec<String> = Vec::new();
    major_monsters.push(String::from_str("mook"));
    major_monsters.push(String::from_str("archer"));
    SpawnInfo { major_monsters, minor_monsters: Vec::new(), resources: Vec::new() }
}

} // verus!
