pub mod camera;
pub mod components;
pub mod data;
pub mod direction;
pub mod frame;
pub mod geometry;
pub mod glyph;
pub mod gui;
pub mod map;
pub mod map_builder;
pub mod monster_part;
pub mod move_type;
pub mod pipeline;
pub mod player;
pub mod quest;
pub mod random;
pub mod range_type;
pub mod spawn;
pub mod spawner;
pub mod sys_ai;
pub mod sys_attack;
pub mod sys_death;
pub mod sys_mapindex;
pub mod sys_movement;
pub mod sys_partmove;
pub mod sys_turn;
pub mod sys_visibility;
pub mod weapon;
pub mod world;

pub use camera::{Camera, CameraIterator};
pub use components::{
    AiState, AttackIntent, CanActFlag, Health, MoveIntent, Moveset, MultiTile, PartMoveIntent,
    Position, Viewshed,
};
pub use data::{get_random_area, AreaData, AreaInfo};
pub use direction::Direction;
pub use frame::{after_tick, await_input, choose_target};
pub use geometry::{Point, Rect};
pub use map::{build_rogue_map, TileMap, TileType};
pub use map_builder::{DrunkSpawnMode, DrunkardSettings};
pub use monster_part::MonsterPart;
pub use move_type::{
    each_attack_target, get_attack_delay, get_attack_guard, get_attack_intent, get_attack_name,
    get_attack_power, get_attack_range, get_attack_shape, get_attack_speed, get_attack_traits,
    is_attack_valid, AttackTiming, AttackTrait, AttackType,
};
pub use pipeline::run_systems;
pub use player::{
    end_turn_cleanup, handle_charging, handle_keys, mission_select_input, player_input,
    queue_attack, ranged_target, try_move_player, view_input, weapon_attack, Charge, Command,
    QuestPick, RunState, SelectionResult, Targeting,
};
pub use quest::{quest_type_name, MapBuilderArgs, Quest, QuestLog, QuestType};
pub use range_type::{resolve_range_at, RangeType};
pub use spawn::info::{generate_spawn_info, SpawnInfo};
pub use spawner::{
    build_archer, build_empty_barrel, build_enemy_base, build_from_name, build_level, build_mook,
    build_npc_blacksmith, build_npc_handler, build_npc_shopkeeper, build_player, place_spawns,
    room_area, spawn_region, track_entity, SpawnDraw,
};
pub use sys_ai::{AiStep, AiSystem, Behavior, NavigationPath, NextIntent};
pub use sys_attack::AttackSystem;
pub use sys_death::DeathSystem;
pub use sys_mapindex::MapIndexSystem;
pub use sys_movement::MovementSystem;
pub use sys_partmove::PartMoveSystem;
pub use sys_turn::TurnSystem;
pub use sys_visibility::VisibilitySystem;
pub use weapon::lance::{Lance, LanceAttack, LanceState};
pub use weapon::{Weapon, WeaponButton};
pub use world::{Actor, NpcType, ParticleRequest, World};
