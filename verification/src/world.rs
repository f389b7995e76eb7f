//! The world's reference data: where servers run, what areas and instances
//! exist and who stands in them. Designers author these rows; nothing here
//! changes them.

use vstd::prelude::*;
use crate::spatial::Location;

verus! {

#[derive(Debug)]
pub struct Datacenter {
    pub id: i16,
    pub name: String,
    pub region: String,
}

#[derive(Debug)]
pub struct GameServer {
    pub id: i16,
    pub name: String,
    pub datacenter_id: i16,
}

#[derive(Debug)]
pub struct Area {
    pub id: i16,
    pub name: String,
    pub description: String,
}

#[derive(Clone, Copy, Debug, PartialEq, Eq, Structural)]
pub enum InstanceType {
    Dungeon,
    Trial,
    Raid,
}

/// The template of an instance. What a character has reached in it is kept
/// apart, in the character's instance log.
#[derive(Debug)]
pub struct Instance {
    pub id: u128,
    pub name: String,
    pub description: String,
    pub instance_type: InstanceType,
    pub player_count: i16,
    pub min_level: i16,
}

#[derive(Debug)]
pub struct Stat {
    pub id: i16,
    pub name: String,
}

#[derive(Clone, Copy, Debug, PartialEq, Eq, Structural)]
pub struct ItemStat {
    pub item_id: u128,
    pub stat_id: i16,
    pub value: i32,
}

#[derive(Debug)]
pub struct NPC {
    pub id: u128,
    pub area_id: i16,
    pub location: Location,
    pub name: String,
    pub default_conversation: String,
    pub visible_without_quest: bool,
}

} // verus!
