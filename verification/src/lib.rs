//! Domain model of a multiplayer game backend: bounded spatial coordinates,
//! the inventory ledger, the shop catalog, loot tables, the quest graph and
//! the per-character progression tracker. Every function is a synchronous
//! computation over values the caller has already fetched; persistence of the
//! returned state is the caller's job.

pub mod error;
pub mod spatial;
pub mod spatial_order;
pub mod inventory;
pub mod character;
pub mod economy;
pub mod loot;
pub mod world;
pub mod quest;
pub mod progression;
