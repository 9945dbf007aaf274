//! Game data formats and server rules of a ROSE Online toolkit, each stated
//! over a mathematical model and proved.
//!
//! Formats: STB tables, IFO zone lumps, DDS icon sheets, the VFS index and
//! its storage files, and the shop tables an NPC shop editor works on.
//! Rules: item references, crafting, upgrading and disassembly (with the
//! inventory and mana they spend), skill costs and cooldowns, status effects,
//! clan ranks, rosters and upgrades, friends and parties, PvP, command
//! scheduling and skill targets, bonfires, and monster spawn scheduling.

pub mod bytes;
pub mod text;
pub mod stb;
pub mod item_ref;
pub mod product;
pub mod crafting;
pub mod clan;
pub mod party;
pub mod pvp;
pub mod config;
pub mod spawn;
pub mod dds;
pub mod ifo;
pub mod shop;
pub mod zones;
pub mod entity;
pub mod social;
pub mod messages;
pub mod command;
pub mod bonfire;
pub mod reload;
pub mod zone_list;
pub mod vfs;
pub mod clan_rules;
pub mod dataset;
pub mod upgrade;
pub mod skill_cost;
pub mod craft_rules;
pub mod player_actions;
pub mod clan_roster;
pub mod status_effects;
pub mod command_step;
