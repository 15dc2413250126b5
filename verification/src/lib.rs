//! Game-interface logic of the Shogun strategy game: shortcut bindings,
//! settings validation, officer editing, report highlighting, faction
//! overviews and details, diplomacy, research, events, the shrine's kinship
//! graph and image preprocessing, with their contracts.

pub mod assets;
pub mod city_list;
pub mod diplomacy;
pub mod events;
pub mod faction_detail;
pub mod faction_overview;
pub mod game;
pub mod image;
pub mod keys;
pub mod kinship;
pub mod map;
pub mod new_game;
pub mod officer_browser;
pub mod officer_detail;
pub mod officer_edit;
pub mod orders;
pub mod panels;
pub mod portrait_tasks;
pub mod portraits;
pub mod report;
pub mod settings;
pub mod shortcuts;
pub mod shrine;
pub mod table_order;
pub mod tags;
pub mod technology;
pub mod text;
