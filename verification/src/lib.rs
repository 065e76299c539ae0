//! Verified core of an inventory viewer for Archipelago multiworlds.

pub mod cache;
pub mod client;
pub mod conn;
pub mod data;
pub mod inventory;
pub mod istr;
pub mod items;
pub mod lookup;
pub mod order;
pub mod os_path;
pub mod room;
pub mod room_job;
pub mod room_run;
pub mod rows;
pub mod search;
pub mod slots;
pub mod sync;
pub mod tables;
pub mod text;
pub mod ui;
pub mod windows;
pub mod world;
pub mod world_ui;
