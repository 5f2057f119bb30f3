use vstd::prelude::*;

pub mod ser;
pub mod update_advancements;
pub mod select_advancements_tab;
pub mod seen_advancements;
pub mod string_map;
pub mod text;
pub mod advancement_data;
pub mod advancement_command;
