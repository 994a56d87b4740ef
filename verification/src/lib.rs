pub mod text;
pub mod resolution;
pub mod position;
pub mod tile;
pub mod items;
pub mod equipment;
pub mod container;
pub mod map;
pub mod errors;
pub mod attributes;
pub mod character;
pub mod progress;
pub mod option_list_selection;
pub mod input;
pub mod menu;
pub mod ui;
pub mod scope;
pub mod look;
pub mod item_list_selection;
pub mod map_generator;
pub mod settings;
pub mod level;
pub mod container_util;
pub mod util;
pub mod combat;
pub mod view;
