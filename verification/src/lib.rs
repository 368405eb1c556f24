pub mod bar_items;
pub mod commands;
pub mod config;
pub mod directory;
pub mod editor;
pub mod events;
pub mod flag;
pub mod input;
pub mod joining;
pub mod markdown;
pub mod mentions;
pub mod members;
pub mod message;
pub mod naming;
pub mod outgoing;
pub mod permissions;
pub mod parsing;
pub mod store;
pub mod style;
pub mod styled_laws;
pub mod styled_string;
pub mod text;
pub mod typing;
pub mod utils;
