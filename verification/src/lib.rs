//! Verified core of a Minecraft server hosting backend.
pub mod text;
pub mod assoc;
pub mod ip_ban;
pub mod properties;
pub mod player;
pub mod errors;
pub mod auth;
pub mod window;
pub mod models;
pub mod settings;
pub mod instance;
pub mod registry;
pub mod validate;
pub mod mods;
pub mod modpack;
pub mod log;
pub mod installer;
pub mod providers;
pub mod modrinth;
pub mod world;
pub mod cli;
pub mod tmpfs;
