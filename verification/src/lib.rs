//! Verified core of LaunchVault: the Steam VDF parser, the game library
//! model and its operations, Steam manifest scanning rules and theme choice.

pub mod text;
pub mod vdf;
pub mod order;
pub mod path;
pub mod models;
pub mod library;
pub mod steam;
pub mod theme;
