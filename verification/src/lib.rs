//! A number guessing game: the game rules, the localized message templates,
//! the in-game commands and the locale catalogue, with their contracts.
pub mod text;
pub mod locales;
pub mod json;
pub mod commands;
pub mod game;
