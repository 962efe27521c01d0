//! A Matrix bot that answers chat commands with osu! player profiles and
//! lets its admin confirm device verification by emoji comparison.
//!
//! This crate holds the bot's logic: reading commands and their arguments
//! from messages, rendering embeds, its settings, and the decisions of its
//! event handlers. Talking to Matrix and to the osu! API is left to the
//! program that uses it.
pub mod text;
pub mod numbers;
pub mod html;
pub mod embed;
pub mod commands;
pub mod settings;
pub mod user_embed;
pub mod verification;
pub mod command_attr;
