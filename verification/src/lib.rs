//! Command routing and parameter parsing engine for chat-platform bots.
//!
//! The library tokenizes raw message text into quote-aware arguments, looks
//! commands up by case-insensitive name, binds the remaining tokens onto a
//! declared parameter schema, and translates each command outcome into a
//! rendering plan (a reply, a reaction, or an internal-error notice).

pub mod commands;
pub mod helpers;
pub mod listener;
pub mod params;
pub mod text;
pub mod tokenizer;
