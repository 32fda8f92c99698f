//! What the stall says on Discord.

pub mod commands;
pub mod event_handler;
