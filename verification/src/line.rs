//! What the stall says in a LINE chat.

pub mod commands;
pub mod handler;
