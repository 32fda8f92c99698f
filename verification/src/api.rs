//! What the stall answers to those who ask from outside.

pub mod auth;
pub mod handler;
pub mod model;
