//! Order tracking for a made-to-order taiyaki stall.
//!
//! Stock is baked in batches, orders queue up for it, and after every change
//! the registry works out again which orders can be handed over now, which
//! are covered by the very next batch, and how long the others will wait.
//!
//! - [`data`] holds the records: flavors, items, orders, stock.
//! - [`reconcile`] says what reconciling the orders with the stock means,
//!   [`changes`] what each change to the records means, and [`estimate`]
//!   how long a customer waits; [`laws`] proves what follows from them.
//! - [`app`] is the registry, which keeps the records and carries all of
//!   this out; [`engine`] holds the steps of reconciling.
//! - [`api`], [`line`] and [`discord`] work out what is answered to a
//!   request, a chat message or a command, and read what was typed.
//! - [`clock`] reads the system clock and writes times out; [`text`] takes
//!   texts apart and puts them together; [`count_completed`] counts what
//!   was sold.

pub mod api;
pub mod app;
pub mod changes;
pub mod clock;
pub mod count_completed;
pub mod data;
pub mod discord;
pub mod engine;
pub mod estimate;
pub mod laws;
pub mod line;
pub mod reconcile;
pub mod text;
