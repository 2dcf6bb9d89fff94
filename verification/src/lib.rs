//! A dependency engine for a service manager.
//!
//! Units (services, mounts, sockets, targets) are described by what they
//! require, want, are to start after, and conflict with. The engine starts
//! and stops them in an order that honours those lists, and carries the
//! failure or the stop of a unit to the units that require it.
//!
//! The engine is made of four actors and of one guard for each unit that
//! is on its way up, up, or on its way down:
//!
//! - [`store`]: the description of every loaded unit, and what a start
//!   pulls in;
//! - [`state_store`]: the state of every unit, and who waits for it to
//!   change;
//! - [`guard`]: the guards and their registry;
//! - [`dep`]: the resolver, which knows who depends on whom and who waits
//!   for what;
//! - [`actor`]: the four side by side, with the queue of messages between
//!   them;
//! - [`agreement`]: that the resolver's graph follows the unit store.
//!
//! Around them stand the data they work on ([`unit`], [`state`],
//! [`idset`], [`table`]), the kinds of units ([`service`], [`mount`],
//! [`socket`], [`target`]), and what reads units from text ([`text`],
//! [`loader`], [`fstab`], [`mount_monitor`]).
//!
//! The engine does no input or output. Whoever drives it sends it commands,
//! takes its steps one by one, and carries out the effects that a step
//! leaves: to start or stop a backend, to answer a watcher, to let others
//! run.

pub mod actor;
pub mod agreement;
pub mod dep;
pub mod fstab;
pub mod guard;
pub mod idset;
pub mod loader;
pub mod mount;
pub mod mount_monitor;
pub mod service;
pub mod socket;
pub mod state;
pub mod state_store;
pub mod store;
pub mod table;
pub mod target;
pub mod text;
pub mod unit;
