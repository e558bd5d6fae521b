//! Bookkeeping core of an authoritative arena-shooter server.
//!
//! The physics world itself (positions, velocities, impulses) lives with the
//! host, which refers to each physical body by a [`entities::BodyKey`]. This
//! library owns everything the game rules decide on: which connections have a
//! player, health and damage, shooting cooldowns, bullet lifetimes, the
//! per-connection session directory, and which entities every snapshot shows.

pub mod directory;
pub mod engine;
pub mod entities;
pub mod laws;
