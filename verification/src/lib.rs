//! Combat-resolution core for a tick-driven real-time simulation.
//!
//! Actors live in a [`registry::Registry`]; transient attachments (a pending
//! attack, an action cooldown, the downed state) encode each actor's place in
//! the combat state machine. Once per tick the resolvers run in a fixed
//! order: attacks become damage events, damage events mutate vitals and down
//! actors, despawn timers advance and remove expired actors, and cooldowns
//! count down and clear.

pub mod actor;
pub mod registry;
pub mod damage;
pub mod attack;
pub mod expiry;
pub mod targeting;
pub mod tick;
pub mod laws;
