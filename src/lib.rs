//! Hierarchical state machines: states that depend on other states, recomputed
//! every tick in dependency order, with enter/exit notifications.
//!
//! A [`state::StateCatalog`] declares the state types, each after the states it
//! depends on, and gives each an order one above its dependencies' highest.
//! A [`world::StateWorld`] holds which of them are registered and, per owning
//! context (one global, any number of local ones), a [`components::StateData`]
//! record for each initialized state. Every tick runs an update pass, by
//! ascending order, and then a transition phase that reports exits from
//! leaves to roots and enters from roots to leaves ([`scheduling`]).
//! [`laws`] states and proves the properties that tie these together.

pub mod components;
pub mod config;
pub mod state;
pub mod state_set;
pub mod system_set;
pub mod state_scoped;
pub mod transitions;
pub mod util;
pub mod world;
pub mod scheduling;
pub mod laws;
pub mod plugin;
