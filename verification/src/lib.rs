//! A minimal entity-component-system runtime.
//!
//! Entities are small recyclable integer identifiers handed out by an
//! [`id::IdPool`].  Typed data ("components") is attached to entities and
//! indexed by a small integer family; a per-entity bit mask records which
//! families are present, so multi-component queries are answered by a
//! subset test on masks.  Systems communicate through a double-buffered
//! event bus and are driven one tick at a time by a simulation loop.

pub mod component;
pub mod event;
pub mod family;
pub mod id;
pub mod mask;
pub mod simulation;
pub mod sparse;
pub mod system;
pub mod world;
