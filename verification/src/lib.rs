//! Runtime core of an entity-component-system framework.
//!
//! Entities are opaque recyclable identifiers issued by a fixed-capacity
//! pool.  Component values are attached to entities in per-type storage
//! containers, routed by a runtime component-type tag.  Systems declare a
//! required component-type signature and are applied to exactly the
//! entities whose attached types cover that signature; mutations a system
//! wants to make to the world itself are deferred as explicit commands and
//! run after every system has stepped.

use vstd::prelude::*;

pub mod component;
pub mod coordinator;
pub mod ecs;
pub mod globals;
pub mod pool;
mod support;
pub mod system;

pub use component::ComponentArray;
pub use component::ComponentManager;
pub use coordinator::Coordinator;
pub use globals::Globals;
pub use pool::EntitiesPool;
pub use system::Command;
pub use system::System;
pub use system::SystemManager;

verus! {

/// An entity: an opaque, reusable handle with no intrinsic data.
pub type Entity = u32;

/// A process-wide stable tag for a concrete component data type.
pub type ComponentType = u64;

/// A process-wide stable tag distinguishing one registered system from another.
pub type SystemType = u64;

/// Fixed capacity of the entity pool: the maximum number of entities
/// that can be taken at once.
pub const MAX_ENTITIES: u32 = 100;

} // verus!
