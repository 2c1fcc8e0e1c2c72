//! An earlier, smaller cut of the runtime core, kept alongside the main
//! one: the entity pool owns the entity-to-types index here, component
//! storage keeps no index of its own, and a system's step takes the
//! storage registry alone and returns nothing, so there are no deferred
//! commands in this tree.

pub mod component;
pub mod coordinator;
pub mod pool;
pub mod system;

pub use component::ComponentArray;
pub use component::ComponentManager;
pub use coordinator::Coordinator;
pub use pool::EntitiesPool;
pub use system::System;
pub use system::SystemManager;
