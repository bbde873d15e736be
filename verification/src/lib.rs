//! An archetype-based entity-component-system (ECS) storage core.
//!
//! Entities are generational handles issued by an [`entity::EntityAllocator`];
//! component data is held type-erased, as byte blocks keyed by a runtime type
//! identity, in columnar [`archetype::Archetype`] tables; a [`world::World`]
//! owns the allocator, the archetypes and the entity location table and keeps
//! them consistent through spawn, despawn and structural moves; queries and a
//! two-phase scheduler drive systems over the world.

pub mod archetype;
pub mod component;
pub mod entity;
pub mod query;
pub mod scheduler;
pub mod world;

pub use archetype::Archetype;
pub use component::{Component, ComponentDescriptor, ComponentRegistry, ComponentValue};
pub use entity::{EcsError, Entity, EntityAllocator};
pub use query::Query;
pub use scheduler::{FunctionMode, GameConfig, Scheduler, System, SystemFn, SystemParam, WriteComponent};
pub use world::{EntityLocation, World};
