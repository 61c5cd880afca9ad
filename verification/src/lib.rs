//! A minimal entity-component storage engine with intersection queries and a
//! fixed-order per-tick scheduler.
//!
//! Entities are opaque integer handles issued by an [`entity::EntityRegistry`].
//! Each component type lives in its own sparse [`store::ComponentStore`]; the
//! [`world::World`] owns the registry and one store per component kind.
//! [`join::join2`] produces the entities present in two stores at once, and
//! [`systems::SystemScheduler`] runs the registered update systems in a fixed
//! order before applying deferred entity destruction. [`tick::tick`] is the
//! per-frame entry point: it applies the optional input, runs the scheduler,
//! and collects the draw calls for the presentation surface.

pub mod components;
pub mod entity;
pub mod join;
pub mod world;
pub mod store;
pub mod systems;
pub mod tick;
