//! Gameplay core of a small real-time game: an archetype entity store, a
//! texture asset registry, a versioned save model and a fixed-step state
//! machine, with every rule stated as a contract.
//!
//! Lengths are integers in sub-pixels (one sixtieth of a pixel), so that a
//! speed in pixels per second is exactly the distance covered in one fixed
//! step of a sixtieth of a second. Colours and volumes are in thousandths.

pub mod geometry;
pub mod components;
pub mod ecs;
pub mod assets;
pub mod save;
pub mod text;
pub mod world_setup;
pub mod systems;
pub mod game;
pub mod perf;
