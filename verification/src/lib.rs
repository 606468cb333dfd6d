//! A retained-mode 2D scene graph: the bookkeeping behind a tree of drawn nodes.
//!
//! The crate holds everything that can be decided without arithmetic on coordinates:
//! which render slot a node owns, when a slot has to be rebuilt, how slots are merged
//! into draw calls, which node receives a pointer event. Positions, colours and
//! vertices are carried as values of the caller's own types.

pub mod engine;
pub mod object;
pub mod render;

pub use crate::engine::Engine;
pub use crate::object::d2::{Body, CreateNode2d, Module, Node2d};
pub use crate::object::{Anchor, DrawUpdate, Keep, Key, Touch};
pub use crate::render::batch::Batch;
pub use crate::render::d2::{Camera2d, Outline, Renders, Slot};
pub use crate::render::quad::meta;
pub use crate::render::{Font, Texture, View};
