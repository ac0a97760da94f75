//! Core of a 2D tile-based platformer with an integrated level editor:
//! the tile-world model, the autotiling engine that derives a tile's
//! appearance from its neighbors, the axis-separated collision/physics
//! engine shared by the player and enemies, and the editor's tool state
//! machine.  All world arithmetic is done in fixed-point subpixel units so
//! that every rule is stated and proved exactly.

#![verifier::loop_isolation(false)]

pub mod anim;
pub mod autotile;
pub mod camera;
pub mod data;
pub mod enemy;
pub mod fixed;
pub mod flood;
pub mod level;
pub mod maker;
pub mod physics;
pub mod player;
pub mod runtime;
