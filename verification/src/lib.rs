//! Management of the scarce video memory of a tile-based display controller:
//! background tile layers on one side, hardware sprite objects on the other.
//!
//! Nothing in this crate touches the hardware. Every operation that has to
//! reach a memory-mapped region hands back the stores to be performed there,
//! or queues them until they are taken, as plain `Store` values carrying an
//! address and a value.
//!
//! Backgrounds: `vram` owns the tileset arena and the tile cache, whose
//! mathematical models are `arena_model` and `cache_model`; `regular_map` is
//! one layer's grid of cells, `tiled` lends the four layers out, and
//! `infinite_map` scrolls a layer over an unbounded world.
//!
//! Objects: `sprite` describes sprite graphics, `block_allocator` and
//! `sprite_controller` keep them in sprite memory, `attributes` packs what
//! the hardware reads of an object, and `object` is the shadow of the object
//! attribute table.

pub mod arena_model;
pub mod attributes;
pub mod block_allocator;
pub mod cache_model;
pub mod geometry;
pub mod hardware;
pub mod infinite_map;
pub mod object;
pub mod palette16;
pub mod regular_map;
pub mod sprite;
pub mod sprite_controller;
pub mod table;
pub mod tile;
pub mod tiled;
pub mod vram;
