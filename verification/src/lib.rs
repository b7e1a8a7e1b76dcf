//! Game logic of a real-time space strategy game: ship and model identifiers,
//! build queues, carrier hangars, keyboard and mouse input state machines,
//! the topology of the dynamic bounding volume hierarchy used for collision
//! queries, and the integer bookkeeping behind instanced drawing.
#![allow(unused_imports)]

pub mod ships;
pub mod bvh_store;
pub mod bvh;
pub mod carrying;
pub mod build_queue;
pub mod keyboard;
pub mod mouse;
pub mod components;
pub mod ui;
pub mod draw;
pub mod mesh;
pub mod controls;
