//! Particle and falling-sand logic of a Godot game, with its contracts and
//! laws.
//!
//! `tilefg` holds the falling-sand rules of the foreground tile map,
//! `rotation` the rotation of the eight-neighbour ring that those rules use,
//! `tilebg` the background tile map, and `spacemagic` the layout of the
//! particles that the gravity simulation starts from.
pub mod rotation;
pub mod sandmap;
pub mod spacemagic;
pub mod tilebg;
pub mod tilefg;
