//! The pipe network of a tile-based platformer: junctions built from a tile
//! layer, signals routed through them with fan-out, signals travelling along
//! pipes at a fixed-point speed, and the width profile drawn along a pipe.

pub mod kind;
pub mod tilemap;
pub mod network;
pub mod signal;
pub mod bulge;
