//! L-system plant generation: rewriting engine, classic scenes, turtle bookkeeping,
//! and the plain state of the viewer around them.

pub mod dice;
pub mod ecosystem;
pub mod fnv;
pub mod gui;
pub mod lod;
pub mod lsystem;
pub mod plants;
pub mod scenes;
pub mod settings;
pub mod state;
pub mod turtle;
pub mod world;
