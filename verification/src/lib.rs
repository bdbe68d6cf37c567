//! A desktop application runtime: a staged scheduler, a typed event bus
//! with frame-bounded visibility, and a window lifecycle state machine
//! that keeps per-window entity state and rendering surfaces consistent.

pub mod collections;
pub mod colors;
pub mod context;
pub mod events;
pub mod lifecycle;
pub mod renderer;
pub mod runtime;
pub mod schedule;
pub mod window;
pub mod world;
