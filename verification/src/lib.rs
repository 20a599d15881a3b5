//! Venture: the rules of a work-session quest game, verified.
pub mod text;
pub mod map;
pub mod dotdo;
pub mod ui;
pub mod app;
pub mod controller;
