//! A configurable terminal clock: the clock faces' layout and glyph logic,
//! the configuration model, the calendar reminder rules and the key handling
//! of the interactive session.

pub mod text;
pub mod time;
pub mod vector;
pub mod braille;
pub mod calendar;
pub mod cli;
pub mod color;
pub mod config;
pub mod faces;
pub mod render;
pub mod seg7;
pub mod picker;
pub mod session;
