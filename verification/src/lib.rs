//! `dayshift` rotates a desktop wallpaper over the course of a day.
//!
//! The library holds the verified core: the time-segmentation engine
//! (windows of wall-clock time, their division into equal segments, and
//! the resolver that picks the segment containing "now"), the theme
//! loader policy, the wallpaper file lister, and the command-line
//! decision logic.  Reading the clock, the file system and the OS
//! wallpaper interface are left to the surrounding binary, which hands
//! this library plain values.

pub mod commands;
pub mod error;
pub mod helpers;
pub mod text;
pub mod theme;
pub mod time;
