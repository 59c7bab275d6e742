//! Layout and configuration logic of an e-ink calendar display.
//!
//! The library computes where the rows, events and labels of a day view go on a
//! 300x400 black and white panel, finds free horizontal slots for overlapping
//! events, and holds the rules of the device's stored configuration.
use vstd::prelude::*;

pub mod boot;
pub mod caldav;
pub mod config;
pub mod dates;
pub mod events;
pub mod font;
pub mod geometry;
pub mod labels;
pub mod layout;
pub mod shim;
pub mod spaces;

verus! {

} // verus!
