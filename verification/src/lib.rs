//! Verified core of a pixel-direct e-ink dashboard server.
#![allow(unused_imports)]

use vstd::prelude::*;

pub mod agenda;
pub mod alerts;
pub mod budget;
pub mod clock;
pub mod dashboard;
pub mod data;
pub mod device;
pub mod fetch;
pub mod hosts;
pub mod ical;
pub mod render;
pub mod status;
pub mod text;
pub mod weather;

verus! {

} // verus!
