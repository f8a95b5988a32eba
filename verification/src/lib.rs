//! `evp`: recording terminal sessions from VHS-style `.tape` scripts.

pub mod cli;
pub mod decimal;
pub mod font;
pub mod gif;
pub mod json;
pub mod mouse_canvas;
pub mod keys;
pub mod osc;
pub mod pipeline;
pub mod pty;
pub mod raster;
pub mod record;
pub mod render;
pub mod recording;
pub mod render_common;
pub mod rng;
pub mod runner;
pub mod script;
pub mod style;
pub mod svg;
pub mod telemetry;
pub mod text;
pub mod units;
pub mod xtask;

use vstd::prelude::*;

verus! {

} // verus!
