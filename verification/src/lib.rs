//! Verified core of a five-axis printer studio: G-code line parsing,
//! playback sequencing, kinematics model selection and launcher settings.

use vstd::prelude::*;

pub mod cli;
pub mod gcode;
pub mod kinematics;
pub mod number;
pub mod player;
pub mod text;

verus! {

} // verus!
