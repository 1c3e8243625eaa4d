//! What can go wrong when a gradient is generated.

use vstd::prelude::*;

verus! {

#[verifier::external_type_specification]
#[verifier::external_body]
pub struct ExIoError(std::io::Error);

/// The ways in which generating a gradient fails.
#[derive(Debug)]
pub enum ColorGenerationError {
    /// Writing the output failed.
    IoError(std::io::Error),
    /// Some colors were given, but not as many stop positions. `input` lists the
    /// colors, the step count and the stops, one per line; `color_src` and
    /// `stops_src` are the byte offset and length of the first and last line in
    /// it; `advice` names both counts.
    ColorsAndStepsMustMatch {
        input: String,
        advice: String,
        color_src: (usize, usize),
        stops_src: (usize, usize),
    },
    /// A color is not an optional `#` followed by three or six hex digits.
    InvalidColorFormat {
        color: String,
    },
}

} // verus!
