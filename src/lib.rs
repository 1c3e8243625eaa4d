//! Color gradients sampled from color stops, and random colors.

pub mod color;
pub mod error;
pub mod gradient;
pub mod text;

pub use color::{hex_code, parse_hex_color, random_color, Rgb8};
pub use error::ColorGenerationError;
pub use gradient::{explicit_gradient, generate, random_gradient, sample_gradient, ColorStop, GradientOptions};

use vstd::prelude::*;

verus! {

/// The command line: the command to run.
pub struct Cli {
    pub command: Commands,
}

/// The commands of the program.
pub enum Commands {
    /// Generate a gradient, from given colors and stops or from three random colors.
    Gradient(GradientOptions),
    /// Generate a random color.
    Random,
}

} // verus!
