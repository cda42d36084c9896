//! The options that a command line can hold.

use crate::single::Single;
use crate::terminal::ColorMode;
use vstd::prelude::*;

verus! {

/// Subcommands.
#[derive(Debug, Clone)]
pub enum Command {
    /// Print the detected media kind and basic details for a file, without rendering it.
    Info {
        /// File to inspect, or `-` for standard input.
        file: String,
        /// Emit the report as machine-readable JSON instead of aligned text.
        json: bool,
    },
}

/// Rendering options shared between the command line and the config file.
///
/// An unset option means "fall back to the config file value (or its default)".
#[derive(Debug, Clone)]
pub struct RenderOpts {
    /// Terminal encoder to use.
    pub renderer: Option<Renderer>,
    /// Target render width in terminal columns. Defaults to the current terminal width.
    pub width: Option<u32>,
    /// Target frames per second for animated sources.
    pub fps: Option<u32>,
    /// Draw 3D meshes as wireframe instead of shaded surfaces.
    pub wireframe: bool,
    /// Shading mode for 3D meshes.
    pub shading: Option<Shading>,
    /// Simplify a heavy 3D mesh on load: a ratio of the original triangle count (up to one) or an
    /// absolute target triangle count (above one).
    pub simplify: Option<Single>,
    /// Never simplify 3D meshes.
    pub no_simplify: bool,
    /// Enable color output (default is monochrome).
    pub color: bool,
    /// The color fidelity to start with.
    pub color_mode: Option<ColorMode>,
    /// Dithering algorithm applied before a 1-bit (Braille) encoder thresholds the image.
    pub dither: Option<DitherMode>,
    /// Gamma exponent applied to luminance before encoding.
    pub gamma: Option<Single>,
    /// Contrast multiplier about mid-grey applied before encoding.
    pub contrast: Option<Single>,
    /// Write the encoded output to a file instead of the live terminal.
    pub output: Option<String>,
    /// Print the image inline like `cat` instead of opening the full-screen preview.
    pub cat: bool,
    /// Read a raw frame stream from standard input and render it continuously.
    pub stream: bool,
}

impl Default for RenderOpts {
    fn default() -> (o: RenderOpts)
        ensures
            o.renderer is None,
            o.width is None,
            o.fps is None,
            !o.wireframe,
            o.shading is None,
            o.simplify is None,
            !o.no_simplify,
            !o.color,
            o.color_mode is None,
            o.dither is None,
            o.gamma is None,
            o.contrast is None,
            o.output is None,
            !o.cat,
            !o.stream,
    {
        RenderOpts {
            renderer: None,
            width: None,
            fps: None,
            wireframe: false,
            shading: None,
            simplify: None,
            no_simplify: false,
            color: false,
            color_mode: None,
            dither: None,
            gamma: None,
            contrast: None,
            output: None,
            cat: false,
            stream: false,
        }
    }
}

/// Dithering algorithm selection for the image-quality stage.
#[derive(Debug, Clone, Copy, PartialEq, Eq, Structural)]
pub enum DitherMode {
    /// Pick a sensible default for the chosen renderer (Floyd–Steinberg for Braille, none else).
    Auto,
    /// No dithering.
    Off,
    /// Threshold each pixel's luma with no error diffusion.
    Threshold,
    /// Floyd–Steinberg error diffusion.
    Floyd,
    /// Atkinson error diffusion.
    Atkinson,
    /// Ordered (4×4 Bayer) dithering.
    Bayer,
}

/// Terminal encoder selection.
#[derive(Debug, Clone, Copy, PartialEq, Eq, Structural)]
pub enum Renderer {
    /// Braille dots: 2×4 subpixels per cell, highest spatial resolution.
    Braille,
    /// ASCII density ramp: one glyph per cell.
    Ascii,
    /// Unicode half/quadrant blocks with color.
    Blocks,
    /// Choose an encoder automatically based on the media and terminal.
    Auto,
}

/// Shading mode for the 3D pipeline.
#[derive(Debug, Clone, Copy, PartialEq, Eq, Structural)]
pub enum Shading {
    /// Constant color, no lighting.
    Unlit,
    /// Per-face flat lighting.
    Flat,
    /// Per-vertex smooth (Gouraud) lighting.
    Smooth,
    /// Visualize surface normals as color.
    Normals,
    /// Visualize depth as grayscale.
    Depth,
}

/// What a command line asks for.
#[derive(Debug, Clone)]
pub enum Action {
    /// Describe a file.
    Info {
        /// The file.
        file: String,
        /// Whether as JSON.
        json: bool,
    },
    /// Render a file.
    Render(String),
    /// Render a stream of frames from standard input.
    Stream,
    /// Say how the program is used.
    Usage,
}

/// Decides what a command line asks for: a subcommand outweighs a stream, and a stream a file; with
/// nothing given, how the program is used.
pub fn plan(command: Option<Command>, file: Option<String>, stream: bool) -> (a: Action)
    ensures
        match command {
            Some(Command::Info { file: f, json }) => a == (Action::Info { file: f, json }),
            None => if stream {
                a == Action::Stream
            } else {
                match file {
                    Some(f) => a == Action::Render(f),
                    None => a == Action::Usage,
                }
            },
        },
{
    match command {
        Some(Command::Info { file, json }) => Action::Info { file, json },
        None => {
            if stream {
                return Action::Stream;
            }
            match file {
                Some(f) => Action::Render(f),
                None => Action::Usage,
            }
        },
    }
}

} // verus!
