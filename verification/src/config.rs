//! Configuration: defaults, the config file, and command-line overrides.
//!
//! Precedence is strictly defaults, then config file, then flags.

use crate::cli::{DitherMode, RenderOpts, Renderer, Shading};
use crate::single::Single;
use crate::terminal::ColorMode;
use vstd::prelude::*;
use vstd::string::*;

verus! {

/// The on-disk configuration file.
#[derive(Debug, Clone, Copy, PartialEq, Eq, Structural)]
pub struct Config {
    /// Default terminal encoder.
    pub renderer: Renderer,
    /// Default render width in columns; `None` means "use the terminal width".
    pub width: Option<u32>,
    /// Default target FPS for animated sources.
    pub fps: u32,
    /// Whether color output is enabled by default.
    pub color: bool,
    /// 3D-specific defaults.
    pub three_d: ThreeDConfig,
    /// Video-specific defaults.
    pub video: VideoConfig,
    /// Still-image defaults (tone + dithering).
    pub image: ImageConfig,
}

impl Config {
    /// The configuration without a file.
    pub open spec fn spec_default() -> Config {
        Config {
            renderer: Renderer::Auto,
            width: None,
            fps: 30,
            color: false,
            three_d: ThreeDConfig::spec_default(),
            video: VideoConfig { loop_playback: false, max_fps: 0 },
            image: ImageConfig::spec_default(),
        }
    }
}

impl Default for Config {
    fn default() -> (c: Config)
        ensures
            c == Config::spec_default(),
    {
        Config {
            renderer: Renderer::Auto,
            width: None,
            fps: 30,
            color: false,
            three_d: ThreeDConfig::default(),
            video: VideoConfig::default(),
            image: ImageConfig::default(),
        }
    }
}

/// Image-quality defaults applied by the still-image viewer.
#[derive(Debug, Clone, Copy, PartialEq, Eq, Structural)]
pub struct ImageConfig {
    /// Default dithering algorithm.
    pub dither: DitherMode,
    /// Default gamma exponent applied to luminance.
    pub gamma: Single,
    /// Default contrast multiplier about mid-grey.
    pub contrast: Single,
    /// Luma threshold used by the 1-bit dithering path.
    pub threshold: Single,
}

impl ImageConfig {
    /// The image configuration without a file.
    pub open spec fn spec_default() -> ImageConfig {
        ImageConfig {
            dither: DitherMode::Auto,
            gamma: Single::one(),
            contrast: Single::one(),
            threshold: Single::half(),
        }
    }
}

impl Default for ImageConfig {
    fn default() -> (c: ImageConfig)
        ensures
            c == ImageConfig::spec_default(),
    {
        ImageConfig {
            dither: DitherMode::Auto,
            gamma: Single::one(),
            contrast: Single::one(),
            threshold: Single::half(),
        }
    }
}

/// 3D defaults.
#[derive(Debug, Clone, Copy, PartialEq, Eq, Structural)]
pub struct ThreeDConfig {
    /// Default shading mode.
    pub shading: Shading,
    /// Whether meshes render as wireframe by default.
    pub wireframe: bool,
    /// Vertical field of view in degrees.
    pub fov_degrees: Single,
    /// Whether heavy meshes are automatically simplified on load.
    pub auto_simplify: bool,
    /// Triangle budget that triggers (and becomes the target of) automatic simplification.
    pub simplify_budget: usize,
}

/// The default triangle budget above which meshes are auto-simplified on load.
pub const DEFAULT_SIMPLIFY_BUDGET: usize = 150_000;

impl ThreeDConfig {
    /// The 3D configuration without a file: the field of view is 45 degrees.
    pub open spec fn spec_default() -> ThreeDConfig {
        ThreeDConfig {
            shading: Shading::Flat,
            wireframe: false,
            fov_degrees: Single { bits: 0x4234_0000 },
            auto_simplify: true,
            simplify_budget: DEFAULT_SIMPLIFY_BUDGET,
        }
    }
}

impl Default for ThreeDConfig {
    fn default() -> (c: ThreeDConfig)
        ensures
            c == ThreeDConfig::spec_default(),
    {
        ThreeDConfig {
            shading: Shading::Flat,
            wireframe: false,
            fov_degrees: Single { bits: 0x4234_0000 },
            auto_simplify: true,
            simplify_budget: DEFAULT_SIMPLIFY_BUDGET,
        }
    }
}

/// Video defaults.
#[derive(Debug, Clone, Copy, PartialEq, Eq, Structural)]
pub struct VideoConfig {
    /// Loop playback when the video ends.
    pub loop_playback: bool,
    /// Cap decode FPS (0 = follow the source's native rate).
    pub max_fps: u32,
}

impl Default for VideoConfig {
    fn default() -> (c: VideoConfig)
        ensures
            c == (VideoConfig { loop_playback: false, max_fps: 0 }),
    {
        VideoConfig { loop_playback: false, max_fps: 0 }
    }
}

/// The parts of the path of the config file, to be joined in order: below `XDG_CONFIG_HOME` where
/// that is set and not empty, else below `.config` in `HOME`, else nowhere.
pub fn config_path(xdg: Option<String>, home: Option<String>) -> (parts: Option<Vec<String>>)
    ensures
        match path_root(xdg, home) {
            None => parts is None,
            Some((root, in_home)) => {
                &&& parts is Some
                &&& parts->0@[0]@ == root
                &&& if in_home {
                    &&& parts->0@.len() == 4
                    &&& parts->0@[1]@ == ".config"@
                    &&& parts->0@[2]@ == "rgfx"@
                    &&& parts->0@[3]@ == "config.toml"@
                } else {
                    &&& parts->0@.len() == 3
                    &&& parts->0@[1]@ == "rgfx"@
                    &&& parts->0@[2]@ == "config.toml"@
                }
            },
        },
{
    let mut parts: Vec<String> = Vec::new();
    if let Some(root) = xdg {
        if root.as_str().unicode_len() > 0 {
            parts.push(root);
            parts.push("rgfx".to_owned());
            parts.push("config.toml".to_owned());
            return Some(parts);
        }
    }
    if let Some(root) = home {
        if root.as_str().unicode_len() > 0 {
            parts.push(root);
            parts.push(".config".to_owned());
            parts.push("rgfx".to_owned());
            parts.push("config.toml".to_owned());
            return Some(parts);
        }
    }
    None
}

/// The directory under which the config file lies, and whether that is the home directory.
pub open spec fn path_root(xdg: Option<String>, home: Option<String>) -> Option<(Seq<char>, bool)> {
    if xdg is Some && xdg->0@.len() > 0 {
        Some((xdg->0@, false))
    } else if home is Some && home->0@.len() > 0 {
        Some((home->0@, true))
    } else {
        None
    }
}

/// The effective, fully-resolved settings after merging defaults, file, and flags.
#[derive(Debug, Clone)]
pub struct Settings {
    /// Effective terminal encoder.
    pub renderer: Renderer,
    /// Effective render width in columns; `None` = follow the terminal.
    pub width: Option<u32>,
    /// Effective target FPS.
    pub fps: u32,
    /// Effective color-output flag.
    pub color: bool,
    /// Requested color fidelity; `None` means "the richest the terminal supports".
    pub color_mode: Option<ColorMode>,
    /// Effective 3D shading mode.
    pub shading: Shading,
    /// Effective wireframe flag.
    pub wireframe: bool,
    /// Effective vertical field of view in degrees.
    pub fov_degrees: Single,
    /// Loop video playback.
    pub loop_playback: bool,
    /// Effective dithering algorithm for the still-image viewer.
    pub dither: DitherMode,
    /// Effective gamma exponent applied to luminance.
    pub gamma: Single,
    /// Effective contrast multiplier about mid-grey.
    pub contrast: Single,
    /// Effective luma threshold used by the 1-bit dithering path.
    pub threshold: Single,
    /// Optional output-file sink instead of the live terminal.
    pub output: Option<String>,
    /// Print still images inline like `cat` instead of the full-screen preview.
    pub cat: bool,
    /// Explicit mesh-simplification request; `None` means "no explicit request" (automatic
    /// simplification may still apply).
    pub simplify: Option<Single>,
    /// Whether automatic simplification of heavy meshes is enabled.
    pub auto_simplify: bool,
    /// Triangle budget that triggers and targets automatic simplification.
    pub simplify_budget: usize,
}

/// The flag where it was given, else the value from the file.
pub open spec fn over<T>(flag: Option<T>, file: T) -> T {
    match flag {
        Some(v) => v,
        None => file,
    }
}

/// Whether `s` are the settings that a config file and command-line options come to.
pub open spec fn resolves(config: Config, opts: RenderOpts, s: Settings) -> bool {
    &&& s.renderer == over(opts.renderer, config.renderer)
    &&& s.width == (if opts.width is Some {
        opts.width
    } else {
        config.width
    })
    &&& s.fps == over(opts.fps, config.fps)
    &&& s.color == (opts.color || config.color)
    &&& s.color_mode == opts.color_mode
    &&& s.shading == over(opts.shading, config.three_d.shading)
    &&& s.wireframe == (opts.wireframe || config.three_d.wireframe)
    &&& s.fov_degrees == config.three_d.fov_degrees
    &&& s.loop_playback == config.video.loop_playback
    &&& s.dither == over(opts.dither, config.image.dither)
    &&& s.gamma == over(opts.gamma, config.image.gamma)
    &&& s.contrast == over(opts.contrast, config.image.contrast)
    &&& s.threshold == config.image.threshold
    &&& s.output is Some <==> opts.output is Some
    &&& s.output is Some ==> s.output->0@ == opts.output->0@
    &&& s.cat == opts.cat
    &&& s.simplify == (if opts.no_simplify {
        None
    } else {
        opts.simplify
    })
    &&& s.auto_simplify == (config.three_d.auto_simplify && !opts.no_simplify)
    &&& s.simplify_budget == config.three_d.simplify_budget
}

impl Settings {
    /// Folds a config file and command-line options into the effective settings.
    ///
    /// A flag overrides the config only when the user actually supplied it: optional flags override
    /// when set, and the boolean flags override only when present: they cannot switch a config
    /// `true` back to `false`.
    pub fn resolve(config: &Config, opts: &RenderOpts) -> (s: Settings)
        ensures
            resolves(*config, *opts, s),
    {
        let output: Option<String> = match &opts.output {
            Some(path) => Some(path.clone()),
            None => None,
        };
        Settings {
            renderer: opts.renderer.unwrap_or(config.renderer),
            width: match opts.width {
                Some(w) => Some(w),
                None => config.width,
            },
            fps: opts.fps.unwrap_or(config.fps),
            color: opts.color || config.color,
            color_mode: opts.color_mode,
            shading: opts.shading.unwrap_or(config.three_d.shading),
            wireframe: opts.wireframe || config.three_d.wireframe,
            fov_degrees: config.three_d.fov_degrees,
            loop_playback: config.video.loop_playback,
            dither: opts.dither.unwrap_or(config.image.dither),
            gamma: opts.gamma.unwrap_or(config.image.gamma),
            contrast: opts.contrast.unwrap_or(config.image.contrast),
            threshold: config.image.threshold,
            output,
            cat: opts.cat,
            // Asking for no simplification overrides an explicit request for one too.
            simplify: if opts.no_simplify {
                None
            } else {
                opts.simplify
            },
            auto_simplify: config.three_d.auto_simplify && !opts.no_simplify,
            simplify_budget: config.three_d.simplify_budget,
        }
    }
}

/// A flag that was given decides alone: settings under two different config files agree in all that
/// the flags say.
pub proof fn law_flags_outweigh_the_file(
    config: Config,
    other: Config,
    opts: RenderOpts,
    s: Settings,
    t: Settings,
)
    requires
        resolves(config, opts, s),
        resolves(other, opts, t),
    ensures
        opts.renderer is Some ==> s.renderer == t.renderer && s.renderer == opts.renderer->0,
        opts.width is Some ==> s.width == t.width && s.width == opts.width,
        opts.fps is Some ==> s.fps == t.fps && s.fps == opts.fps->0,
        opts.color ==> s.color && t.color,
        s.color_mode == t.color_mode && s.color_mode == opts.color_mode,
        opts.shading is Some ==> s.shading == t.shading && s.shading == opts.shading->0,
        opts.wireframe ==> s.wireframe && t.wireframe,
        opts.dither is Some ==> s.dither == t.dither && s.dither == opts.dither->0,
        opts.gamma is Some ==> s.gamma == t.gamma && s.gamma == opts.gamma->0,
        opts.contrast is Some ==> s.contrast == t.contrast && s.contrast == opts.contrast->0,
        s.output is Some <==> t.output is Some,
        s.output is Some ==> s.output->0@ == t.output->0@ && s.output->0@ == opts.output->0@,
        s.cat == t.cat && s.cat == opts.cat,
        opts.no_simplify ==> s.simplify is None && !s.auto_simplify && t.simplify is None
            && !t.auto_simplify,
        s.simplify == t.simplify,
        !opts.no_simplify ==> s.simplify == opts.simplify,
{
}

/// What no flag speaks of is as the config file has it.
pub proof fn law_file_decides_the_rest(config: Config, opts: RenderOpts, s: Settings)
    requires
        resolves(config, opts, s),
    ensures
        opts.renderer is None ==> s.renderer == config.renderer,
        opts.width is None ==> s.width == config.width,
        opts.fps is None ==> s.fps == config.fps,
        !opts.color ==> s.color == config.color,
        opts.shading is None ==> s.shading == config.three_d.shading,
        !opts.wireframe ==> s.wireframe == config.three_d.wireframe,
        opts.dither is None ==> s.dither == config.image.dither,
        opts.gamma is None ==> s.gamma == config.image.gamma,
        opts.contrast is None ==> s.contrast == config.image.contrast,
        !opts.no_simplify ==> s.auto_simplify == config.three_d.auto_simplify,
        s.fov_degrees == config.three_d.fov_degrees,
        s.loop_playback == config.video.loop_playback,
        s.threshold == config.image.threshold,
        s.simplify_budget == config.three_d.simplify_budget,
{
}

} // verus!
