//! The still-image viewer: its encoder and dithering choices, its color menu, and its key handling.
//!
//! Color is wired into the full-screen preview through a modal color menu (`C`). The chosen mode
//! flows into both the encoder and the frame engine; color off is the grayscale path.

use crate::cli::{DitherMode, Renderer};
use crate::config::Settings;
use crate::preprocess::{BayerSize, Dither, Preprocess, Tone};
use crate::render::RenderOptions;
use crate::single::Single;
use crate::terminal::{is_quit, quits, ColorMode, Event, KeyCode, KeyEvent};
use crate::terminal_frame::{Grid, TerminalFrame};
use crate::text::{decimal, push_decimal};
use crate::viewer_chrome::{
    barred, lemma_line_tells, one_tells, overlay_bottom_bar, overlay_panel, paneled, widest,
};
use crate::viewport::Viewport;
use vstd::prelude::*;
use vstd::string::*;

verus! {

/// The place of a color fidelity in the order off, 16, 256, true color.
pub open spec fn color_rank(mode: ColorMode) -> int {
    match mode {
        ColorMode::Off => 0,
        ColorMode::Ansi16 => 1,
        ColorMode::Ansi256 => 2,
        ColorMode::TrueColor => 3,
    }
}

fn rank_of(mode: ColorMode) -> (r: u8)
    ensures
        r == color_rank(mode),
{
    match mode {
        ColorMode::Off => 0,
        ColorMode::Ansi16 => 1,
        ColorMode::Ansi256 => 2,
        ColorMode::TrueColor => 3,
    }
}

/// The lesser of two color fidelities.
pub open spec fn clamped_mode(requested: ColorMode, detected: ColorMode) -> ColorMode {
    if color_rank(requested) <= color_rank(detected) {
        requested
    } else {
        detected
    }
}

/// Clamps `requested` down to `detected` when it asks for more fidelity than the terminal supports,
/// so a truecolor request on a 16-color terminal degrades rather than emitting escapes the terminal
/// cannot render.
pub fn clamp_mode(requested: ColorMode, detected: ColorMode) -> (m: ColorMode)
    ensures
        m == clamped_mode(requested, detected),
        color_rank(m) <= color_rank(detected),
{
    if rank_of(requested) <= rank_of(detected) {
        requested
    } else {
        detected
    }
}

/// The label of a color fidelity.
pub open spec fn mode_text(mode: ColorMode) -> Seq<char> {
    match mode {
        ColorMode::Off => "off"@,
        ColorMode::Ansi16 => "16"@,
        ColorMode::Ansi256 => "256"@,
        ColorMode::TrueColor => "true"@,
    }
}

/// A short label for a color fidelity, for the status bar and menu.
pub fn color_mode_name(mode: ColorMode) -> (s: &'static str)
    ensures
        s@ == mode_text(mode),
{
    match mode {
        ColorMode::Off => "off",
        ColorMode::Ansi16 => "16",
        ColorMode::Ansi256 => "256",
        ColorMode::TrueColor => "true",
    }
}

/// The concrete encoder selected from the [`Renderer`] setting.
#[derive(Clone, Copy, Debug, PartialEq, Eq, Structural)]
pub enum ResolvedRenderer {
    /// Braille dots.
    Braille,
    /// An ASCII density ramp.
    Ascii,
    /// Half-blocks.
    Blocks,
}

impl ResolvedRenderer {
    /// The encoder for that setting.
    pub open spec fn of(renderer: Renderer, color: bool) -> ResolvedRenderer {
        match renderer {
            Renderer::Braille => ResolvedRenderer::Braille,
            Renderer::Ascii => ResolvedRenderer::Ascii,
            Renderer::Blocks => ResolvedRenderer::Blocks,
            Renderer::Auto => if color {
                ResolvedRenderer::Blocks
            } else {
                ResolvedRenderer::Braille
            },
        }
    }

    /// Resolves `auto` to a concrete encoder: half-blocks when color is requested, otherwise the
    /// higher-resolution Braille encoder.
    pub fn resolve(renderer: Renderer, color: bool) -> (r: ResolvedRenderer)
        ensures
            r == ResolvedRenderer::of(renderer, color),
    {
        match renderer {
            Renderer::Braille => ResolvedRenderer::Braille,
            Renderer::Ascii => ResolvedRenderer::Ascii,
            Renderer::Blocks => ResolvedRenderer::Blocks,
            Renderer::Auto => {
                if color {
                    ResolvedRenderer::Blocks
                } else {
                    ResolvedRenderer::Braille
                }
            },
        }
    }

    /// The base render options for this encoder.
    pub open spec fn options(self) -> RenderOptions {
        match self {
            ResolvedRenderer::Braille => RenderOptions::for_subpixels(2, 4),
            ResolvedRenderer::Ascii => RenderOptions::for_subpixels(1, 1),
            ResolvedRenderer::Blocks => RenderOptions::for_subpixels(1, 2),
        }
    }

    /// The base render options (subpixel factors, cell aspect, resize filter) for this encoder.
    pub fn render_options(self) -> (o: RenderOptions)
        ensures
            o == self.options(),
    {
        match self {
            ResolvedRenderer::Braille => RenderOptions::braille(),
            ResolvedRenderer::Ascii => RenderOptions::ascii(),
            ResolvedRenderer::Blocks => RenderOptions::half_blocks(),
        }
    }

    /// The name of this encoder.
    pub open spec fn spec_name(self) -> Seq<char> {
        match self {
            ResolvedRenderer::Braille => "braille"@,
            ResolvedRenderer::Ascii => "ascii"@,
            ResolvedRenderer::Blocks => "blocks"@,
        }
    }

    /// The name of this encoder.
    pub fn name(self) -> (s: &'static str)
        ensures
            s@ == self.spec_name(),
    {
        match self {
            ResolvedRenderer::Braille => "braille",
            ResolvedRenderer::Ascii => "ascii",
            ResolvedRenderer::Blocks => "blocks",
        }
    }
}

/// The dithering for that mode with that encoder.
pub open spec fn dither_for(mode: DitherMode, resolved: ResolvedRenderer) -> Dither {
    match mode {
        DitherMode::Auto => if resolved == ResolvedRenderer::Braille {
            Dither::FloydSteinberg
        } else {
            Dither::Off
        },
        DitherMode::Off => Dither::Off,
        DitherMode::Threshold => Dither::ThresholdOnly,
        DitherMode::Floyd => Dither::FloydSteinberg,
        DitherMode::Atkinson => Dither::Atkinson,
        DitherMode::Bayer => Dither::Bayer(BayerSize::Four),
    }
}

/// Maps the [`DitherMode`] onto a [`Dither`], resolving `auto` per renderer.
///
/// Dithering only helps the 1-bit Braille path; for the grayscale ramp encoders (ASCII / blocks)
/// `auto` means "no dithering" so their tonal ramp is preserved. An explicit choice is always
/// honoured.
pub fn resolve_dither(mode: DitherMode, resolved: ResolvedRenderer) -> (d: Dither)
    ensures
        d == dither_for(mode, resolved),
{
    match mode {
        DitherMode::Auto => match resolved {
            ResolvedRenderer::Braille => Dither::FloydSteinberg,
            ResolvedRenderer::Ascii | ResolvedRenderer::Blocks => Dither::Off,
        },
        DitherMode::Off => Dither::Off,
        DitherMode::Threshold => Dither::ThresholdOnly,
        DitherMode::Floyd => Dither::FloydSteinberg,
        DitherMode::Atkinson => Dither::Atkinson,
        DitherMode::Bayer => Dither::Bayer(BayerSize::Four),
    }
}

/// The image-quality stage with these values.
pub open spec fn quality(
    gamma: Single,
    contrast: Single,
    threshold: Single,
    dither: Dither,
) -> Preprocess {
    Preprocess {
        tone: Tone { gamma, contrast, brightness: Single::zero(), sharpen: None },
        dither,
        threshold,
    }
}

/// Builds the image-quality stage (tone + dithering) from the resolved settings.
pub fn build_preprocess(settings: &Settings, resolved: ResolvedRenderer) -> (p: Preprocess)
    ensures
        p == quality(
            settings.gamma,
            settings.contrast,
            settings.threshold,
            dither_for(settings.dither, resolved),
        ),
{
    Preprocess {
        tone: Tone {
            gamma: settings.gamma,
            contrast: settings.contrast,
            brightness: Single::zero(),
            sharpen: None,
        },
        dither: resolve_dither(settings.dither, resolved),
        threshold: settings.threshold,
    }
}

/// The encoder and render options (with the quality stage) for these settings.
pub fn render_options(settings: &Settings) -> (r: (ResolvedRenderer, RenderOptions))
    ensures
        r.0 == ResolvedRenderer::of(settings.renderer, settings.color),
        r.1 == (RenderOptions {
            preprocess: quality(
                settings.gamma,
                settings.contrast,
                settings.threshold,
                dither_for(settings.dither, r.0),
            ),
            ..r.0.options()
        }),
{
    let resolved = ResolvedRenderer::resolve(settings.renderer, settings.color);
    let mut opts = resolved.render_options();
    opts.preprocess = build_preprocess(settings, resolved);
    (resolved, opts)
}

/// `n` within the range of a terminal's columns.
pub open spec fn columns(n: u32) -> u16 {
    if n < 1 {
        1
    } else if n > 0xffff {
        0xffff
    } else {
        n as u16
    }
}

/// `n` within the range of a terminal's columns.
pub fn clamp_columns(n: u32) -> (c: u16)
    ensures
        c == columns(n),
{
    if n < 1 {
        1
    } else if n > 0xffff {
        0xffff
    } else {
        n as u16
    }
}

/// `n`, or one for none.
pub open spec fn at_least_one(n: u16) -> u16 {
    if n == 0 {
        1
    } else {
        n
    }
}

fn nonzero(n: u16) -> (r: u16)
    ensures
        r == at_least_one(n),
{
    if n == 0 {
        1
    } else {
        n
    }
}

/// What the size of a rendered image follows.
#[derive(Clone, Copy, Debug, PartialEq, Eq, Structural)]
pub enum SizeRule {
    /// As many columns; the rows follow the image.
    Width(u16),
    /// As large as fits in there.
    Fit(Viewport),
}

/// Chooses what the size of a rendered image follows: a width that was asked for, else the bounds to
/// fit within, else the width of the terminal.
pub fn size_rule(width: Option<u32>, bounds: Option<Viewport>, terminal_cols: u16) -> (r: SizeRule)
    ensures
        r == (match width {
            Some(w) => SizeRule::Width(columns(w)),
            None => match bounds {
                Some(b) => SizeRule::Fit(b),
                None => SizeRule::Width(at_least_one(terminal_cols)),
            },
        }),
{
    match width {
        Some(w) => SizeRule::Width(clamp_columns(w)),
        None => match bounds {
            Some(b) => SizeRule::Fit(b),
            None => SizeRule::Width(nonzero(terminal_cols)),
        },
    }
}

/// The largest viewport within `bounds` that takes so many rows at the full width, and so many columns
/// at the full height.
pub open spec fn fitting(bounds: Viewport, rows_for_width: u16, cols_for_height: u16) -> Viewport {
    if rows_for_width <= at_least_one(bounds.rows) {
        Viewport { cols: at_least_one(bounds.cols), rows: rows_for_width }
    } else {
        Viewport { cols: cols_for_height, rows: at_least_one(bounds.rows) }
    }
}

/// The largest render viewport that fits within `bounds`: the full width with `rows_for_width` rows,
/// or, where those are too many, the full height with `cols_for_height` columns.
pub fn fit_within(bounds: Viewport, rows_for_width: u16, cols_for_height: u16) -> (v: Viewport)
    requires
        1 <= rows_for_width,
        1 <= cols_for_height <= at_least_one(bounds.cols),
    ensures
        v == fitting(bounds, rows_for_width, cols_for_height),
        1 <= v.cols <= at_least_one(bounds.cols),
        1 <= v.rows <= at_least_one(bounds.rows),
{
    let max_cols: u16 = nonzero(bounds.cols);
    let max_rows: u16 = nonzero(bounds.rows);
    if rows_for_width <= max_rows {
        Viewport { cols: max_cols, rows: rows_for_width }
    } else {
        Viewport { cols: cols_for_height, rows: max_rows }
    }
}

/// The fit-bounds for inline rendering: the terminal minus one row of headroom.
///
/// Reserving a row means that after the image is printed, the shell prompt lands on the spare line
/// instead of forcing the terminal to scroll. Never returns a zero dimension.
pub fn inline_bounds(term: Viewport) -> (v: Viewport)
    ensures
        v.cols == at_least_one(term.cols),
        v.rows == (if term.rows <= 2 {
            1
        } else {
            term.rows - 1
        }),
{
    let rows: u16 = if term.rows <= 2 {
        1
    } else {
        term.rows - 1
    };
    Viewport { cols: nonzero(term.cols), rows }
}

/// How a still image is shown.
#[derive(Clone, Copy, Debug, PartialEq, Eq, Structural)]
pub enum Presentation {
    /// Written to a file.
    File,
    /// Printed inline.
    Inline,
    /// In the full-screen preview.
    FullScreen,
}

/// Chooses how a still image is shown: a file outweighs inline, and full-screen is the default.
pub fn presentation(settings: &Settings) -> (p: Presentation)
    ensures
        p == (if settings.output is Some {
            Presentation::File
        } else if settings.cat {
            Presentation::Inline
        } else {
            Presentation::FullScreen
        }),
{
    if settings.output.is_some() {
        Presentation::File
    } else if settings.cat {
        Presentation::Inline
    } else {
        Presentation::FullScreen
    }
}

/// What a key press means to the full-screen image preview loop.
#[derive(Clone, Copy, Debug, PartialEq, Eq, Structural)]
pub enum ImageAction {
    /// Leave the preview.
    Quit,
    /// Show the image anew.
    Redraw,
    /// Nothing changed.
    Ignore,
}

/// A change of contrast that a key asks for; the new value is computed from the old one.
#[derive(Clone, Copy, Debug, PartialEq, Eq, Structural)]
pub enum ContrastChange {
    /// One step up.
    Raise,
    /// One step down.
    Lower,
}

/// The viewer-side color model driven by the modal color menu: whether color is on, the requested
/// fidelity, and the terminal's detected capability (the ceiling requests are clamped to).
#[derive(Clone, Copy, Debug, PartialEq, Eq, Structural)]
pub struct ColorState {
    /// Whether color output is enabled.
    pub on: bool,
    /// The requested fidelity; the effective mode is this clamped to the detected one.
    pub mode: ColorMode,
    /// The terminal's detected color capability.
    pub detected: ColorMode,
    /// Whether the modal color menu is open (captures input while true).
    pub menu_open: bool,
}

impl ColorState {
    /// The color model with that seed.
    pub open spec fn seeded(on: bool, requested: ColorMode, detected: ColorMode) -> ColorState {
        ColorState { on, mode: clamped_mode(requested, detected), detected, menu_open: false }
    }

    /// The requested fidelity clamped to the terminal capability.
    pub open spec fn shown_mode(self) -> ColorMode {
        clamped_mode(self.mode, self.detected)
    }

    /// The mode in effect: the clamped fidelity when color is on.
    pub open spec fn in_effect(self) -> ColorMode {
        if self.on {
            self.shown_mode()
        } else {
            ColorMode::Off
        }
    }

    /// The color model with the next fidelity.
    pub open spec fn cycled(self) -> ColorState {
        let next = match self.shown_mode() {
            ColorMode::Off => ColorMode::Ansi16,
            ColorMode::Ansi16 => ColorMode::Ansi256,
            ColorMode::Ansi256 => ColorMode::TrueColor,
            ColorMode::TrueColor => ColorMode::Ansi16,
        };
        ColorState { mode: clamped_mode(next, self.detected), ..self }
    }

    /// The color model with its defaults: on, with the richest fidelity that was detected.
    pub open spec fn defaulted(self) -> ColorState {
        ColorState { on: true, mode: self.detected, ..self }
    }

    /// Builds the color state from the seed on/off flag and requested fidelity, clamping the
    /// requested mode to `detected`.
    pub fn new(on: bool, requested: ColorMode, detected: ColorMode) -> (c: ColorState)
        ensures
            c == ColorState::seeded(on, requested, detected),
    {
        ColorState { on, mode: clamp_mode(requested, detected), detected, menu_open: false }
    }

    /// The requested fidelity clamped to the terminal capability (ignores the on/off flag).
    pub fn display_mode(&self) -> (m: ColorMode)
        ensures
            m == self.shown_mode(),
    {
        clamp_mode(self.mode, self.detected)
    }

    /// The effective mode to hand the encoder and the frame engine: the clamped fidelity when color
    /// is on, otherwise off.
    pub fn effective(&self) -> (m: ColorMode)
        ensures
            m == self.in_effect(),
    {
        if self.on {
            self.display_mode()
        } else {
            ColorMode::Off
        }
    }

    /// Cycles the requested fidelity 16, 256, true color, then clamps to the detected capability.
    pub fn cycle_mode(&mut self)
        ensures
            *final(self) == old(self).cycled(),
    {
        let next = match self.display_mode() {
            ColorMode::Off | ColorMode::TrueColor => ColorMode::Ansi16,
            ColorMode::Ansi16 => ColorMode::Ansi256,
            ColorMode::Ansi256 => ColorMode::TrueColor,
        };
        self.mode = clamp_mode(next, self.detected);
    }

    /// Resets color to defaults (on, max detected fidelity), keeping the menu as it was.
    pub fn reset(&mut self)
        ensures
            *final(self) == old(self).defaulted(),
    {
        let menu_open: bool = self.menu_open;
        *self = ColorState::new(true, self.detected, self.detected);
        self.menu_open = menu_open;
    }
}

/// Whatever is requested, the mode in effect never exceeds what the terminal was detected to
/// support, and color that is off is off.
pub proof fn law_mode_never_exceeds_the_terminal(c: ColorState)
    ensures
        color_rank(c.in_effect()) <= color_rank(c.detected),
        color_rank(c.cycled().in_effect()) <= color_rank(c.detected),
        !c.on ==> c.in_effect() == ColorMode::Off,
        c.defaulted().in_effect() == c.detected,
{
}

/// The interactive state of the full-screen image preview: the active encoder, dithering, and
/// toggles, plus the base tone carried over from the settings.
#[derive(Clone, Copy, Debug, PartialEq, Eq, Structural)]
pub struct ImageState {
    /// The active encoder.
    pub renderer: ResolvedRenderer,
    /// The dithering choice.
    pub dither: DitherMode,
    /// Whether light and dark are swapped.
    pub invert: bool,
    /// The color model.
    pub color: ColorState,
    /// The gamma exponent.
    pub gamma: Single,
    /// The contrast multiplier.
    pub contrast: Single,
    /// The luma threshold.
    pub threshold: Single,
    /// Whether the options bar is shown.
    pub show_ui: bool,
}

/// The encoder behind `r` in the order of the keys.
pub open spec fn next_renderer(r: ResolvedRenderer) -> ResolvedRenderer {
    match r {
        ResolvedRenderer::Braille => ResolvedRenderer::Ascii,
        ResolvedRenderer::Ascii => ResolvedRenderer::Blocks,
        ResolvedRenderer::Blocks => ResolvedRenderer::Braille,
    }
}

/// The dithering behind `d` in the order of the keys.
pub open spec fn next_dither(d: DitherMode) -> DitherMode {
    match d {
        DitherMode::Auto => DitherMode::Off,
        DitherMode::Off => DitherMode::Floyd,
        DitherMode::Floyd => DitherMode::Atkinson,
        DitherMode::Atkinson => DitherMode::Bayer,
        DitherMode::Bayer => DitherMode::Threshold,
        DitherMode::Threshold => DitherMode::Auto,
    }
}

/// Going through all encoders, or all kinds of dithering, leads back to the first.
pub proof fn law_choices_come_round(r: ResolvedRenderer, d: DitherMode)
    ensures
        next_renderer(next_renderer(next_renderer(r))) == r,
        next_dither(next_dither(next_dither(next_dither(next_dither(next_dither(d)))))) == d,
{
}

/// What a key does while the color menu is open, apart from closing it; `None` where it does nothing.
pub open spec fn menu_effect(s: ImageState, key: KeyEvent) -> Option<(
    ImageState,
    Option<ContrastChange>,
)> {
    if key.is_letter('o', 'O') || key.code == KeyCode::Char(' ') {
        Some((ImageState { color: ColorState { on: !s.color.on, ..s.color }, ..s }, None))
    } else if key.is_letter('m', 'M') {
        Some((ImageState { color: s.color.cycled(), ..s }, None))
    } else if key.is_letter('b', 'B') {
        Some((ImageState { renderer: ResolvedRenderer::Blocks, ..s }, None))
    } else if key.is_letter('+', '=') {
        Some((s, Some(ContrastChange::Raise)))
    } else if key.is_letter('-', '_') {
        Some((s, Some(ContrastChange::Lower)))
    } else if key.is_letter('r', 'R') {
        Some((ImageState { color: s.color.defaulted(), contrast: Single::one(), ..s }, None))
    } else {
        None
    }
}

/// What a key does: the state behind it, what the loop should do, and the change of contrast that
/// it asks for.
pub open spec fn key_effect(s: ImageState, key: KeyEvent) -> (
    ImageState,
    ImageAction,
    Option<ContrastChange>,
) {
    if key.is_interrupt() {
        (s, ImageAction::Quit, None)
    } else if s.color.menu_open {
        if key.code == KeyCode::Esc || key.is_letter('c', 'C') {
            (
                ImageState { color: ColorState { menu_open: false, ..s.color }, ..s },
                ImageAction::Redraw,
                None,
            )
        } else {
            match menu_effect(s, key) {
                Some((after, change)) => (after, ImageAction::Redraw, change),
                None => (s, ImageAction::Ignore, None),
            }
        }
    } else if quits(key) {
        (s, ImageAction::Quit, None)
    } else if key.is_letter('r', 'R') {
        (ImageState { renderer: next_renderer(s.renderer), ..s }, ImageAction::Redraw, None)
    } else if key.is_letter('d', 'D') {
        (ImageState { dither: next_dither(s.dither), ..s }, ImageAction::Redraw, None)
    } else if key.is_letter('i', 'I') {
        (ImageState { invert: !s.invert, ..s }, ImageAction::Redraw, None)
    } else if key.is_letter('c', 'C') {
        (
            ImageState { color: ColorState { menu_open: true, ..s.color }, ..s },
            ImageAction::Redraw,
            None,
        )
    } else if key.is_letter('f', 'F') {
        (ImageState { show_ui: !s.show_ui, ..s }, ImageAction::Redraw, None)
    } else {
        (s, ImageAction::Ignore, None)
    }
}

/// Control and C leaves the preview from anywhere; and while the color menu is open nothing else
/// does, nor is any image control but the encoder touched.
pub proof fn law_open_menu_captures_keys(s: ImageState, key: KeyEvent)
    ensures
        key.is_interrupt() ==> key_effect(s, key).1 == ImageAction::Quit,
        s.color.menu_open && !key.is_interrupt() ==> {
            let after = key_effect(s, key).0;
            &&& key_effect(s, key).1 != ImageAction::Quit
            &&& after.dither == s.dither
            &&& after.invert == s.invert
            &&& after.show_ui == s.show_ui
            &&& after.gamma == s.gamma
            &&& after.threshold == s.threshold
            &&& after.renderer == s.renderer || after.renderer == ResolvedRenderer::Blocks
        },
        !s.color.menu_open ==> {
            let after = key_effect(s, key).0;
            &&& after.color.on == s.color.on
            &&& after.color.mode == s.color.mode
            &&& after.contrast == s.contrast
        },
        key_effect(s, key).0.color.detected == s.color.detected,
{
}

impl ImageState {
    /// Starts from the settings; the requested fidelity is the one asked for, else the terminal's
    /// detected capability.
    pub fn from_settings(settings: &Settings, detected: ColorMode) -> (s: ImageState)
        ensures
            s == (ImageState {
                renderer: ResolvedRenderer::of(settings.renderer, settings.color),
                dither: settings.dither,
                invert: false,
                color: ColorState::seeded(
                    settings.color,
                    match settings.color_mode {
                        Some(m) => m,
                        None => detected,
                    },
                    detected,
                ),
                gamma: settings.gamma,
                contrast: settings.contrast,
                threshold: settings.threshold,
                show_ui: true,
            }),
    {
        let requested: ColorMode = settings.color_mode.unwrap_or(detected);
        ImageState {
            renderer: ResolvedRenderer::resolve(settings.renderer, settings.color),
            dither: settings.dither,
            invert: false,
            color: ColorState::new(settings.color, requested, detected),
            gamma: settings.gamma,
            contrast: settings.contrast,
            threshold: settings.threshold,
            show_ui: true,
        }
    }

    /// The mode both the encoder and the frame engine should use this frame.
    pub fn engine_mode(&self) -> (m: ColorMode)
        ensures
            m == self.color.in_effect(),
    {
        self.color.effective()
    }

    /// Moves on to the next encoder.
    pub fn cycle_renderer(&mut self)
        ensures
            *final(self) == (ImageState {
                renderer: next_renderer(old(self).renderer),
                ..*old(self)
            }),
    {
        self.renderer = match self.renderer {
            ResolvedRenderer::Braille => ResolvedRenderer::Ascii,
            ResolvedRenderer::Ascii => ResolvedRenderer::Blocks,
            ResolvedRenderer::Blocks => ResolvedRenderer::Braille,
        };
    }

    /// Moves on to the next kind of dithering.
    pub fn cycle_dither(&mut self)
        ensures
            *final(self) == (ImageState { dither: next_dither(old(self).dither), ..*old(self) }),
    {
        self.dither = match self.dither {
            DitherMode::Auto => DitherMode::Off,
            DitherMode::Off => DitherMode::Floyd,
            DitherMode::Floyd => DitherMode::Atkinson,
            DitherMode::Atkinson => DitherMode::Bayer,
            DitherMode::Bayer => DitherMode::Threshold,
            DitherMode::Threshold => DitherMode::Auto,
        };
    }

    /// Applies a key press, updating the toggles or color menu and reporting what the loop should
    /// do.
    ///
    /// The modal color menu takes priority: `C` opens/closes it, and while it is open the color keys
    /// drive the color model rather than the image controls (Ctrl+C still quits). While it is closed
    /// the usual `R`/`D`/`I`/`F` controls apply and `C` opens the menu.
    pub fn on_key(&mut self, key: KeyEvent) -> (r: (ImageAction, Option<ContrastChange>))
        ensures
            (*final(self), r.0, r.1) == key_effect(*old(self), key),
    {
        if key.interrupts() {
            return (ImageAction::Quit, None);
        }
        if self.color.menu_open {
            match key.code {
                KeyCode::Esc | KeyCode::Char('c') | KeyCode::Char('C') => {
                    self.color.menu_open = false;
                    return (ImageAction::Redraw, None);
                },
                _ => {},
            }
            return match self.on_color_menu_key(key) {
                Some(change) => (ImageAction::Redraw, change),
                None => (ImageAction::Ignore, None),
            };
        }
        if is_quit(key) {
            return (ImageAction::Quit, None);
        }
        match key.code {
            KeyCode::Char('r') | KeyCode::Char('R') => self.cycle_renderer(),
            KeyCode::Char('d') | KeyCode::Char('D') => self.cycle_dither(),
            KeyCode::Char('i') | KeyCode::Char('I') => {
                self.invert = !self.invert;
            },
            KeyCode::Char('c') | KeyCode::Char('C') => {
                self.color.menu_open = true;
            },
            KeyCode::Char('f') | KeyCode::Char('F') => {
                self.show_ui = !self.show_ui;
            },
            _ => {
                return (ImageAction::Ignore, None);
            },
        }
        (ImageAction::Redraw, None)
    }

    /// Routes a key while the color menu is open, mutating the color model (and renderer). Returns
    /// `None` where nothing changed, else the change of contrast that the key asks for, if any.
    pub fn on_color_menu_key(&mut self, key: KeyEvent) -> (r: Option<Option<ContrastChange>>)
        ensures
            match menu_effect(*old(self), key) {
                Some((after, change)) => *final(self) == after && r == Some(change),
                None => *final(self) == *old(self) && r is None,
            },
    {
        match key.code {
            KeyCode::Char('o') | KeyCode::Char('O') | KeyCode::Char(' ') => {
                self.color.on = !self.color.on;
            },
            KeyCode::Char('m') | KeyCode::Char('M') => self.color.cycle_mode(),
            KeyCode::Char('b') | KeyCode::Char('B') => {
                self.renderer = ResolvedRenderer::Blocks;
            },
            KeyCode::Char('+') | KeyCode::Char('=') => {
                return Some(Some(ContrastChange::Raise));
            },
            KeyCode::Char('-') | KeyCode::Char('_') => {
                return Some(Some(ContrastChange::Lower));
            },
            KeyCode::Char('r') | KeyCode::Char('R') => {
                self.color.reset();
                self.contrast = Single::one();
            },
            _ => {
                return None;
            },
        }
        Some(None)
    }

    /// The preprocessing (tone + dithering) for the current state.
    pub fn preprocess(&self) -> (p: Preprocess)
        ensures
            p == quality(
                self.gamma,
                self.contrast,
                self.threshold,
                dither_for(self.dither, self.renderer),
            ),
    {
        Preprocess {
            tone: Tone {
                gamma: self.gamma,
                contrast: self.contrast,
                brightness: Single::zero(),
                sharpen: None,
            },
            dither: resolve_dither(self.dither, self.renderer),
            threshold: self.threshold,
        }
    }
}

/// The name of a dither mode.
pub open spec fn dither_text(d: DitherMode) -> Seq<char> {
    match d {
        DitherMode::Auto => "auto"@,
        DitherMode::Off => "none"@,
        DitherMode::Threshold => "threshold"@,
        DitherMode::Floyd => "floyd"@,
        DitherMode::Atkinson => "atkinson"@,
        DitherMode::Bayer => "bayer"@,
    }
}

/// A short human name for a dither mode, for the options bar.
pub fn dither_name(d: DitherMode) -> (s: &'static str)
    ensures
        s@ == dither_text(d),
{
    match d {
        DitherMode::Auto => "auto",
        DitherMode::Off => "none",
        DitherMode::Threshold => "threshold",
        DitherMode::Floyd => "floyd",
        DitherMode::Atkinson => "atkinson",
        DitherMode::Bayer => "bayer",
    }
}

/// `on` or `off`.
pub open spec fn switch_text(on: bool) -> Seq<char> {
    if on {
        "on"@
    } else {
        "off"@
    }
}

/// `on` or `off`.
pub fn switch_name(on: bool) -> (s: &'static str)
    ensures
        s@ == switch_text(on),
{
    if on {
        "on"
    } else {
        "off"
    }
}

/// The status line of the preview of an image of that size.
pub open spec fn status_text(width: nat, height: nat, s: ImageState) -> Seq<char> {
    decimal(width) + "x"@ + decimal(height) + " | "@ + s.renderer.spec_name() + " | dither:"@
        + dither_text(s.dither) + " | color:"@ + mode_text(s.color.in_effect()) + " | invert:"@
        + switch_text(s.invert)
}

/// Draws the two-line options bar (mode info + key help) across the bottom rows of `frame`.
pub fn overlay_image_status(frame: &mut TerminalFrame, width: u32, height: u32, state: &ImageState)
    requires
        old(frame).wf(),
    ensures
        barred(
            old(frame)@,
            final(frame)@,
            status_text(width as nat, height as nat, *state),
            "R:renderer  D:dither  I:invert  C:color-menu  F:ui  Q:quit"@,
        ),
{
    let mut status = String::new();
    push_decimal(&mut status, width as u64);
    status.append("x");
    push_decimal(&mut status, height as u64);
    status.append(" | ");
    status.append(state.renderer.name());
    status.append(" | dither:");
    status.append(dither_name(state.dither));
    status.append(" | color:");
    status.append(color_mode_name(state.color.effective()));
    status.append(" | invert:");
    status.append(switch_name(state.invert));
    assert(status@ =~= status_text(width as nat, height as nat, *state));
    overlay_bottom_bar(
        frame,
        status.as_str(),
        "R:renderer  D:dither  I:invert  C:color-menu  F:ui  Q:quit",
    );
}

/// Whether `lines` are those of the color menu, where the contrast reads `contrast`.
pub open spec fn is_color_menu(s: ImageState, contrast: Seq<char>, lines: Seq<String>) -> bool {
    &&& lines.len() == 10
    &&& lines[0]@ == "Color menu"@
    &&& lines[1]@ == "color:    "@ + switch_text(s.color.on)
    &&& lines[2]@ == "mode:     "@ + mode_text(s.color.shown_mode())
    &&& lines[3]@ == "max:      "@ + mode_text(s.color.detected)
    &&& lines[4]@ == "renderer: "@ + s.renderer.spec_name()
    &&& lines[5]@ == "contrast: "@ + contrast
    &&& lines[6]@ == Seq::<char>::empty()
    &&& lines[7]@ == "O/Space on/off   M mode"@
    &&& lines[8]@ == "B blocks   +/- contrast"@
    &&& lines[9]@ == "R reset   Esc/C close"@
}

/// The lines of the color menu; `contrast` is the text of the contrast.
pub fn color_menu_lines(state: &ImageState, contrast: &str) -> (lines: Vec<String>)
    ensures
        is_color_menu(*state, contrast@, lines@),
{
    let mut lines: Vec<String> = Vec::new();
    lines.push("Color menu".to_owned());
    lines.push(crate::text::joined("color:    ", switch_name(state.color.on)));
    lines.push(crate::text::joined("mode:     ", color_mode_name(state.color.display_mode())));
    lines.push(crate::text::joined("max:      ", color_mode_name(state.color.detected)));
    lines.push(crate::text::joined("renderer: ", state.renderer.name()));
    lines.push(crate::text::joined("contrast: ", contrast));
    lines.push(String::new());
    lines.push("O/Space on/off   M mode".to_owned());
    lines.push("B blocks   +/- contrast".to_owned());
    lines.push("R reset   Esc/C close".to_owned());
    lines
}

/// Where the preview loop stands: the size of the terminal, the color mode of the frame engine, and
/// whether the image must be shown anew.
#[derive(Clone, Copy, Debug, PartialEq, Eq, Structural)]
pub struct PreviewLoop {
    /// The size of the terminal.
    pub viewport: Viewport,
    /// The color mode of the frame engine.
    pub engine: ColorMode,
    /// Whether the image must be shown anew.
    pub dirty: bool,
}

/// What the preview loop does behind an event.
#[derive(Clone, Copy, Debug, PartialEq, Eq, Structural)]
pub enum PreviewStep {
    /// Leave the preview.
    Quit,
    /// Go on, after the change of contrast, if there is one.
    Continue(Option<ContrastChange>),
}

impl PreviewLoop {
    /// Keeps the frame engine's color mode in step with the color menu. A change needs a new engine
    /// and a full redraw; returns whether there was one.
    pub fn sync(&mut self, state: &ImageState) -> (changed: bool)
        ensures
            changed == (state.color.in_effect() != old(self).engine),
            *final(self) == (PreviewLoop {
                engine: state.color.in_effect(),
                dirty: old(self).dirty || changed,
                ..*old(self)
            }),
    {
        let desired = state.engine_mode();
        if desired != self.engine {
            self.engine = desired;
            self.dirty = true;
            return true;
        }
        false
    }

    /// Takes in what was polled: a new size and a key that changes something ask for a redraw.
    pub fn on_event(&mut self, state: &mut ImageState, event: Option<Event>) -> (s: PreviewStep)
        ensures
            match event {
                Some(Event::Resize(cols, rows)) => {
                    &&& s == PreviewStep::Continue(None)
                    &&& *final(state) == *old(state)
                    &&& *final(self) == (PreviewLoop {
                        viewport: Viewport { cols, rows },
                        dirty: true,
                        ..*old(self)
                    })
                },
                Some(Event::Key(key)) => {
                    let (after, action, change) = key_effect(*old(state), key);
                    &&& *final(state) == after
                    &&& s == (if action == ImageAction::Quit {
                        PreviewStep::Quit
                    } else {
                        PreviewStep::Continue(change)
                    })
                    &&& *final(self) == (PreviewLoop {
                        dirty: old(self).dirty || action == ImageAction::Redraw,
                        ..*old(self)
                    })
                },
                _ => {
                    &&& s == PreviewStep::Continue(None)
                    &&& *final(state) == *old(state)
                    &&& *final(self) == *old(self)
                },
            },
    {
        match event {
            Some(Event::Resize(cols, rows)) => {
                self.viewport = Viewport { cols, rows };
                self.dirty = true;
                PreviewStep::Continue(None)
            },
            Some(Event::Key(key)) => {
                let (action, change) = state.on_key(key);
                match action {
                    ImageAction::Quit => PreviewStep::Quit,
                    ImageAction::Redraw => {
                        self.dirty = true;
                        PreviewStep::Continue(change)
                    },
                    ImageAction::Ignore => PreviewStep::Continue(change),
                }
            },
            _ => PreviewStep::Continue(None),
        }
    }
}

/// Whether `after` is `before` with a panel of the color menu near its top-left.
pub open spec fn shows_color_menu(
    before: Grid,
    after: Grid,
    s: ImageState,
    contrast: Seq<char>,
) -> bool {
    exists|lines: Seq<String>| #[trigger]
        is_color_menu(s, contrast, lines) && paneled(
            before,
            after,
            1,
            1,
            lines,
            lines.len() as int,
            widest(lines, lines.len()) as int,
        )
}

/// Draws the modal color-menu panel floating near the top-left of `frame`; `contrast` is the text of
/// the contrast.
pub fn overlay_color_menu(frame: &mut TerminalFrame, state: &ImageState, contrast: &str)
    requires
        old(frame).wf(),
    ensures
        final(frame).wf(),
        shows_color_menu(old(frame)@, final(frame)@, *state, contrast@),
{
    let lines = color_menu_lines(state, contrast);
    overlay_panel(frame, 1, 1, lines.as_slice());
}

/// Whether `after` is `before` with the options bar, where that is shown.
pub open spec fn shows_status(
    before: Grid,
    after: Grid,
    width: nat,
    height: nat,
    s: ImageState,
) -> bool {
    if s.show_ui {
        barred(
            before,
            after,
            status_text(width, height, s),
            "R:renderer  D:dither  I:invert  C:color-menu  F:ui  Q:quit"@,
        )
    } else {
        after == before
    }
}

/// Draws what lies over the image: the options bar where it is shown, and over everything the color
/// menu where it is open. `contrast` is the text of the contrast.
pub fn overlay_preview(
    frame: &mut TerminalFrame,
    width: u32,
    height: u32,
    state: &ImageState,
    contrast: &str,
)
    requires
        old(frame).wf(),
    ensures
        final(frame).wf(),
        exists|mid: Grid| #[trigger]
            shows_status(old(frame)@, mid, width as nat, height as nat, *state) && if state.color.menu_open {
                shows_color_menu(mid, final(frame)@, *state, contrast@)
            } else {
                final(frame)@ == mid
            },
{
    if state.show_ui {
        overlay_image_status(frame, width, height, state);
    }
    let ghost mid = frame@;
    assert(shows_status(old(frame)@, mid, width as nat, height as nat, *state));
    if state.color.menu_open {
        overlay_color_menu(frame, state, contrast);
    }
}

/// The lesser of two fidelities is one of the two and no richer than either.
pub proof fn law_lesser_mode_is_no_richer(a: ColorMode, b: ColorMode)
    ensures
        clamped_mode(a, b) == a || clamped_mode(a, b) == b,
        color_rank(clamped_mode(a, b)) <= color_rank(a),
        color_rank(clamped_mode(a, b)) <= color_rank(b),
        clamped_mode(a, b) == clamped_mode(b, a),
        color_rank(ColorMode::Off) < color_rank(ColorMode::Ansi16),
        color_rank(ColorMode::Ansi16) < color_rank(ColorMode::Ansi256),
        color_rank(ColorMode::Ansi256) < color_rank(ColorMode::TrueColor),
{
}

/// The mode key asks for the next richer fidelity as long as the terminal supports one, and from the
/// richest of all goes back to sixteen colors. It changes nothing else.
pub proof fn law_mode_key_goes_up_one_fidelity(c: ColorState)
    ensures
        color_rank(c.shown_mode()) < color_rank(c.detected) ==> color_rank(c.cycled().shown_mode())
            == color_rank(c.shown_mode()) + 1,
        c.shown_mode() == ColorMode::TrueColor ==> c.cycled().shown_mode() == ColorMode::Ansi16,
        c.cycled() == (ColorState { mode: c.cycled().mode, ..c }),
{
}

/// A choice of dithering is honoured with every encoder; without one only the dots of Braille are
/// dithered.
pub proof fn law_dithering_choice_is_honoured(
    mode: DitherMode,
    other: DitherMode,
    a: ResolvedRenderer,
    b: ResolvedRenderer,
)
    ensures
        mode != DitherMode::Auto ==> dither_for(mode, a) == dither_for(mode, b),
        mode != DitherMode::Auto && other != DitherMode::Auto && mode != other ==> dither_for(mode, a)
            != dither_for(other, a),
        dither_for(DitherMode::Auto, a) != Dither::Off <==> a == ResolvedRenderer::Braille,
        dither_for(DitherMode::Off, a) == Dither::Off,
        dither_for(DitherMode::Threshold, a) == Dither::ThresholdOnly,
        dither_for(DitherMode::Floyd, a) == Dither::FloydSteinberg,
        dither_for(DitherMode::Atkinson, a) == Dither::Atkinson,
        dither_for(DitherMode::Bayer, a) is Bayer,
{
}

/// An encoder that was chosen is used with color and without; left open, color takes half-blocks and
/// its absence Braille. Each encoder has its own number of pixels to a cell.
pub proof fn law_encoder_choice_is_honoured(renderer: Renderer, color: bool)
    ensures
        renderer != Renderer::Auto ==> ResolvedRenderer::of(renderer, color) == ResolvedRenderer::of(
            renderer,
            !color,
        ),
        ResolvedRenderer::of(Renderer::Auto, true) == ResolvedRenderer::of(Renderer::Blocks, color),
        ResolvedRenderer::of(Renderer::Auto, false) == ResolvedRenderer::of(Renderer::Braille, color),
        ResolvedRenderer::of(renderer, color).options().subpixel_x == 2 <==> ResolvedRenderer::of(
            renderer,
            color,
        ) == ResolvedRenderer::Braille,
        ResolvedRenderer::of(renderer, color).options().subpixel_y >= ResolvedRenderer::of(
            renderer,
            color,
        ).options().subpixel_x,
{
}

/// A toggle pressed twice leaves everything as it was, and so does opening and closing the menu. While
/// the menu is closed, each key touches only what it is for.
pub proof fn law_toggles_undo_themselves(s: ImageState, key: KeyEvent, esc: KeyEvent)
    requires
        !key.modifiers.ctrl,
        esc.code == KeyCode::Esc,
    ensures
        ({
            let once = key_effect(s, key).0;
            let twice = key_effect(once, key).0;
            &&& !s.color.menu_open && (key.is_letter('i', 'I') || key.is_letter('f', 'F')
                || key.is_letter('c', 'C')) ==> twice == s && once != s
            &&& s.color.menu_open && (key.is_letter('o', 'O') || key.code == KeyCode::Char(' '))
                ==> twice == s && once != s
            &&& !s.color.menu_open && key.is_letter('c', 'C') ==> key_effect(once, esc).0 == s
            &&& !s.color.menu_open && key.is_letter('i', 'I') ==> once == ImageState {
                invert: !s.invert,
                ..s
            }
            &&& !s.color.menu_open && key.is_letter('r', 'R') ==> once == ImageState {
                renderer: once.renderer,
                ..s
            } && once.renderer != s.renderer
            &&& !s.color.menu_open && key.is_letter('d', 'D') ==> once == ImageState {
                dither: once.dither,
                ..s
            } && once.dither != s.dither
        }),
{
}

/// The color menu shows each of its values behind its own name.
pub proof fn law_color_menu_names_its_values(s: ImageState, contrast: Seq<char>, lines: Seq<String>)
    requires
        is_color_menu(s, contrast, lines),
    ensures
        one_tells(lines, "color:"@, switch_text(s.color.on)),
        one_tells(lines, "mode:"@, mode_text(s.color.shown_mode())),
        one_tells(lines, "max:"@, mode_text(s.color.detected)),
        one_tells(lines, "renderer:"@, s.renderer.spec_name()),
        one_tells(lines, "contrast:"@, contrast),
{
    let none = Seq::<char>::empty();
    reveal_strlit("color:    ");
    reveal_strlit("color:");
    reveal_strlit("mode:     ");
    reveal_strlit("mode:");
    reveal_strlit("max:      ");
    reveal_strlit("max:");
    reveal_strlit("renderer: ");
    reveal_strlit("renderer:");
    reveal_strlit("contrast: ");
    reveal_strlit("contrast:");
    let four = seq![' ', ' ', ' ', ' '];
    let five = seq![' ', ' ', ' ', ' ', ' '];
    let six = seq![' ', ' ', ' ', ' ', ' ', ' '];
    assert("color:    "@ =~= "color:"@ + four);
    assert("mode:     "@ =~= "mode:"@ + five);
    assert("max:      "@ =~= "max:"@ + six);
    assert("renderer: "@ =~= "renderer:"@ + seq![' ']);
    assert("contrast: "@ =~= "contrast:"@ + seq![' ']);
    let on = switch_text(s.color.on);
    assert(lines[1]@ =~= "color:"@ + four + on + none);
    lemma_line_tells(lines, 1, "color:"@, four, on, none);
    let mode = mode_text(s.color.shown_mode());
    assert(lines[2]@ =~= "mode:"@ + five + mode + none);
    lemma_line_tells(lines, 2, "mode:"@, five, mode, none);
    let most = mode_text(s.color.detected);
    assert(lines[3]@ =~= "max:"@ + six + most + none);
    lemma_line_tells(lines, 3, "max:"@, six, most, none);
    let encoder = s.renderer.spec_name();
    assert(lines[4]@ =~= "renderer:"@ + seq![' '] + encoder + none);
    lemma_line_tells(lines, 4, "renderer:"@, seq![' '], encoder, none);
    assert(lines[5]@ =~= "contrast:"@ + seq![' '] + contrast + none);
    lemma_line_tells(lines, 5, "contrast:"@, seq![' '], contrast, none);
}

/// A fitted viewport has the shape of the image: the full width with the rows that go with it where they
/// fit, or the full height with the columns that go with it where they do not. It never leaves its bounds
/// and always fills them one way.
pub proof fn law_fitted_viewport_fills_its_bounds(
    bounds: Viewport,
    rows_for_width: u16,
    cols_for_height: u16,
)
    requires
        1 <= bounds.cols,
        1 <= bounds.rows,
        1 <= rows_for_width,
        1 <= cols_for_height <= bounds.cols,
    ensures
        ({
            let v = fitting(bounds, rows_for_width, cols_for_height);
            &&& v.cols <= bounds.cols && v.rows <= bounds.rows
            &&& v.cols == bounds.cols || v.rows == bounds.rows
            &&& rows_for_width <= bounds.rows ==> v.cols == bounds.cols && v.rows == rows_for_width
            &&& rows_for_width > bounds.rows ==> v.rows == bounds.rows && v.cols == cols_for_height
        }),
{
}

} // verus!
