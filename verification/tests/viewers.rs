//! The interactive viewers: images, meshes and playback.

use rgfx::anim::AnimationInfo;
use rgfx::cli::{DitherMode, RenderOpts, Renderer};
use rgfx::color::Color;
use rgfx::config::{Config, Settings};
use rgfx::framebuffer::Framebuffer;
use rgfx::geometry::{Mesh, Scene};
use rgfx::gif::{GifLoop, GifSource};
use rgfx::image_viewer::{
    build_preprocess, clamp_columns, clamp_mode, color_menu_lines, fit_within, inline_bounds,
    overlay_image_status, overlay_preview, presentation, render_options, resolve_dither, size_rule,
    ColorState, ContrastChange, ImageAction, ImageState, Presentation, PreviewLoop, PreviewStep,
    ResolvedRenderer, SizeRule,
};
use rgfx::media::{Input, MeshFormat};
use rgfx::mesh_viewer::{
    anim_menu_lines, anim_state_for, cycle_index, is_ratio, light_menu_lines, load_failure,
    mesh_path, output_viewport, overlay_viewer, reduced_size, scene_bounds, simplifies,
    simplify_target, status_line, upscale_into, AnimNudge, AnimState, KeyAction, LightMode,
    LightNudge, LightState, LoopStep, StatusInfo, ViewCommand, ViewLoop, ViewerState,
};
use rgfx::playback_viewer::{
    file_path, gif_loop, gif_status, next_wait, overlay_status, playback_viewport, seek_target,
    Double, DueStep, FrameStep, Outcome, Pacing, PlaybackCommand, PlaybackController, POLL_NANOS,
};
use rgfx::preprocess::{Dither, PixelSum};
use rgfx::raster::ShadingMode;
use rgfx::single::Single;
use rgfx::source::FrameSource;
use rgfx::span::Span;
use rgfx::terminal::{
    ColorMode, Event, KeyCode, KeyEvent, KeyModifiers, MouseButton, MouseEvent, MouseEventKind,
};
use rgfx::terminal_frame::TerminalFrame;
use rgfx::viewport::Viewport;

fn single(x: f32) -> Single {
    Single::from_bits(x.to_bits())
}

fn float(x: Single) -> f32 {
    f32::from_bits(x.to_bits())
}

fn settings(opts: RenderOpts) -> Settings {
    Settings::resolve(&Config::default(), &opts)
}

fn key(code: KeyCode) -> KeyEvent {
    KeyEvent {
        code,
        modifiers: KeyModifiers::none(),
    }
}

fn char_key(c: char) -> KeyEvent {
    key(KeyCode::Char(c))
}

fn ctrl_c() -> KeyEvent {
    KeyEvent {
        code: KeyCode::Char('c'),
        modifiers: KeyModifiers {
            ctrl: true,
            ..KeyModifiers::none()
        },
    }
}

// --- Images -----------------------------------------------------------------------------------

#[test]
fn still_image_defaults_to_fullscreen_and_cat_opts_out() {
    // The default is the full-screen preview; `-c`/`--cat` opts into the
    // inline print-and-return behavior.
    let default = settings(RenderOpts::default());
    assert!(!default.cat, "default is full-screen, not cat/inline");
    assert!(default.output.is_none());
    assert_eq!(presentation(&default), Presentation::FullScreen);
    let cat = settings(RenderOpts {
        cat: true,
        ..RenderOpts::default()
    });
    assert!(cat.cat, "--cat selects inline output");
    assert_eq!(presentation(&cat), Presentation::Inline);
    let file = settings(RenderOpts {
        cat: true,
        output: Some("out.txt".to_string()),
        ..RenderOpts::default()
    });
    assert_eq!(presentation(&file), Presentation::File);
}

fn image_state(detected: ColorMode) -> ImageState {
    ImageState::from_settings(&settings(RenderOpts::default()), detected)
}

#[test]
fn image_controls_cycle_renderer_dither_and_toggles() {
    let mut st = image_state(ColorMode::TrueColor);
    let start = st.renderer;
    assert_eq!(st.on_key(char_key('r')).0, ImageAction::Redraw);
    assert_ne!(st.renderer, start, "R cycles the renderer");
    assert_eq!(st.on_key(char_key('i')).0, ImageAction::Redraw);
    assert!(st.invert, "I toggles invert");
    let d = st.dither;
    assert_eq!(st.on_key(char_key('d')).0, ImageAction::Redraw);
    assert_ne!(st.dither, d, "D cycles dither");
    assert_eq!(st.on_key(char_key('f')).0, ImageAction::Redraw);
    assert!(!st.show_ui, "F toggles the options bar");
    assert_eq!(st.on_key(char_key('q')).0, ImageAction::Quit);
}

#[test]
fn inline_bounds_reserves_one_row_of_headroom() {
    // Inline height leaves a row for the returning prompt so the
    // image never scrolls off the top.
    assert_eq!(
        inline_bounds(Viewport::new(100, 30)),
        Viewport::new(100, 29)
    );
    // Never collapses to zero on a degenerate terminal.
    assert_eq!(inline_bounds(Viewport::new(0, 0)), Viewport::new(1, 1));
    assert_eq!(inline_bounds(Viewport::new(80, 1)), Viewport::new(80, 1));
}

/// How many columns one row of an image is worth.
fn cols_per_row(w: u32, h: u32, cell_aspect: f64) -> f64 {
    (w as f64 / h as f64) / cell_aspect
}

/// The largest viewport within the bounds that keeps the shape of the image.
fn fit_image(w: u32, h: u32, bounds: Viewport, cell_aspect: f64) -> Viewport {
    let k = cols_per_row(w, h, cell_aspect);
    let (bc, br) = (bounds.cols.max(1), bounds.rows.max(1));
    let rows = ((bc as f64 / k).round() as u16).max(1);
    let cols = ((br as f64 * k).round() as u16).clamp(1, bc);
    fit_within(bounds, rows, cols)
}

#[test]
fn fit_within_respects_the_terminal_bounds() {
    // Tall image into an 80x24 terminal is height-limited: 24 rows, 24 cols (k=1).
    let vp = fit_image(50, 100, Viewport::new(80, 24), 0.5);
    assert_eq!(vp, Viewport::new(24, 24));
    // Wide image is width-limited and never exceeds the bounds on either axis.
    let vp = fit_image(200, 100, Viewport::new(80, 24), 0.5);
    assert!(vp.cols <= 80 && vp.rows <= 24);
    assert_eq!(vp.cols, 80);
}

#[test]
fn inline_render_fits_within_the_reserved_bounds() {
    let bounds = inline_bounds(Viewport::new(100, 30));
    let rule = size_rule(settings(RenderOpts::default()).width, Some(bounds), 80);
    assert_eq!(rule, SizeRule::Fit(bounds));
    let vp = fit_image(1, 1, bounds, 0.5);
    assert!(
        vp.rows <= bounds.rows,
        "inline render must fit within the reserved rows"
    );
    assert!(vp.cols <= bounds.cols);
}

#[test]
fn a_given_width_beats_the_bounds() {
    let bounds = Some(Viewport::new(100, 29));
    assert_eq!(size_rule(Some(20), bounds, 80), SizeRule::Width(20));
    assert_eq!(size_rule(None, None, 80), SizeRule::Width(80));
    assert_eq!(clamp_columns(0), 1);
    assert_eq!(clamp_columns(70_000), u16::MAX);
}

#[test]
fn color_auto_selects_blocks_else_braille() {
    assert_eq!(
        ResolvedRenderer::resolve(Renderer::Auto, false),
        ResolvedRenderer::Braille
    );
    assert_eq!(
        ResolvedRenderer::resolve(Renderer::Auto, true),
        ResolvedRenderer::Blocks
    );
}

#[test]
fn auto_dither_is_floyd_for_braille_only() {
    assert_eq!(
        resolve_dither(DitherMode::Auto, ResolvedRenderer::Braille),
        Dither::FloydSteinberg
    );
    assert_eq!(
        resolve_dither(DitherMode::Auto, ResolvedRenderer::Ascii),
        Dither::Off
    );
    // An explicit choice overrides the per-renderer default.
    assert_eq!(
        resolve_dither(DitherMode::Atkinson, ResolvedRenderer::Ascii),
        Dither::Atkinson
    );
}

#[test]
fn preprocessing_follows_the_settings() {
    let s = settings(RenderOpts {
        gamma: Some(single(2.2)),
        ..RenderOpts::default()
    });
    let p = build_preprocess(&s, ResolvedRenderer::Braille);
    assert_eq!(p.dither, Dither::FloydSteinberg);
    assert_eq!(p.tone.gamma, single(2.2));
    assert_eq!(p.threshold, single(0.5));
    let (resolved, opts) = render_options(&s);
    assert_eq!(resolved, ResolvedRenderer::Braille);
    assert_eq!((opts.subpixel_x, opts.subpixel_y), (2, 4));
    assert_eq!(opts.preprocess, p);
}

#[test]
fn color_menu_opens_and_routes_keys_then_closes() {
    let mut st = image_state(ColorMode::TrueColor);
    assert!(!st.color.menu_open);
    assert!(!st.color.on, "color starts off (default settings)");
    // C opens the modal menu.
    assert_eq!(st.on_key(char_key('c')).0, ImageAction::Redraw);
    assert!(st.color.menu_open, "C opens the color menu");
    // O toggles color on/off while the menu is open.
    assert_eq!(st.on_key(char_key('o')).0, ImageAction::Redraw);
    assert!(st.color.on, "O turns color on");
    // M cycles fidelity (TrueColor -> Ansi16 on a truecolor terminal).
    let before = st.color.display_mode();
    assert_eq!(st.on_key(char_key('m')).0, ImageAction::Redraw);
    assert_ne!(st.color.display_mode(), before, "M cycles the fidelity");
    // +/- drive contrast (the tone stage), not the image controls.
    assert_eq!(
        st.on_key(char_key('+')),
        (ImageAction::Redraw, Some(ContrastChange::Raise)),
        "+ raises contrast"
    );
    assert_eq!(
        st.on_key(char_key('-')),
        (ImageAction::Redraw, Some(ContrastChange::Lower))
    );
    // B quick-picks the blocks renderer for the richest color.
    assert_eq!(st.on_key(char_key('b')).0, ImageAction::Redraw);
    assert_eq!(st.renderer, ResolvedRenderer::Blocks);
    // Esc closes the menu.
    assert_eq!(st.on_key(key(KeyCode::Esc)).0, ImageAction::Redraw);
    assert!(!st.color.menu_open, "Esc closes the color menu");
}

#[test]
fn closed_menu_leaves_image_controls_active() {
    let mut st = image_state(ColorMode::TrueColor);
    // With the menu closed, R cycles the renderer and I toggles invert (unchanged behavior).
    let start = st.renderer;
    assert_eq!(st.on_key(char_key('r')).0, ImageAction::Redraw);
    assert_ne!(st.renderer, start);
    assert!(!st.color.menu_open, "R does not open the menu");
    assert_eq!(st.on_key(char_key('i')).0, ImageAction::Redraw);
    assert!(st.invert);
    // Color is untouched by the closed-state controls.
    assert!(!st.color.on);
}

#[test]
fn color_menu_reset_restores_defaults() {
    let mut st = image_state(ColorMode::TrueColor);
    st.on_key(char_key('c')); // open
    st.on_key(char_key('o')); // on
    st.on_key(char_key('m')); // cycle down from TrueColor
    st.on_key(char_key('-')); // drop contrast
    st.contrast = single(0.9);
    // R resets color to defaults (on, max detected fidelity) and contrast to identity.
    assert_eq!(st.on_key(char_key('r')).0, ImageAction::Redraw);
    assert!(st.color.on, "reset leaves color on");
    assert_eq!(
        st.color.display_mode(),
        ColorMode::TrueColor,
        "reset to max"
    );
    assert!(
        (float(st.contrast) - 1.0).abs() < 1e-6,
        "reset contrast to identity"
    );
    assert!(st.color.menu_open, "reset keeps the menu open");
}

#[test]
fn mode_is_clamped_to_the_detected_capability() {
    // Requesting TrueColor on a 16-color terminal degrades to Ansi16.
    let c = ColorState::new(true, ColorMode::TrueColor, ColorMode::Ansi16);
    assert_eq!(c.effective(), ColorMode::Ansi16);
    // Cycling never escapes the ceiling either.
    let mut c = c;
    for _ in 0..4 {
        c.cycle_mode();
        assert_eq!(c.effective(), ColorMode::Ansi16);
    }
    // Off always yields no color regardless of the requested fidelity.
    let off = ColorState::new(false, ColorMode::TrueColor, ColorMode::TrueColor);
    assert_eq!(off.effective(), ColorMode::Off);
    assert_eq!(
        clamp_mode(ColorMode::Ansi16, ColorMode::TrueColor),
        ColorMode::Ansi16
    );
}

#[test]
fn choices_come_round() {
    let mut st = image_state(ColorMode::TrueColor);
    let (renderer, dither) = (st.renderer, st.dither);
    for _ in 0..3 {
        st.cycle_renderer();
    }
    assert_eq!(st.renderer, renderer);
    for _ in 0..6 {
        st.cycle_dither();
    }
    assert_eq!(st.dither, dither);
}

#[test]
fn engine_mode_is_clamped_and_off_without_color() {
    let mut st = image_state(ColorMode::Ansi16);
    st.color.on = true;
    st.color.mode = ColorMode::TrueColor;
    assert_eq!(
        st.engine_mode(),
        ColorMode::Ansi16,
        "clamped to the ceiling"
    );
    st.color.on = false;
    assert_eq!(st.engine_mode(), ColorMode::Off);
}

#[test]
fn image_bar_names_the_choices() {
    let st = image_state(ColorMode::TrueColor);
    let mut frame = TerminalFrame::new(80, 12);
    overlay_image_status(&mut frame, 4, 3, &st);
    let text = frame.to_text();
    let lines: Vec<&str> = text.lines().collect();
    assert!(lines[10].starts_with("4x3 | braille | dither:auto | color:off | invert:off"));
    assert!(lines[11].contains("Q:quit"));
}

#[test]
fn open_color_menu_is_drawn_over_the_image() {
    let mut st = image_state(ColorMode::Ansi256);
    let mut frame = TerminalFrame::new(60, 24);
    overlay_preview(&mut frame, 4, 3, &st, "1.00");
    assert!(!frame.to_text().contains("Color menu"));
    st.on_key(char_key('c'));
    overlay_preview(&mut frame, 4, 3, &st, "1.00");
    let text = frame.to_text();
    assert!(text.contains("Color menu") && text.contains("contrast: 1.00"));
    assert!(text.contains("max:      256"));
    assert_eq!(color_menu_lines(&st, "1.00").len(), 10);
}

#[test]
fn preview_redraws_when_something_changed() {
    let mut st = image_state(ColorMode::TrueColor);
    let mut preview = PreviewLoop {
        viewport: Viewport::new(80, 24),
        engine: st.engine_mode(),
        dirty: false,
    };
    assert_eq!(
        preview.on_event(&mut st, None),
        PreviewStep::Continue(None)
    );
    assert!(!preview.dirty);
    preview.on_event(&mut st, Some(Event::Resize(40, 12)));
    assert!(preview.dirty);
    assert_eq!(preview.viewport, Viewport::new(40, 12));
    preview.on_event(&mut st, Some(Event::Key(char_key('c'))));
    preview.on_event(&mut st, Some(Event::Key(char_key('o'))));
    assert!(preview.sync(&st), "turning color on changes the engine");
    assert!(!preview.sync(&st));
    assert_eq!(preview.engine, ColorMode::TrueColor);
    assert_eq!(
        preview.on_event(&mut st, Some(Event::Key(ctrl_c()))),
        PreviewStep::Quit
    );
}

// --- Meshes -----------------------------------------------------------------------------------

fn state() -> ViewerState {
    ViewerState::new(&settings(RenderOpts::default()), AnimState::disabled())
}

fn clips() -> AnimState {
    AnimState::new(
        vec!["walk".to_string(), "jump".to_string()],
        vec![single(2.0), single(1.0)],
        vec![false, false],
    )
}

fn state_with_anim() -> ViewerState {
    ViewerState::new(&settings(RenderOpts::default()), clips())
}

/// Carries out what a key asks for, with plain float arithmetic.
fn carry_out(s: &mut ViewerState, k: KeyEvent) -> KeyAction {
    let (action, command) = s.on_key(k);
    match command {
        Some(ViewCommand::Light(n)) => {
            let l = &mut s.light;
            let shift = |v: Single, d: f32| single(float(v) + d);
            match n {
                LightNudge::AzimuthDown => l.azimuth = shift(l.azimuth, -0.15),
                LightNudge::AzimuthUp => l.azimuth = shift(l.azimuth, 0.15),
                LightNudge::ElevationUp => {
                    l.elevation = single((float(l.elevation) + 0.15).clamp(-1.5, 1.5))
                }
                LightNudge::ElevationDown => {
                    l.elevation = single((float(l.elevation) - 0.15).clamp(-1.5, 1.5))
                }
                LightNudge::AmbientUp => {
                    l.ambient = single((float(l.ambient) + 0.05).clamp(0.0, 1.0))
                }
                LightNudge::AmbientDown => {
                    l.ambient = single((float(l.ambient) - 0.05).clamp(0.0, 1.0))
                }
            }
        }
        Some(ViewCommand::Anim(n)) => match n {
            AnimNudge::ScrubBack => scrub(&mut s.anim, -0.1),
            AnimNudge::ScrubForward => scrub(&mut s.anim, 0.1),
            AnimNudge::SpeedUp => {
                s.anim.speed = single((float(s.anim.speed) + 0.25).clamp(0.25, 8.0))
            }
            AnimNudge::SpeedDown => {
                s.anim.speed = single((float(s.anim.speed) - 0.25).clamp(0.25, 8.0))
            }
        },
        _ => {}
    }
    action
}

fn scrub(a: &mut AnimState, delta: f32) {
    let duration = float(a.current_duration());
    let t = float(a.time) + delta;
    let (wrapped, clamped) = if duration > 0.0 {
        (t.rem_euclid(duration), t.clamp(0.0, duration))
    } else {
        (t, t)
    };
    a.scrub(single(wrapped), single(clamped));
}

fn advance(a: &mut AnimState, dt: f32) -> bool {
    let moved = float(a.time) + dt * float(a.speed);
    let duration = float(a.current_duration());
    let wrapped = if duration > 0.0 {
        moved.rem_euclid(duration)
    } else {
        moved
    };
    a.advance(single(dt), single(moved), single(wrapped))
}

#[test]
fn arrow_keys_ask_for_opposite_orbits() {
    let mut s = state();
    let orbit = |s: &mut ViewerState, code| match s.on_key(key(code)) {
        (KeyAction::Redraw, Some(ViewCommand::Orbit(x, y))) => (x, y),
        other => panic!("no orbit: {other:?}"),
    };
    let (rx, ry) = orbit(&mut s, KeyCode::Right);
    let (lx, ly) = orbit(&mut s, KeyCode::Left);
    assert!(rx != 0 && (rx + lx, ry + ly) == (0, 0), "left cancels right");
    let (ux, uy) = orbit(&mut s, KeyCode::Up);
    let (dx, dy) = orbit(&mut s, KeyCode::Down);
    assert!(uy != 0 && (ux + dx, uy + dy) == (0, 0), "down cancels up");
}

#[test]
fn zoom_roll_and_reset_are_asked_for() {
    let mut s = state();
    assert_eq!(
        s.on_key(char_key('+')),
        (KeyAction::Redraw, Some(ViewCommand::ZoomIn))
    );
    assert_eq!(
        s.on_key(char_key('-')),
        (KeyAction::Redraw, Some(ViewCommand::ZoomOut))
    );
    assert_eq!(
        s.on_key(char_key('r')),
        (KeyAction::Redraw, Some(ViewCommand::ResetView))
    );
    assert_eq!(
        s.on_key(char_key('x')),
        (KeyAction::Redraw, Some(ViewCommand::Roll(1)))
    );
    assert_eq!(
        s.on_key(char_key('z')),
        (KeyAction::Redraw, Some(ViewCommand::Roll(-1)))
    );
}

#[test]
fn toggles_change_shading_color_lighting_and_ui() {
    let mut s = state();
    // Wireframe overrides the filled mode.
    assert!(!s.wireframe);
    s.on_key(char_key('w'));
    assert!(s.wireframe);
    assert_eq!(s.effective_shading(), ShadingMode::Wireframe);
    s.on_key(char_key('w'));
    assert!(!s.wireframe);
    // Shading cycles through the filled modes.
    let before = s.effective_shading();
    s.on_key(char_key('s'));
    assert_ne!(s.effective_shading(), before);
    // Lighting off forces lit modes to Unlit. Lighting on/off lives in the light menu:
    // open it with `L`, toggle the light off with `O`, close with `L`.
    s.shading_index = cycle_index(ShadingMode::Flat);
    assert_eq!(s.effective_shading(), ShadingMode::Flat);
    s.on_key(char_key('l'));
    assert!(s.light.menu_open);
    s.on_key(char_key('o'));
    assert!(!s.light.on);
    assert_eq!(s.effective_shading(), ShadingMode::Unlit);
    s.on_key(char_key('l'));
    assert!(!s.light.menu_open);
    // Color and UI toggle.
    assert!(!s.color);
    s.on_key(char_key('c'));
    assert!(s.color);
    assert!(s.show_ui);
    s.on_key(char_key('f'));
    assert!(!s.show_ui);
}

#[test]
fn shading_cycle_has_five_modes() {
    let mut s = state();
    let start = s.effective_shading();
    let mut seen = vec![start];
    for _ in 0..4 {
        s.on_key(char_key('s'));
        assert!(!seen.contains(&s.effective_shading()));
        seen.push(s.effective_shading());
    }
    s.on_key(char_key('s'));
    assert_eq!(s.effective_shading(), start);
}

#[test]
fn mesh_viewer_quit_keys_report_quit() {
    let mut s = state();
    assert_eq!(s.on_key(char_key('q')).0, KeyAction::Quit);
    assert_eq!(s.on_key(key(KeyCode::Esc)).0, KeyAction::Quit);
    // Ctrl+C quits, but a plain 'c' is the color toggle, not a quit.
    assert_eq!(s.on_key(ctrl_c()).0, KeyAction::Quit);
    assert_eq!(s.on_key(char_key('c')).0, KeyAction::Redraw);
}

#[test]
fn empty_scene_is_a_clean_error() {
    let empty = Scene::new("empty".to_string(), vec![Mesh::default()]);
    assert!(scene_bounds(empty.bounding_box()).is_err());
}

#[test]
fn output_viewport_uses_width_and_squareish_rows() {
    let s = settings(RenderOpts {
        width: Some(120),
        ..RenderOpts::default()
    });
    assert_eq!(output_viewport(&s), Viewport::new(120, 60));
    let d = settings(RenderOpts::default());
    assert_eq!(output_viewport(&d), Viewport::new(80, 40));
}

fn mouse(kind: MouseEventKind, col: u16, row: u16) -> MouseEvent {
    MouseEvent {
        kind,
        col,
        row,
        modifiers: KeyModifiers::none(),
    }
}

#[test]
fn mouse_left_drag_orbits_both_axes() {
    let mut s = state();
    // Press, then drag right and up: both axes change.
    let down = MouseEventKind::Down(MouseButton::Left);
    let drag = MouseEventKind::Drag(MouseButton::Left);
    assert_eq!(s.on_mouse(mouse(down, 40, 12)).0, KeyAction::Ignore);
    let (action, command) = s.on_mouse(mouse(drag, 55, 4));
    assert_eq!(action, KeyAction::Redraw);
    assert!(
        matches!(command, Some(ViewCommand::Drag(x, y)) if x != 0 && y != 0),
        "drag must reorient the camera"
    );
    // Releasing ends the drag.
    let up = MouseEventKind::Up(MouseButton::Left);
    assert_eq!(s.on_mouse(mouse(up, 55, 4)).0, KeyAction::Ignore);
    assert!(s.last_drag.is_none());
}

#[test]
fn mouse_wheel_zooms() {
    let mut s = state();
    assert_eq!(
        s.on_mouse(mouse(MouseEventKind::ScrollUp, 0, 0)),
        (KeyAction::Redraw, Some(ViewCommand::ZoomIn)),
        "scroll up zooms in"
    );
    assert_eq!(
        s.on_mouse(mouse(MouseEventKind::ScrollDown, 0, 0)),
        (KeyAction::Redraw, Some(ViewCommand::ZoomOut))
    );
}

#[test]
fn menu_routes_arrows_to_light_when_open_and_camera_when_closed() {
    let mut s = state();
    let orbits = |c: Option<ViewCommand>| matches!(c, Some(ViewCommand::Orbit(_, _)));
    // Closed: arrows orbit the camera; the light angles are untouched.
    let az0 = float(s.light.azimuth);
    let (action, command) = s.on_key(key(KeyCode::Right));
    assert_eq!(action, KeyAction::Redraw);
    assert!(orbits(command), "closed menu orbits camera");
    assert_eq!(
        float(s.light.azimuth),
        az0,
        "closed menu must not move the light"
    );
    // `L` opens the modal menu.
    assert_eq!(s.on_key(char_key('l')).0, KeyAction::Redraw);
    assert!(s.light.menu_open);
    // Open: arrows move the light; the camera orbit is frozen.
    assert_eq!(carry_out(&mut s, key(KeyCode::Right)), KeyAction::Redraw);
    assert!((float(s.light.azimuth) - (az0 + 0.15)).abs() < 1e-6);
    let el0 = float(s.light.elevation);
    assert!(
        !orbits(s.on_key(key(KeyCode::Left)).1),
        "camera must not orbit while the menu is open"
    );
    carry_out(&mut s, key(KeyCode::Up));
    assert!((float(s.light.elevation) - (el0 + 0.15)).abs() < 1e-6);
    // `Esc` closes; arrows orbit the camera again.
    assert_eq!(s.on_key(key(KeyCode::Esc)).0, KeyAction::Redraw);
    assert!(!s.light.menu_open);
    assert!(
        orbits(s.on_key(key(KeyCode::Left)).1),
        "camera orbits again after the menu closes"
    );
}

#[test]
fn menu_mode_toggle_ambient_clamp_onoff_and_reset() {
    let mut s = state();
    carry_out(&mut s, char_key('l')); // open

    // `M` cycles Viewer <-> World.
    assert_eq!(s.light.mode, LightMode::Viewer);
    carry_out(&mut s, char_key('m'));
    assert_eq!(s.light.mode, LightMode::World);
    carry_out(&mut s, char_key('m'));
    assert_eq!(s.light.mode, LightMode::Viewer);
    // Ambient is clamped to 0..=1 at both ends.
    for _ in 0..50 {
        carry_out(&mut s, char_key('+'));
    }
    assert!(
        (float(s.light.ambient) - 1.0).abs() < 1e-6,
        "ambient clamps at 1"
    );
    for _ in 0..50 {
        carry_out(&mut s, char_key('-'));
    }
    assert!(float(s.light.ambient).abs() < 1e-6, "ambient clamps at 0");
    // On/off via `O` and `Space`.
    assert!(s.light.on);
    carry_out(&mut s, char_key('o'));
    assert!(!s.light.on);
    carry_out(&mut s, char_key(' '));
    assert!(s.light.on);
    // Move the light, then `R` restores defaults while keeping the menu open.
    carry_out(&mut s, key(KeyCode::Right));
    carry_out(&mut s, char_key('m'));
    carry_out(&mut s, char_key('+'));
    carry_out(&mut s, char_key('r'));
    assert_eq!(s.light.mode, LightMode::Viewer);
    assert!((float(s.light.azimuth) - 0.46).abs() < 1e-6);
    assert!((float(s.light.elevation) - 0.56).abs() < 1e-6);
    assert!((float(s.light.ambient) - 0.15).abs() < 1e-6);
    assert!(s.light.on);
    assert!(s.light.menu_open, "reset keeps the menu open");
}

#[test]
fn ctrl_c_quits_even_with_the_menu_open() {
    let mut s = state();
    s.on_key(char_key('l'));
    assert!(s.light.menu_open);
    assert_eq!(s.on_key(ctrl_c()).0, KeyAction::Quit);
}

fn info(file: &str, triangles: usize, simplify: Option<(usize, usize)>) -> Option<StatusInfo> {
    Some(StatusInfo {
        file: file.to_string(),
        triangles,
        fps: "30".to_string(),
        simplify,
        time: "0.0".to_string(),
    })
}

fn drawn(s: &ViewerState, cols: usize, info: &Option<StatusInfo>) -> String {
    let mut frame = TerminalFrame::new(cols, 24);
    let light = light_menu_lines(&s.light, "26", "32", "0.15");
    let anim = anim_menu_lines(&s.anim, "0.00", "2.00", "1.00");
    overlay_viewer(&mut frame, s, info, &light, &anim);
    frame.to_text()
}

#[test]
fn open_menu_draws_a_panel_over_the_render() {
    let mut s = state();
    assert!(!drawn(&s, 60, &info("cube", 12, None)).contains("Light menu"));
    s.on_key(char_key('l')); // open the menu
    assert!(
        drawn(&s, 60, &info("cube", 12, None)).contains("Light menu"),
        "the modal menu panel must be drawn while open"
    );
}

#[test]
fn anim_menu_opens_and_routes_keys_while_freezing_the_camera() {
    let mut s = state_with_anim();
    let orbits = |c: Option<ViewCommand>| matches!(c, Some(ViewCommand::Orbit(_, _)));
    // Closed: arrows orbit the camera; playback keys are not intercepted.
    let (action, command) = s.on_key(key(KeyCode::Right));
    assert_eq!(action, KeyAction::Redraw);
    assert!(orbits(command), "closed menu orbits camera");
    // `A` opens the modal animation menu.
    assert_eq!(s.on_key(char_key('a')).0, KeyAction::Redraw);
    assert!(s.anim.menu_open);
    // Open: arrows scrub/select; the camera orbit is frozen.
    let (action, command) = s.on_key(key(KeyCode::Right));
    assert_eq!(action, KeyAction::Redraw);
    assert!(
        !orbits(command),
        "camera must not orbit while the menu is open"
    );
    // `Esc` closes; arrows orbit the camera again.
    assert_eq!(s.on_key(key(KeyCode::Esc)).0, KeyAction::Redraw);
    assert!(!s.anim.menu_open);
    assert!(
        orbits(s.on_key(key(KeyCode::Left)).1),
        "camera orbits after close"
    );
}

#[test]
fn anim_play_pause_loop_scrub_and_select_under_a_mock_clock() {
    let mut s = state_with_anim();
    carry_out(&mut s, char_key('a')); // open

    // Defaults: playing + looping, clip 0 ("walk", 2.0s).
    assert!(s.anim.playing && s.anim.looping);
    assert_eq!(s.anim.selected, 0);
    // A mock clock tick advances time while playing.
    assert!(advance(&mut s.anim, 0.5), "playing advances");
    assert!((float(s.anim.time) - 0.5).abs() < 1e-6);
    // Space pauses: ticks no longer advance.
    carry_out(&mut s, char_key(' '));
    assert!(!s.anim.playing);
    assert!(!advance(&mut s.anim, 0.5), "paused does not advance");
    assert!((float(s.anim.time) - 0.5).abs() < 1e-6);
    // Resume and wrap past the 2.0s duration (loop on).
    carry_out(&mut s, char_key(' '));
    assert!(advance(&mut s.anim, 2.0)); // 0.5 + 2.0 = 2.5 -> wraps to 0.5
    assert!(
        (float(s.anim.time) - 0.5).abs() < 1e-5,
        "loop wraps the clock"
    );
    // Turning loop off and running past the end clamps and pauses.
    carry_out(&mut s, char_key('l'));
    assert!(!s.anim.looping);
    advance(&mut s.anim, 10.0);
    assert!((float(s.anim.time) - 2.0).abs() < 1e-5, "clamps at duration");
    assert!(!s.anim.playing, "non-looping playback pauses at the end");
    // Scrub moves the clock without playing.
    carry_out(&mut s, key(KeyCode::Left));
    assert!(float(s.anim.time) < 2.0, "left scrubs backwards");
    // Up/Down selects another clip and resets the clock.
    carry_out(&mut s, key(KeyCode::Down));
    assert_eq!(s.anim.selected, 1, "Down selects the next clip");
    assert_eq!(float(s.anim.time), 0.0, "selecting resets the clock");
    assert_eq!(s.anim.current_name(), Some("jump"));
}

#[test]
fn anim_speed_clamps_and_reset_restores_defaults() {
    let mut s = state_with_anim();
    carry_out(&mut s, char_key('a'));
    for _ in 0..50 {
        carry_out(&mut s, char_key('+'));
    }
    assert!((float(s.anim.speed) - 8.0).abs() < 1e-6, "speed clamps high");
    for _ in 0..100 {
        carry_out(&mut s, char_key('-'));
    }
    assert!((float(s.anim.speed) - 0.25).abs() < 1e-6, "speed clamps low");
    carry_out(&mut s, key(KeyCode::Right)); // move the clock
    carry_out(&mut s, char_key('r'));
    assert_eq!(float(s.anim.time), 0.0);
    assert!(
        (float(s.anim.speed) - 1.0).abs() < 1e-6,
        "reset restores 1x speed"
    );
}

#[test]
fn no_animations_menu_reports_none_and_does_not_crash() {
    let mut s = state(); // disabled animations
    assert_eq!(s.on_key(char_key('a')).0, KeyAction::Redraw);
    assert!(s.anim.menu_open);
    assert!(
        drawn(&s, 60, &None).contains("no animations in this file"),
        "the menu must report the absence of animations"
    );
    // Playback keys are inert, no panic.
    assert!(!advance(&mut s.anim, 1.0));
    assert_eq!(s.on_key(char_key(' ')).0, KeyAction::Ignore);
}

#[test]
fn open_anim_menu_draws_panel_and_status_shows_clip_and_loop() {
    let mut s = state_with_anim();
    s.on_key(char_key('a'));
    let text = drawn(&s, 120, &info("walker.glb", 12, None));
    assert!(text.contains("Animation menu"), "menu panel drawn");
    assert!(text.contains("anim:walk"), "status shows the clip name");
    assert!(text.contains("loop"), "status shows the loop state");
}

#[test]
fn clip_selection_wraps_both_ways() {
    let mut a = clips();
    a.select(-1);
    assert_eq!(a.selected, 1);
    a.select(1);
    assert_eq!(a.selected, 0);
    a.select(i32::MIN);
    assert_eq!(a.selected, 0);
    assert_eq!(a.count(), 2);
    assert!(a.enabled() && a.is_playing());
    assert!(!a.current_skinned());
}

#[test]
fn animation_infos_become_clips() {
    let infos = [AnimationInfo {
        name: "walk".to_string(),
        duration: single(2.0),
        skinned: true,
    }];
    let a = anim_state_for(Some(&infos));
    assert_eq!(a.current_name(), Some("walk"));
    assert_eq!(a.current_duration(), single(2.0));
    assert!(a.current_skinned());
    assert!(!anim_state_for(None).enabled());
}

/// The triangle count that the request of the settings comes to.
fn target(total: usize, s: &Settings) -> Option<usize> {
    let asked = match s.simplify {
        Some(v) if is_ratio(v) => (total as f32 * float(v)).round() as usize,
        Some(v) => float(v).round() as usize,
        None => 0,
    };
    simplify_target(total, s, asked)
}

#[test]
fn auto_simplify_triggers_only_above_the_budget() {
    let s = settings(RenderOpts::default());
    let budget = s.simplify_budget;
    // At or below the budget: no simplification.
    assert_eq!(target(budget, &s), None);
    assert_eq!(target(budget / 2, &s), None);
    // Above the budget: target the budget.
    assert_eq!(target(budget + 1, &s), Some(budget));
    assert_eq!(target(budget * 5, &s), Some(budget));
}

#[test]
fn no_simplify_flag_disables_all_simplification() {
    // Even an explicit ratio is suppressed by --no-simplify.
    let s = settings(RenderOpts {
        simplify: Some(single(0.25)),
        no_simplify: true,
        ..RenderOpts::default()
    });
    assert_eq!(target(1_000_000, &s), None);
    assert!(!s.auto_simplify);
    assert_eq!(s.simplify, None);
}

fn simplifying(v: f32) -> Settings {
    settings(RenderOpts {
        simplify: Some(single(v)),
        ..RenderOpts::default()
    })
}

#[test]
fn explicit_ratio_targets_a_fraction_of_the_triangles() {
    let s = simplifying(0.25);
    // 0.25 of 800k -> ~200k.
    assert_eq!(target(800_000, &s), Some(200_000));
    // Ratio applies even below the auto budget.
    assert_eq!(target(1000, &s), Some(250));
}

#[test]
fn explicit_absolute_target_is_used_directly() {
    let s = simplifying(50_000.0);
    assert_eq!(target(705_000, &s), Some(50_000));
    // A target above the current count is returned as-is; it then simplifies nothing.
    assert_eq!(target(10_000, &s), Some(50_000));
    assert!(simplifies(705_000, Some(50_000)));
    assert!(!simplifies(10_000, Some(50_000)));
    assert!(!simplifies(10_000, None));
}

#[test]
fn nonpositive_simplify_value_is_ignored() {
    let s = simplifying(0.0);
    // Zero/negative falls through to auto (which is off below the budget).
    assert_eq!(target(1000, &s), None);
    assert_eq!(target(s.simplify_budget + 1, &s), Some(s.simplify_budget));
}

#[test]
fn status_bar_shows_simplified_counts() {
    let s = state();
    let text = drawn(&s, 80, &info("big.obj", 150_000, Some((705_000, 150_000))));
    assert!(
        text.contains("705000\u{2192}150000") && text.contains("simplified"),
        "status bar must surface the N->M simplification"
    );
}

#[test]
fn status_line_is_exact() {
    let s = state();
    assert_eq!(
        status_line(&s, &info("cube", 12, None).unwrap()),
        "cube | 12 tris | 30 fps | braille | flat | light:viewer"
    );
}

#[test]
fn upscaling_repeats_the_nearest_pixel() {
    let mut src = Framebuffer::new(2, 1);
    src.set(0, 0, Color::white());
    src.set(1, 0, Color::black());
    let mut dst = Framebuffer::new(4, 2);
    upscale_into(&src, &mut dst);
    for y in 0..2 {
        for x in 0..4 {
            let want = if x < 2 { Color::white() } else { Color::black() };
            assert_eq!(dst.get(x, y), want);
        }
    }
    assert_eq!(reduced_size(96, 96, 2), (48, 48));
    assert_eq!(reduced_size(1, 3, 2), (1, 1));
}

#[test]
fn view_loop_drops_to_low_resolution_while_interacting() {
    let mut s = state();
    let mut l = ViewLoop::new(Viewport::new(80, 24));
    assert!(l.dirty && l.downscale() == 1);
    assert_eq!(l.timeout_millis(false), 500);
    l.dirty = false;
    let step = l.on_event(&mut s, Event::Key(key(KeyCode::Right)));
    assert!(matches!(
        step,
        LoopStep::Continue(Some(ViewCommand::Orbit(_, _)))
    ));
    assert!(l.dirty && l.downscale() == 2);
    assert_eq!(l.timeout_millis(false), 120);
    assert_eq!(l.timeout_millis(true), 33);
    l.dirty = false;
    l.on_tick(false);
    assert!(l.dirty && l.downscale() == 1);
    l.dirty = false;
    l.on_tick(false);
    assert!(!l.dirty);
    assert_eq!(l.on_event(&mut s, Event::Key(char_key('q'))), LoopStep::Quit);
}

#[test]
fn encoder_color_needs_the_color_switch() {
    let mut s = state();
    assert_eq!(s.encoder_color(ColorMode::TrueColor), ColorMode::Off);
    s.on_key(char_key('c'));
    assert_eq!(s.encoder_color(ColorMode::TrueColor), ColorMode::TrueColor);
}

#[test]
fn mesh_files_need_a_path_and_say_what_failed() {
    assert_eq!(mesh_path(&Input::parse("a.obj")).unwrap(), "a.obj");
    assert!(mesh_path(&Input::Stdin).is_err());
    let c = load_failure(MeshFormat::Obj, "does-not-exist.obj", "gone".to_string());
    assert!(c.what.contains("loading OBJ"), "got: {}", c.what);
    assert_eq!(c.cause.as_deref(), Some("gone"));
}

#[test]
fn light_starts_at_its_defaults() {
    let l = LightState::new();
    assert_eq!(l.mode, LightMode::Viewer);
    assert!((float(l.azimuth) - 0.46).abs() < 1e-6);
    assert!(l.on && !l.menu_open);
    assert_eq!(LightMode::World.toggled(), LightMode::Viewer);
    assert_eq!(LightMode::World.name(), "world");
}

// --- Playback ---------------------------------------------------------------------------------

fn double(x: f64) -> Double {
    Double { bits: x.to_bits() }
}

fn value(d: Option<Double>) -> Option<f64> {
    d.map(|d| f64::from_bits(d.bits))
}

/// A source that records what the controller asks of it.
#[derive(Default)]
struct MockSource {
    total: usize,
    produced: usize,
    restarts: usize,
    seeks: Vec<bool>,
    pause_calls: Vec<bool>,
    can_seek: bool,
}

struct Player {
    controls: PlaybackController,
    source: MockSource,
}

impl Player {
    fn new(source: MockSource, fps: Option<f64>) -> Player {
        Player {
            controls: PlaybackController::new(fps.map(double)),
            source,
        }
    }

    fn advance(&mut self) -> bool {
        if !self.controls.advances() {
            return true;
        }
        if self.source.produced >= self.source.total {
            return false;
        }
        self.source.produced += 1;
        true
    }

    fn on_key(&mut self, k: KeyEvent) -> Outcome {
        let (outcome, command) = self.controls.on_key(k, self.source.can_seek);
        match command {
            None => {}
            Some(PlaybackCommand::SetPaused(p)) => self.source.pause_calls.push(p),
            Some(PlaybackCommand::Restart) => {
                self.source.restarts += 1;
                self.source.produced = 0;
            }
            Some(PlaybackCommand::Seek(forward)) => self.source.seeks.push(forward),
            Some(PlaybackCommand::RaiseFps) => self.adjust_fps(2.0),
            Some(PlaybackCommand::LowerFps) => self.adjust_fps(-2.0),
        }
        outcome
    }

    fn adjust_fps(&mut self, delta: f64) {
        let base = value(self.controls.override_fps()).unwrap_or(30.0);
        self.controls.set_fps(double((base + delta).clamp(1.0, 240.0)));
    }
}

fn mock(total: usize) -> MockSource {
    MockSource {
        total,
        ..MockSource::default()
    }
}

#[test]
fn advances_until_exhausted() {
    let mut c = Player::new(mock(3), None);
    let mut count = 0;
    while c.advance() {
        count += 1;
    }
    assert_eq!(count, 3);
}

#[test]
fn pause_holds_frames_then_resume_continues() {
    let mut c = Player::new(mock(5), None);
    // Space pauses: while paused, advance is a no-op that produces no source frame.
    assert_eq!(c.on_key(char_key(' ')), Outcome::Continue);
    assert!(c.controls.is_paused());
    assert!(c.advance(), "paused advance holds the frame");
    assert!(c.advance());
    // Space again resumes and asks the loop to reschedule promptly.
    assert_eq!(c.on_key(char_key(' ')), Outcome::Reschedule);
    assert!(!c.controls.is_paused());
    assert!(c.advance());
    // The source only advanced once (while playing); pause was toggled on then off.
    assert_eq!(c.source.produced, 1);
    assert_eq!(c.source.pause_calls, vec![true, false]);
}

#[test]
fn restart_resets_and_preserves_pause() {
    let mut c = Player::new(mock(3), None);
    c.advance();
    c.advance();
    assert_eq!(c.on_key(char_key('R')), Outcome::Redraw);
    assert_eq!(c.source.restarts, 1);
    assert_eq!(c.source.produced, 0);
    assert!(!c.controls.is_paused());
}

#[test]
fn seek_only_when_supported() {
    // A non-seekable source ignores arrow keys (keeps playing).
    let mut gif_like = Player::new(mock(1), None);
    assert_eq!(gif_like.on_key(key(KeyCode::Right)), Outcome::Continue);
    assert!(gif_like.source.seeks.is_empty());

    // A seekable source seeks and asks for a redraw at the new position.
    let mut video_like = Player::new(
        MockSource {
            can_seek: true,
            ..mock(100)
        },
        None,
    );
    assert_eq!(video_like.on_key(key(KeyCode::Right)), Outcome::Redraw);
    assert_eq!(video_like.on_key(key(KeyCode::Left)), Outcome::Redraw);
    assert_eq!(video_like.source.seeks, vec![true, false]);
}

#[test]
fn fps_keys_adjust_the_override_and_reschedule() {
    let mut c = Player::new(mock(1), Some(30.0));
    assert_eq!(c.on_key(char_key('+')), Outcome::Reschedule);
    assert_eq!(value(c.controls.override_fps()), Some(32.0));
    assert_eq!(c.on_key(char_key('-')), Outcome::Reschedule);
    assert_eq!(value(c.controls.override_fps()), Some(30.0));
    // fps never drops below the clamp floor.
    for _ in 0..1000 {
        c.on_key(char_key('-'));
    }
    assert_eq!(value(c.controls.override_fps()), Some(1.0));
}

#[test]
fn playback_viewer_quit_keys_report_quit() {
    let mut c = Player::new(MockSource::default(), None);
    assert_eq!(c.on_key(key(KeyCode::Esc)), Outcome::Quit);
    assert_eq!(c.on_key(char_key('q')), Outcome::Quit);
}

#[test]
fn f_toggles_the_options_bar() {
    let mut c = Player::new(MockSource::default(), None);
    assert!(c.controls.show_ui(), "bar is shown by default");
    assert_eq!(c.on_key(char_key('f')), Outcome::Redraw);
    assert!(!c.controls.show_ui(), "F hides the bar");
    assert_eq!(c.on_key(char_key('F')), Outcome::Redraw);
    assert!(c.controls.show_ui(), "F shows it again");
}

#[test]
fn playback_viewport_respects_width_and_bounds() {
    let s = settings(RenderOpts {
        width: Some(40),
        ..RenderOpts::default()
    });
    // Width fixes cols; rows scale to the terminal cell aspect (80x24 => 40x12).
    assert_eq!(
        playback_viewport(&s, Viewport::new(80, 24)),
        Viewport::new(40, 12)
    );
    // With no width, the full terminal bounds are used.
    let d = settings(RenderOpts::default());
    assert_eq!(
        playback_viewport(&d, Viewport::new(100, 30)),
        Viewport::new(100, 30)
    );
}

/// A 3-frame 2x2 GIF: full red (then cleared), green at (0,0), blue at (1,1).
const TEST_GIF_3FRAME: &[u8] = &[
    71, 73, 70, 56, 57, 97, 2, 0, 2, 0, 145, 0, 0, 0, 0, 0, 255, 0, 0, 0, 255, 0, 0, 0, 255, 33,
    255, 11, 78, 69, 84, 83, 67, 65, 80, 69, 50, 46, 48, 3, 1, 0, 0, 0, 33, 249, 4, 8, 10, 0, 0, 0,
    44, 0, 0, 0, 0, 2, 0, 2, 0, 0, 2, 2, 140, 83, 0, 33, 249, 4, 4, 20, 0, 0, 0, 44, 0, 0, 0, 0, 1,
    0, 1, 0, 0, 2, 2, 84, 1, 0, 33, 249, 4, 4, 30, 0, 0, 0, 44, 1, 0, 1, 0, 1, 0, 1, 0, 0, 2, 2,
    92, 1, 0, 59,
];

fn playback_settings() -> Settings {
    settings(RenderOpts {
        renderer: Some(Renderer::Ascii),
        dither: Some(DitherMode::Off),
        ..RenderOpts::default()
    })
}

type Gif = GifSource<fn(u32, u32) -> (usize, usize), fn(PixelSum) -> Single>;

/// Shows every canvas at a fixed size; the settings adjust nothing, so no sum is asked for.
fn gif_at(viewport: Viewport) -> Gif {
    let s = playback_settings();
    let (_, opts) = render_options(&s);
    let fit: fn(u32, u32) -> (usize, usize) = |_, _| (2, 2);
    let sums: fn(PixelSum) -> Single = |_| Single::zero();
    GifSource::from_bytes(
        TEST_GIF_3FRAME.to_vec(),
        viewport,
        opts,
        gif_loop(&s),
        fit,
        sums,
    )
    .unwrap()
}

#[test]
fn bundled_gif_plays_all_frames_in_order() {
    let mut src = gif_at(Viewport::new(2, 2));
    let mut fb = Framebuffer::new(0, 0);
    let mut frames = Vec::new();
    let mut delays = Vec::new();
    while src.next_frame(&mut fb).unwrap() {
        frames.push(fb.color().to_vec());
        delays.push(next_wait(None, src.frame_delay(), Span::from_millis(33)));
    }
    // Exactly three frames for a non-looping GIF, then exhausted (stays so).
    assert_eq!(frames.len(), 3, "the GIF has three frames");
    assert!(!src.next_frame(&mut fb).unwrap());
    assert!(!src.next_frame(&mut fb).unwrap());
    // Delays are in authored order: 100 / 200 / 300 ms.
    assert_eq!(
        delays,
        vec![
            Span::from_millis(100),
            Span::from_millis(200),
            Span::from_millis(300),
        ]
    );
    // Consecutive frames differ (the animation actually advances, in order).
    assert_ne!(frames[0], frames[1], "frame 0 -> 1 must change");
    assert_ne!(frames[1], frames[2], "frame 1 -> 2 must change");
}

#[test]
fn fps_override_replaces_native_delay() {
    let mut src = gif_at(Viewport::new(2, 2));
    let mut fb = Framebuffer::new(0, 0);
    src.next_frame(&mut fb).unwrap();
    // Native delay is 100 ms; a 50 fps override yields 20 ms regardless.
    let chosen = Span::from_nanos((1e9 / 50.0) as u64);
    assert_eq!(
        next_wait(Some(chosen), src.frame_delay(), Span::from_millis(33)),
        Span::from_millis(20)
    );
}

#[test]
fn gif_resize_recomputes_framebuffer_size() {
    // A resize mid-stream rebuilds the source at the new viewport; the reused framebuffer is
    // then sized to the new viewport's pixel field on the next frame.
    // The encoder is ascii: 1x1 subpixels.
    let mut fb = Framebuffer::new(0, 0);
    for (cols, rows) in [(8, 4), (16, 6)] {
        let viewport = Viewport::new(cols, rows);
        let mut src = gif_at(viewport);
        assert!(src.next_frame(&mut fb).unwrap());
        assert_eq!((fb.width(), fb.height()), (cols as usize, rows as usize));
    }
}

#[test]
fn pictures_come_without_a_target() {
    let mut src = gif_at(Viewport::new(2, 2));
    let image = src.next_picture().unwrap().unwrap();
    assert_eq!((image.width(), image.height()), (2, 2));
    assert_eq!(image.rgba_at(0, 0), Some((255, 0, 0, 255)));
}

#[test]
fn a_forced_frame_freezes_the_source_again() {
    let mut c = PlaybackController::new(None);
    let ok: Result<(), &str> = Ok(());
    assert_eq!(c.forced_result(ok, Ok(true), Err("unused")), Ok(true));
    c.paused = true;
    assert_eq!(
        c.force_frame(),
        vec![
            FrameStep::SetPaused(false),
            FrameStep::NextFrame,
            FrameStep::SetPaused(true)
        ]
    );
    assert_eq!(c.forced_result(ok, Err("frame"), ok), Err("frame"));
    assert_eq!(c.forced_result(ok, Err("frame"), Err("freeze")), Err("freeze"));
    assert_eq!(c.forced_result(Err("resume"), Ok(true), ok), Err("resume"));
    assert_eq!(c.forced_result(ok, Ok(false), ok), Ok(false));
}

#[test]
fn waits_prefer_the_chosen_rate() {
    let ms = Span::from_millis;
    assert_eq!(next_wait(Some(ms(20)), Some(ms(100)), ms(33)), ms(20));
    assert_eq!(next_wait(None, Some(ms(100)), ms(33)), ms(100));
    assert_eq!(next_wait(None, None, ms(33)), ms(33));
}

#[test]
fn seeking_moves_five_seconds() {
    let at = Span::from_secs;
    assert_eq!(seek_target(at(7), true), at(12));
    assert_eq!(seek_target(at(7), false), at(2));
    assert_eq!(seek_target(at(3), false), at(0));
}

#[test]
fn paused_frames_are_forced_by_a_short_resume() {
    let mut c = PlaybackController::new(None);
    assert_eq!(c.force_frame(), vec![FrameStep::NextFrame]);
    c.on_key(char_key(' '), false);
    assert_eq!(
        c.force_frame(),
        vec![
            FrameStep::SetPaused(false),
            FrameStep::NextFrame,
            FrameStep::SetPaused(true)
        ]
    );
}

#[test]
fn pacing_sleeps_until_the_next_frame() {
    let ms = |n: u128| n * 1_000_000;
    let mut p = Pacing { next_due: ms(50) };
    assert_eq!(p.timeout(ms(20), false), ms(30));
    assert_eq!(p.timeout(ms(60), false), 0);
    assert_eq!(p.timeout(ms(20), true), POLL_NANOS);
    assert!(p.due(ms(50), false) && !p.due(ms(49), false) && !p.due(ms(50), true));
    assert_eq!(
        p.after_frame(ms(50), Span::from_millis(500), true, false),
        DueStep::Present
    );
    assert_eq!(p.next_due, ms(550));
    assert_eq!(p.timeout(ms(50), false), POLL_NANOS);
    assert_eq!(
        p.after_frame(ms(60), Span::zero(), false, true),
        DueStep::Restart
    );
    assert!(p.due(ms(60), false));
    assert_eq!(
        p.after_frame(ms(60), Span::zero(), false, false),
        DueStep::End
    );
    p.schedule(ms(70), Span::from_millis(5));
    assert_eq!(p.next_due, ms(75));
    p.reschedule(ms(71));
    assert_eq!(p.next_due, ms(71));
}

#[test]
fn playback_bar_shows_rate_and_pause() {
    let mut c = PlaybackController::new(Some(double(24.0)));
    c.on_key(char_key(' '), false);
    let mut frame = TerminalFrame::new(80, 3);
    overlay_status(&mut frame, &c, &gif_status("a.gif"), "24");
    let text = frame.to_text();
    let lines: Vec<&str> = text.lines().collect();
    assert!(lines[1].starts_with("a.gif | gif | 24 fps | paused"));
    assert!(lines[2].starts_with("space:pause"));
}

#[test]
fn playback_needs_a_file() {
    assert_eq!(file_path(&Input::parse("a.gif"), "GIFs").unwrap(), "a.gif");
    assert!(file_path(&Input::Stdin, "GIFs")
        .unwrap_err()
        .what
        .starts_with("reading GIFs from stdin"));
    assert_eq!(gif_loop(&settings(RenderOpts::default())), GifLoop::Once);
}
