//! Colours, framebuffers, character grids, lines and frame animations.

use rgfx::animation::{Animation, AnimationPlayer, Frame, LoopPolicy, Sprite};
use rgfx::color::Color;
use rgfx::error::Error;
use rgfx::framebuffer::{depth_far, Framebuffer};
use rgfx::line::draw_line;
use rgfx::single::Single;
use rgfx::source::FrameSource;
use rgfx::span::Span;
use rgfx::terminal_frame::{Cell, TerminalFrame};
use rgfx::viewport::Viewport;

fn single(x: f32) -> Single {
    Single::from_bits(x.to_bits())
}

fn float(x: Single) -> f32 {
    f32::from_bits(x.to_bits())
}

fn grey(luma: f32) -> Color {
    Color::rgb(single(luma), single(luma), single(luma))
}

fn luma(c: Color) -> f32 {
    0.299 * float(c.r) + 0.587 * float(c.g) + 0.114 * float(c.b)
}

// --- Errors -----------------------------------------------------------------------------------

#[test]
fn io_error_converts() {
    let e: Error = std::io::Error::new(std::io::ErrorKind::NotFound, "nope").into();
    assert!(matches!(e, Error::Io(_)));
    assert!(e.message().contains("io error"));
}

#[test]
fn io_error_keeps_its_text() {
    let e: Error = std::io::Error::new(std::io::ErrorKind::NotFound, "nope").into();
    assert_eq!(e.message(), "io error: nope");
}

#[test]
fn display_messages_are_prefixed() {
    assert_eq!(
        Error::Unsupported("xyz".into()).message(),
        "unsupported format: xyz"
    );
}

#[test]
fn every_error_names_its_kind() {
    assert_eq!(Error::Io("a".into()).message(), "io error: a");
    assert_eq!(Error::Decode("b".into()).message(), "decode error: b");
    assert_eq!(Error::Geometry("c".into()).message(), "invalid geometry: c");
    assert_eq!(Error::External("d".into()).message(), "external tool error: d");
    assert_eq!(Error::Config("e".into()).message(), "configuration error: e");
}

// --- Colours ----------------------------------------------------------------------------------

#[test]
fn every_level_is_the_nearest_single() {
    for k in 0..=255u8 {
        let c = Color::from_u8(k, k, k, 255);
        assert_eq!(float(c.r), k as f32 / 255.0, "level {k}");
        assert_eq!(float(c.a), 1.0);
    }
}

#[test]
fn u8_round_trip() {
    let c = Color::from_u8(255, 128, 0, 255);
    let q = |v: Single| (float(v).clamp(0.0, 1.0) * 255.0).round() as u8;
    assert_eq!((q(c.r), q(c.g), q(c.b), q(c.a)), (255, 128, 0, 255));
}

#[test]
fn channels_keep_their_places() {
    let c = Color::from_u8(255, 128, 0, 255);
    assert_eq!(float(c.r), 1.0);
    assert_eq!(float(c.g), 128.0 / 255.0);
    assert_eq!(float(c.b), 0.0);
    assert_eq!(float(c.a), 1.0);
}

#[test]
fn clamping_bounds_every_channel() {
    let c = Color::new(single(2.0), single(-1.0), single(0.5), single(1.0)).clamped();
    assert_eq!(float(c.r), 1.0);
    assert_eq!(float(c.g), 0.0);
    assert_eq!(float(c.b), 0.5);
    assert_eq!(float(c.a), 1.0);
    let nan = Color::rgb(single(f32::NAN), single(0.0), single(0.0)).clamped();
    assert!(nan.r.nan());
}

#[test]
fn order_of_singles_is_the_order_of_values() {
    let values = [
        f32::NEG_INFINITY,
        -2.5,
        -1e-40,
        -0.0,
        0.0,
        1e-40,
        0.5,
        1.0,
        f32::INFINITY,
        f32::NAN,
    ];
    for &a in &values {
        for &b in &values {
            assert_eq!(single(a).le(single(b)), a <= b, "{a} <= {b}");
            assert_eq!(single(a).lt(single(b)), a < b, "{a} < {b}");
            assert_eq!(single(a).equals(single(b)), a == b, "{a} == {b}");
        }
    }
}

#[test]
fn dyadic_numbers_are_exact() {
    for k in [1u32, 2, 3, 7, 100, 255, 511] {
        for scale in [0u32, 1, 4, 9, 40] {
            let d = Single::dyadic(k, scale);
            assert_eq!(float(d), k as f32 / 2f32.powi(scale as i32), "{k}/2^{scale}");
        }
    }
}

// --- Viewports --------------------------------------------------------------------------------

#[test]
fn viewport_render_size_matches_subpixels() {
    let vp = Viewport::new(100, 40);
    assert_eq!(vp.render_size(2, 4), (200, 160));
    assert_eq!(vp.render_size(1, 1), (100, 40));
}

// --- Framebuffers -----------------------------------------------------------------------------

#[test]
fn new_clears_to_transparent_and_far() {
    let fb = Framebuffer::new(3, 2);
    assert_eq!(fb.width(), 3);
    assert_eq!(fb.height(), 2);
    assert_eq!(fb.len(), 6);
    assert!(fb.color().iter().all(|c| *c == Color::transparent()));
    assert!(fb.depth().iter().all(|d| *d == depth_far()));
}

#[test]
fn set_get_round_trip_row_major() {
    let mut fb = Framebuffer::new(4, 4);
    fb.set(1, 2, Color::white());
    assert_eq!(fb.get(1, 2), Color::white());
    // row-major: (1,2) is index 2*4 + 1 = 9
    assert_eq!(fb.color()[9], Color::white());
}

#[test]
fn clear_resets_color_and_depth() {
    let mut fb = Framebuffer::new(2, 2);
    fb.set(0, 0, Color::white());
    fb.depth_mut()[0] = single(0.25);
    fb.clear(Color::black());
    assert!(fb.color().iter().all(|c| *c == Color::black()));
    assert!(fb.depth().iter().all(|d| *d == depth_far()));
}

#[test]
fn zero_sized_is_allowed() {
    let fb = Framebuffer::new(0, 0);
    assert!(fb.is_empty());
    assert!(!fb.in_bounds(0, 0));
}

#[test]
fn resizing_keeps_the_leading_pixels() {
    let mut fb = Framebuffer::new(2, 2);
    fb.clear(Color::white());
    fb.resize(3, 2);
    assert_eq!((fb.width(), fb.height(), fb.len()), (3, 2, 6));
    assert_eq!(drawn(&fb), vec![(0, 0), (0, 1), (1, 0), (2, 0)]);
    assert_eq!(fb.depth()[5], depth_far());
    fb.resize(1, 1);
    assert_eq!(fb.len(), 1);
}

#[test]
fn duplicate_holds_the_same_pixels() {
    let mut fb = Framebuffer::new(2, 1);
    fb.set(1, 0, grey(0.5));
    fb.depth_mut()[0] = single(0.125);
    let copy = fb.duplicate();
    assert_eq!(copy.color(), fb.color());
    assert_eq!(copy.depth(), fb.depth());
    assert_eq!((copy.width(), copy.height()), (2, 1));
}

#[test]
fn planes_are_writable_in_place() {
    let mut fb = Framebuffer::new(2, 2);
    fb.color_mut()[3] = Color::black();
    assert_eq!(fb.get(1, 1), Color::black());
    assert_eq!(fb.get(0, 0), Color::transparent());
}

// --- Character grids --------------------------------------------------------------------------

#[test]
fn new_frame_is_blank() {
    let f = TerminalFrame::new(3, 2);
    assert_eq!(f.cols(), 3);
    assert_eq!(f.rows(), 2);
    assert!(f.cells().iter().all(|c| c.ch == ' '));
}

#[test]
fn set_get_and_to_text() {
    let mut f = TerminalFrame::new(2, 2);
    f.set(0, 0, Cell::glyph('a'));
    f.set(1, 0, Cell::glyph('b'));
    f.set(0, 1, Cell::glyph('c'));
    f.set(1, 1, Cell::glyph('d'));
    assert_eq!(f.get(1, 0).ch, 'b');
    assert_eq!(f.to_text(), "ab\ncd");
}

#[test]
fn resize_changes_dimensions() {
    let mut f = TerminalFrame::new(2, 2);
    f.resize(4, 1);
    assert_eq!((f.cols(), f.rows()), (4, 1));
    assert_eq!(f.cells().len(), 4);
}

#[test]
fn empty_frame_has_no_text() {
    assert_eq!(TerminalFrame::default().to_text(), "");
    assert_eq!(TerminalFrame::new(0, 3).to_text(), "\n\n");
}

#[test]
fn colored_cell_has_a_foreground_only() {
    let c = Cell::colored('x', Color::white());
    assert_eq!(c.ch, 'x');
    assert_eq!(c.fg, Some(Color::white()));
    assert_eq!(c.bg, None);
    assert_eq!(Cell::default(), Cell::glyph(' '));
}

// --- Lines ------------------------------------------------------------------------------------

/// Collects the set of pixels with non-zero alpha, as `(x, y)` pairs.
fn drawn(fb: &Framebuffer) -> Vec<(usize, usize)> {
    let mut out = Vec::new();
    for y in 0..fb.height() {
        for x in 0..fb.width() {
            if fb.get(x, y).visible() {
                out.push((x, y));
            }
        }
    }
    out.sort_unstable();
    out
}

fn draw(fb: &mut Framebuffer, a: (i32, i32), b: (i32, i32)) {
    draw_line(fb, a.0, a.1, b.0, b.1, Color::white());
}

#[test]
fn horizontal_line_exact_pixels() {
    let mut fb = Framebuffer::new(8, 8);
    draw(&mut fb, (1, 3), (5, 3));
    assert_eq!(drawn(&fb), vec![(1, 3), (2, 3), (3, 3), (4, 3), (5, 3)]);
}

#[test]
fn horizontal_line_is_direction_agnostic() {
    let mut a = Framebuffer::new(8, 8);
    let mut b = Framebuffer::new(8, 8);
    draw(&mut a, (1, 3), (5, 3));
    draw(&mut b, (5, 3), (1, 3));
    assert_eq!(
        drawn(&a),
        drawn(&b),
        "endpoint order must not change the pixels"
    );
}

#[test]
fn vertical_line_exact_pixels() {
    let mut fb = Framebuffer::new(8, 8);
    draw(&mut fb, (2, 1), (2, 4));
    assert_eq!(drawn(&fb), vec![(2, 1), (2, 2), (2, 3), (2, 4)]);
}

#[test]
fn diagonal_line_exact_pixels() {
    let mut fb = Framebuffer::new(8, 8);
    draw(&mut fb, (0, 0), (4, 4));
    assert_eq!(
        drawn(&fb),
        vec![(0, 0), (1, 1), (2, 2), (3, 3), (4, 4)],
        "a 45-degree line steps one pixel diagonally each iteration"
    );
}

#[test]
fn steep_line_exact_pixels() {
    // Slope steeper than 45 degrees: Y advances faster than X, so several pixels share an X.
    let mut fb = Framebuffer::new(8, 8);
    draw(&mut fb, (0, 0), (2, 5));
    assert_eq!(
        drawn(&fb),
        vec![(0, 0), (0, 1), (1, 2), (1, 3), (2, 4), (2, 5)]
    );
}

#[test]
fn single_point_line_plots_one_pixel() {
    let mut fb = Framebuffer::new(8, 8);
    draw(&mut fb, (3, 3), (3, 3));
    assert_eq!(drawn(&fb), vec![(3, 3)]);
}

#[test]
fn partially_offscreen_line_clips_without_oob() {
    // Left endpoint is off-screen; only the in-bounds pixels are written.
    let mut fb = Framebuffer::new(5, 5);
    draw(&mut fb, (-3, 2), (2, 2));
    assert_eq!(drawn(&fb), vec![(0, 2), (1, 2), (2, 2)]);
}

#[test]
fn vertical_line_clips_at_top_and_bottom() {
    let mut fb = Framebuffer::new(5, 5);
    draw(&mut fb, (2, -3), (2, 7));
    assert_eq!(drawn(&fb), vec![(2, 0), (2, 1), (2, 2), (2, 3), (2, 4)]);
}

#[test]
fn fully_offscreen_line_draws_nothing() {
    let mut fb = Framebuffer::new(5, 5);
    draw(&mut fb, (-10, -10), (-4, -1));
    assert!(drawn(&fb).is_empty());
    draw(&mut fb, (10, 0), (20, 4));
    assert!(drawn(&fb).is_empty());
}

#[test]
fn extreme_coordinates_do_not_panic() {
    // A segment that crosses the whole small viewport with large endpoints must terminate and
    // stay in bounds.
    let mut fb = Framebuffer::new(4, 4);
    draw(&mut fb, (-1000, -1000), (1000, 1000));
    // The main diagonal is covered; every written pixel is in bounds (guaranteed by `drawn`).
    assert!(fb.get(0, 0).visible());
    assert!(fb.get(3, 3).visible());
}

#[test]
fn zero_sized_framebuffer_is_a_noop() {
    let mut fb = Framebuffer::new(0, 0);
    draw(&mut fb, (0, 0), (5, 5)); // must not panic
    assert!(fb.is_empty());
}

#[test]
fn line_stays_inside_the_box_of_its_ends() {
    let mut fb = Framebuffer::new(16, 16);
    draw(&mut fb, (12, 3), (2, 9));
    let pixels = drawn(&fb);
    assert!(pixels.contains(&(12, 3)) && pixels.contains(&(2, 9)));
    for (x, y) in pixels {
        assert!((2..=12).contains(&x) && (3..=9).contains(&y));
    }
}

// --- Frame sources ----------------------------------------------------------------------------

/// A trivial source that fills the framebuffer white for a fixed number of frames.
struct SolidSource {
    remaining: usize,
}

impl FrameSource for SolidSource {
    fn ready(&self) -> bool {
        true
    }

    fn next_frame(&mut self, target: &mut Framebuffer) -> Result<bool, Error> {
        if self.remaining == 0 {
            return Ok(false);
        }
        self.remaining -= 1;
        target.clear(Color::white());
        Ok(true)
    }

    fn frame_delay(&self) -> Option<Span> {
        Some(Span::from_millis(10))
    }
}

#[test]
fn frame_source_drives_a_reused_framebuffer() {
    let mut fb = Framebuffer::new(2, 2);
    let mut src: Box<dyn FrameSource> = Box::new(SolidSource { remaining: 2 });
    assert!(src.next_frame(&mut fb).unwrap());
    assert_eq!(fb.get(0, 0), Color::white());
    assert!(src.next_frame(&mut fb).unwrap());
    assert!(!src.next_frame(&mut fb).unwrap());
    assert_eq!(src.frame_delay(), Some(Span::from_millis(10)));
}

// --- Animations -------------------------------------------------------------------------------

/// A one-pixel framebuffer whose single pixel carries `luma` (used to identify frames).
fn dot(luma: f32) -> Framebuffer {
    let mut fb = Framebuffer::new(1, 1);
    fb.set(0, 0, grey(luma));
    fb
}

fn frame(luma: f32, ms: u64) -> Frame {
    Frame::new(dot(luma), Span::from_millis(ms))
}

fn three_frames(policy: LoopPolicy) -> AnimationPlayer {
    let anim = Animation::new(
        vec![frame(0.1, 100), frame(0.2, 100), frame(0.3, 100)],
        policy,
    )
    .unwrap();
    AnimationPlayer::new(anim)
}

#[test]
fn empty_animation_is_rejected() {
    assert!(Animation::new(vec![], LoopPolicy::Loop).is_err());
}

#[test]
fn zero_duration_frame_is_rejected() {
    let bad = Frame::new(dot(1.0), Span::zero());
    assert!(Animation::new(vec![bad], LoopPolicy::Loop).is_err());
}

#[test]
fn total_duration_sums_frames() {
    let p = three_frames(LoopPolicy::Loop);
    assert_eq!(p.animation().total_duration(), Span::from_millis(300));
}

#[test]
fn advance_stays_within_a_frame() {
    let mut p = three_frames(LoopPolicy::Loop);
    p.advance(Span::from_millis(50));
    assert_eq!(p.current_index(), 0);
    p.advance(Span::from_millis(49));
    assert_eq!(p.current_index(), 0);
}

#[test]
fn advance_crosses_frame_boundaries_deterministically() {
    let mut p = three_frames(LoopPolicy::Loop);
    // Exactly one frame boundary.
    p.advance(Span::from_millis(100));
    assert_eq!(p.current_index(), 1);
    // Cross two more (index 1 -> 2 -> 0 with 10ms carried into frame 0).
    p.advance(Span::from_millis(210));
    assert_eq!(p.current_index(), 0);
}

#[test]
fn loop_wraps_around() {
    let mut p = three_frames(LoopPolicy::Loop);
    p.advance(Span::from_millis(300));
    assert_eq!(p.current_index(), 0);
    assert!(!p.is_finished());
}

#[test]
fn once_finishes_after_last_frame() {
    let mut p = three_frames(LoopPolicy::Once);
    p.advance(Span::from_millis(250));
    assert_eq!(p.current_index(), 2);
    assert!(!p.is_finished());
    // Consume the final frame's remaining 50ms and one more tick.
    p.advance(Span::from_millis(60));
    assert!(p.is_finished());
    // Further advancing is a no-op.
    p.advance(Span::from_millis(1000));
    assert_eq!(p.current_index(), 2);
}

#[test]
fn ping_pong_bounces() {
    let mut p = three_frames(LoopPolicy::PingPong);
    let indices: Vec<usize> = (0..6)
        .map(|_| {
            p.advance(Span::from_millis(100));
            p.current_index()
        })
        .collect();
    // 0 ->1->2->1->0->1->2
    assert_eq!(indices, vec![1, 2, 1, 0, 1, 2]);
    assert!(!p.is_finished());
}

#[test]
fn next_frame_renders_current_and_steps_one_frame() {
    let mut p = three_frames(LoopPolicy::Loop);
    let mut fb = Framebuffer::new(1, 1);

    assert!(p.next_frame(&mut fb).unwrap());
    assert!((luma(fb.get(0, 0)) - 0.1).abs() < 1e-6, "first frame rendered");
    assert_eq!(p.current_index(), 1, "stepped one whole frame");

    assert!(p.next_frame(&mut fb).unwrap());
    assert!((luma(fb.get(0, 0)) - 0.2).abs() < 1e-6);
    assert_eq!(p.current_index(), 2);
}

#[test]
fn next_frame_reports_exhaustion_for_once() {
    let mut p = three_frames(LoopPolicy::Once);
    let mut fb = Framebuffer::new(1, 1);
    // Three frames each render once and return Ok(true).
    for _ in 0..3 {
        assert!(p.next_frame(&mut fb).unwrap());
    }
    assert!(p.is_finished());
    assert!(
        !p.next_frame(&mut fb).unwrap(),
        "exhausted after last frame"
    );
    assert_eq!(p.frame_delay(), None);
}

#[test]
fn frame_delay_reports_time_left_in_frame() {
    let mut p = three_frames(LoopPolicy::Loop);
    assert_eq!(p.frame_delay(), Some(Span::from_millis(100)));
    p.advance(Span::from_millis(30));
    assert_eq!(p.frame_delay(), Some(Span::from_millis(70)));
}

#[test]
fn reset_returns_to_start() {
    let mut p = three_frames(LoopPolicy::Once);
    p.advance(Span::from_millis(1000));
    assert!(p.is_finished());
    p.reset();
    assert_eq!(p.current_index(), 0);
    assert!(!p.is_finished());
}

#[test]
fn sprite_blit_composites_and_clips() {
    let mut sprite_fb = Framebuffer::new(2, 2);
    sprite_fb.set(0, 0, Color::white());
    sprite_fb.set(1, 1, Color::white());
    let sprite = Sprite::new(sprite_fb);
    assert_eq!((sprite.width(), sprite.height()), (2, 2));

    let mut target = Framebuffer::new(3, 3);
    sprite.blit(&mut target, 1, 1);
    // (1,1) and (2,2) become white; transparent source pixels leave target untouched.
    assert_eq!(target.get(1, 1), Color::white());
    assert_eq!(target.get(2, 2), Color::white());
    assert_eq!(target.get(1, 2), Color::transparent());
}

#[test]
fn next_frame_clears_target_before_blitting() {
    // A target larger than the 1x1 frame must not retain stale pixels outside the frame.
    let mut p = three_frames(LoopPolicy::Loop);
    let mut fb = Framebuffer::new(2, 2);
    fb.set(1, 1, Color::white());
    p.next_frame(&mut fb).unwrap();
    assert_eq!(fb.get(1, 1), Color::transparent(), "stale pixel cleared");
}

#[test]
fn sprite_past_the_edge_is_clipped() {
    let mut sprite_fb = Framebuffer::new(2, 2);
    sprite_fb.clear(Color::white());
    let sprite = Sprite::new(sprite_fb);
    let mut target = Framebuffer::new(2, 2);
    sprite.blit(&mut target, 1, 1);
    assert_eq!(drawn(&target), vec![(1, 1)]);
    sprite.blit(&mut target, 7, 0);
    assert_eq!(drawn(&target), vec![(1, 1)]);
}

#[test]
fn frame_from_sprite_copies_its_pixels() {
    let sprite = Sprite::new(dot(0.75));
    let f = Frame::from_sprite(&sprite, Span::from_millis(5));
    assert_eq!(f.image().get(0, 0), grey(0.75));
    assert_eq!(f.duration(), Span::from_millis(5));
}

#[test]
fn advancing_twice_is_advancing_by_the_sum() {
    for policy in [LoopPolicy::Once, LoopPolicy::Loop, LoopPolicy::PingPong] {
        for (a, b) in [(30u64, 80u64), (250, 400), (0, 100), (1234, 4321)] {
            let mut twice = three_frames(policy);
            twice.advance(Span::from_millis(a));
            twice.advance(Span::from_millis(b));
            let mut once = three_frames(policy);
            once.advance(Span::from_millis(a + b));
            assert_eq!(twice.current_index(), once.current_index());
            assert_eq!(twice.is_finished(), once.is_finished());
            assert_eq!(twice.frame_delay(), once.frame_delay());
        }
    }
}

#[test]
fn single_frame_ping_pong_stays_put() {
    let anim = Animation::new(vec![frame(0.5, 10)], LoopPolicy::PingPong).unwrap();
    assert_eq!(anim.len(), 1);
    assert!(!anim.is_empty());
    let mut p = AnimationPlayer::new(anim);
    p.advance(Span::from_millis(35));
    assert_eq!(p.current_index(), 0);
    assert_eq!(p.frame_delay(), Some(Span::from_millis(5)));
    assert!(!p.is_finished());
}

#[test]
fn spans_convert_between_units() {
    assert_eq!(Span::from_secs(2), Span::from_millis(2000));
    assert_eq!(Span::from_millis(3), Span::from_nanos(3_000_000));
    assert!(Span::zero().is_zero());
    assert_eq!(
        Span::from_millis(5).saturating_sub(Span::from_millis(7)),
        Span::zero()
    );
    assert_eq!(
        Span::from_millis(7).saturating_sub(Span::from_millis(5)),
        Span::from_millis(2)
    );
}
