//! Media detection, settings, dispatch, streams, reports, widgets and Blender exports.

use ratatui::buffer::Buffer;
use ratatui::layout::Rect;
use ratatui::style::Color as Tint;
use rgfx::anim::AnimationInfo;
use rgfx::blend::{
    check_export, export_args, export_script, launch_failure, missing_blend, output_tail,
};
use rgfx::cli::{plan, Action, Command, DitherMode, RenderOpts, Renderer, Shading};
use rgfx::color::Color;
use rgfx::config::{
    config_path, Config, ImageConfig, Settings, ThreeDConfig, DEFAULT_SIMPLIFY_BUDGET,
};
use rgfx::decode::doctest_png;
use rgfx::decode::DecodedImage;
use rgfx::dispatch::{
    check_piped, check_renderable, check_stdin_kind, describe_kind, image_path, video_unavailable,
    viewer_for, viewer_label,
};
use rgfx::error::{Complaint, Error};
use rgfx::framebuffer::Framebuffer;
use rgfx::info::{
    animation_summaries, gif_report, image_report, mesh_report, stdin_report, unknown_error,
    video_report, FigureTexts, MeshFacts, Probe, Report, StdinReport,
};
use rgfx::media::{detect, detect_bytes, Input, MediaKind, MeshFormat};
use rgfx::playback_viewer::Double;
use rgfx::single::Single;
use rgfx::stream::{
    blit_rgb24, fit_viewport, parse_header, stream_limits, FrameReader, FrameStatus,
    StdinFrameSource, StreamEncoder, BYTES_PER_PIXEL,
};
use rgfx::terminal::{
    is_quit, signal_for, Event, KeyCode, KeyEvent, KeyModifiers, MouseEvent, MouseEventKind, Signal,
};
use rgfx::terminal_frame::{Cell, TerminalFrame};
use rgfx::text::{decimal_string, to_lower};
use rgfx::viewer_chrome::{overlay_bottom_bar, overlay_panel, write_line};
use rgfx::viewport::Viewport;
use rgfx::widget::{blit, render_size, Area, CellPaint, Paint};

fn single(x: f32) -> Single {
    Single::from_bits(x.to_bits())
}

fn settings(opts: RenderOpts) -> Settings {
    Settings::resolve(&Config::default(), &opts)
}

// --- Media detection --------------------------------------------------------------------------

#[test]
fn input_parses_stdin_and_files() {
    assert_eq!(Input::parse("-"), Input::Stdin);
    assert_eq!(Input::parse("a/b.png"), Input::File("a/b.png".to_string()));
}

#[test]
fn inputs_are_labelled() {
    assert_eq!(Input::parse("a/b.png").label(), "a/b.png");
    assert_eq!(Input::Stdin.label(), "<stdin>");
}

#[test]
fn extension_detection_table() {
    let cases: &[(&str, MediaKind)] = &[
        ("png", MediaKind::Image),
        ("PNG", MediaKind::Image),
        ("jpg", MediaKind::Image),
        ("jpeg", MediaKind::Image),
        ("bmp", MediaKind::Image),
        ("gif", MediaKind::Gif),
        ("mp4", MediaKind::Video),
        ("mkv", MediaKind::Video),
        ("obj", MediaKind::Mesh(MeshFormat::Obj)),
        ("stl", MediaKind::Mesh(MeshFormat::Stl)),
        ("glb", MediaKind::Mesh(MeshFormat::Gltf)),
        ("gltf", MediaKind::Mesh(MeshFormat::Gltf)),
        ("blend", MediaKind::Mesh(MeshFormat::Blend)),
        ("txt", MediaKind::Unknown),
        ("", MediaKind::Unknown),
    ];
    for (ext, expected) in cases {
        assert_eq!(MediaKind::from_extension(ext), *expected, "ext = {ext:?}");
    }
}

#[test]
fn magic_byte_detection_table() {
    let png = [0x89, 0x50, 0x4E, 0x47, 0x0D, 0x0A, 0x1A, 0x0A, 0, 0];
    assert_eq!(MediaKind::from_magic(&png), Some(MediaKind::Image));

    let jpeg = [0xFF, 0xD8, 0xFF, 0xE0, 0, 0];
    assert_eq!(MediaKind::from_magic(&jpeg), Some(MediaKind::Image));

    assert_eq!(MediaKind::from_magic(b"GIF89a...."), Some(MediaKind::Gif));
    assert_eq!(MediaKind::from_magic(b"GIF87a...."), Some(MediaKind::Gif));

    // ISO-BMFF mp4: any 4-byte size prefix followed by "ftyp".
    let mp4 = *b"\x00\x00\x00\x18ftypmp42";
    assert_eq!(MediaKind::from_magic(&mp4), Some(MediaKind::Video));

    assert_eq!(
        MediaKind::from_magic(b"BLENDER-v300RENDH"),
        Some(MediaKind::Mesh(MeshFormat::Blend))
    );

    let glb = *b"glTF\x02\x00\x00\x00";
    assert_eq!(
        MediaKind::from_magic(&glb),
        Some(MediaKind::Mesh(MeshFormat::Gltf))
    );

    let webp = *b"RIFF\x00\x00\x00\x00WEBPVP8 ";
    assert_eq!(MediaKind::from_magic(&webp), Some(MediaKind::Image));

    let avi = *b"RIFF\x00\x00\x00\x00AVI LIST";
    assert_eq!(MediaKind::from_magic(&avi), Some(MediaKind::Video));

    let mkv = [0x1A, 0x45, 0xDF, 0xA3, 0, 0];
    assert_eq!(MediaKind::from_magic(&mkv), Some(MediaKind::Video));

    // Text / no signal.
    assert_eq!(MediaKind::from_magic(b"solid teapot\n"), None);
    assert_eq!(MediaKind::from_magic(b""), None);
}

#[test]
fn combined_detection_prefers_magic_then_extension() {
    // A PNG renamed to .obj is still an image by magic.
    let png = [0x89, 0x50, 0x4E, 0x47, 0x0D, 0x0A, 0x1A, 0x0A];
    assert_eq!(detect_bytes(&png, Some("obj")), MediaKind::Image);

    // OBJ text has no magic -> extension decides.
    assert_eq!(
        detect_bytes(b"v 0 0 0\n", Some("obj")),
        MediaKind::Mesh(MeshFormat::Obj)
    );

    // No magic, no extension -> Unknown.
    assert_eq!(detect_bytes(b"", None), MediaKind::Unknown);

    // No magic, unknown extension -> Unknown.
    assert_eq!(detect_bytes(b"random", Some("dat")), MediaKind::Unknown);
}

#[test]
fn stdin_is_not_sniffed_by_name() {
    assert_eq!(
        detect(&Input::parse("a.png"), b"", Some("png")),
        MediaKind::Image
    );
    assert_eq!(
        detect(&Input::Stdin, b"", Some("png")),
        MediaKind::Unknown
    );
}

#[test]
fn bytes_past_the_first_twelve_do_not_matter() {
    let mut webp = b"RIFF\x00\x00\x00\x00WEBP".to_vec();
    assert_eq!(MediaKind::from_magic(&webp), Some(MediaKind::Image));
    webp.extend_from_slice(b"anything at all");
    assert_eq!(MediaKind::from_magic(&webp), Some(MediaKind::Image));
    assert_eq!(MediaKind::from_magic(&webp[..11]), None);
}

#[test]
fn numbers_and_letters_are_written_plainly() {
    assert_eq!(decimal_string(0), "0");
    assert_eq!(decimal_string(10_203), "10203");
    assert_eq!(decimal_string(u64::MAX), "18446744073709551615");
    assert_eq!(to_lower("PnG-7"), "png-7");
}

// --- Command line -----------------------------------------------------------------------------

#[test]
fn command_line_decides_what_to_do() {
    let file = || Some("a.png".to_string());
    let info = Some(Command::Info {
        file: "b.glb".to_string(),
        json: true,
    });
    assert!(matches!(
        plan(info, file(), true),
        Action::Info { file, json: true } if file == "b.glb"
    ));
    assert!(matches!(plan(None, file(), true), Action::Stream));
    assert!(matches!(plan(None, file(), false), Action::Render(f) if f == "a.png"));
    assert!(matches!(plan(None, None, false), Action::Usage));
}

// --- Settings ---------------------------------------------------------------------------------

#[test]
fn defaults_are_sane() {
    let c = Config::default();
    assert_eq!(c.renderer, Renderer::Auto);
    assert_eq!(c.width, None);
    assert_eq!(c.fps, 30);
    assert!(!c.color);
    assert_eq!(c.three_d.shading, Shading::Flat);
    assert_eq!(c.video.max_fps, 0);
    assert_eq!(c.image.dither, DitherMode::Auto);
    assert_eq!(c.image.gamma, single(1.0));
    assert_eq!(c.image.contrast, single(1.0));
    assert_eq!(c.image.threshold, single(0.5));
    assert_eq!(c.three_d.fov_degrees, single(45.0));
}

#[test]
fn image_flags_override_config() {
    let cfg = Config {
        image: ImageConfig {
            dither: DitherMode::Floyd,
            gamma: single(2.2),
            ..ImageConfig::default()
        },
        ..Config::default()
    };
    // Absent flags keep the file values; a present flag wins.
    let s = Settings::resolve(&cfg, &RenderOpts::default());
    assert_eq!(s.dither, DitherMode::Floyd);
    assert_eq!(s.gamma, single(2.2));

    let s2 = Settings::resolve(
        &cfg,
        &RenderOpts {
            dither: Some(DitherMode::Atkinson),
            contrast: Some(single(1.5)),
            ..RenderOpts::default()
        },
    );
    assert_eq!(s2.dither, DitherMode::Atkinson);
    assert_eq!(s2.contrast, single(1.5));
    assert_eq!(s2.gamma, single(2.2));
}

#[test]
fn simplify_defaults_and_resolution() {
    let c = Config::default();
    assert!(c.three_d.auto_simplify, "auto-simplify on by default");
    assert_eq!(c.three_d.simplify_budget, DEFAULT_SIMPLIFY_BUDGET);

    // Default resolve keeps auto on, no explicit request.
    let s = Settings::resolve(&c, &RenderOpts::default());
    assert!(s.auto_simplify);
    assert_eq!(s.simplify, None);
    assert_eq!(s.simplify_budget, DEFAULT_SIMPLIFY_BUDGET);

    // --no-simplify turns auto off and clears an explicit request.
    let s2 = Settings::resolve(
        &c,
        &RenderOpts {
            simplify: Some(single(0.5)),
            no_simplify: true,
            ..RenderOpts::default()
        },
    );
    assert!(!s2.auto_simplify);
    assert_eq!(s2.simplify, None);

    // A config that disables auto still honors an explicit --simplify.
    let c_off = Config {
        three_d: ThreeDConfig {
            auto_simplify: false,
            ..ThreeDConfig::default()
        },
        ..Config::default()
    };
    let s3 = Settings::resolve(
        &c_off,
        &RenderOpts {
            simplify: Some(single(0.25)),
            ..RenderOpts::default()
        },
    );
    assert!(!s3.auto_simplify);
    assert_eq!(s3.simplify, Some(single(0.25)));
}

#[test]
fn precedence_defaults_only() {
    let s = Settings::resolve(&Config::default(), &RenderOpts::default());
    assert_eq!(s.renderer, Renderer::Auto);
    assert_eq!(s.fps, 30);
    assert!(!s.color);
    assert_eq!(s.shading, Shading::Flat);
    assert!(!s.wireframe);
}

fn ascii_config() -> Config {
    Config {
        renderer: Renderer::Ascii,
        fps: 12,
        three_d: ThreeDConfig {
            shading: Shading::Smooth,
            ..ThreeDConfig::default()
        },
        ..Config::default()
    }
}

#[test]
fn precedence_file_over_defaults() {
    let cfg = Config {
        color: true,
        ..ascii_config()
    };
    let s = Settings::resolve(&cfg, &RenderOpts::default());
    assert_eq!(s.renderer, Renderer::Ascii);
    assert_eq!(s.fps, 12);
    assert!(s.color);
    assert_eq!(s.shading, Shading::Smooth);
}

#[test]
fn precedence_flags_over_file() {
    let opts = RenderOpts {
        renderer: Some(Renderer::Braille),
        fps: Some(24),
        shading: Some(Shading::Depth),
        wireframe: true,
        color: true,
        width: Some(200),
        ..RenderOpts::default()
    };
    let s = Settings::resolve(&ascii_config(), &opts);
    assert_eq!(s.renderer, Renderer::Braille);
    assert_eq!(s.fps, 24);
    assert_eq!(s.shading, Shading::Depth);
    assert!(s.wireframe);
    assert!(s.color);
    assert_eq!(s.width, Some(200));
}

#[test]
fn width_flag_overrides_but_absent_flag_keeps_file() {
    let cfg = Config {
        width: Some(100),
        ..Config::default()
    };
    let s_no_flag = Settings::resolve(&cfg, &RenderOpts::default());
    assert_eq!(s_no_flag.width, Some(100));

    let s_flag = Settings::resolve(
        &cfg,
        &RenderOpts {
            width: Some(64),
            ..RenderOpts::default()
        },
    );
    assert_eq!(s_flag.width, Some(64));
}

#[test]
fn config_path_prefers_the_config_home() {
    let owned = |s: &str| Some(s.to_string());
    assert_eq!(
        config_path(owned("/x"), owned("/home/u")),
        Some(vec!["/x".into(), "rgfx".into(), "config.toml".into()])
    );
    assert_eq!(
        config_path(owned(""), owned("/home/u")),
        Some(vec![
            "/home/u".into(),
            ".config".into(),
            "rgfx".into(),
            "config.toml".into()
        ])
    );
    assert_eq!(config_path(None, None), None);
    assert_eq!(config_path(None, owned("")), None);
}

// --- Dispatch ---------------------------------------------------------------------------------

#[test]
fn viewer_selection_matches_kind() {
    assert_eq!(viewer_for(MediaKind::Image).unwrap().name(), "image");
    assert_eq!(viewer_for(MediaKind::Gif).unwrap().name(), "gif");
    assert_eq!(viewer_for(MediaKind::Video).unwrap().name(), "video");
    assert_eq!(
        viewer_for(MediaKind::Mesh(MeshFormat::Stl)).unwrap().name(),
        "mesh"
    );
}

#[test]
fn unknown_kind_has_no_viewer() {
    assert!(viewer_for(MediaKind::Unknown).is_err());
}

#[test]
fn dispatch_unknown_is_clean_error() {
    let err = viewer_for(MediaKind::Unknown).unwrap_err();
    assert!(err.what.contains("unsupported"));
}

#[test]
fn render_unsupported_is_clean_error() {
    let input = Input::parse("mystery.dat");
    let kind = detect(&input, b"", Some("dat"));
    let err = check_renderable(&input, kind).unwrap_err();
    assert!(err.what.contains("unsupported"), "got: {}", err.what);
    assert!(check_renderable(&input, MediaKind::Gif).is_ok());
}

#[test]
fn describe_covers_all_kinds() {
    assert_eq!(describe_kind(MediaKind::Image), "image");
    assert_eq!(
        describe_kind(MediaKind::Mesh(MeshFormat::Stl)),
        "3D mesh (STL)"
    );
    assert_eq!(describe_kind(MediaKind::Unknown), "unknown");
}

#[test]
fn unknown_media_has_no_viewer_label() {
    assert_eq!(viewer_label(MediaKind::Unknown), "none (unsupported)");
    assert_eq!(viewer_label(MediaKind::Gif), "gif");
}

#[test]
fn images_need_a_path() {
    assert_eq!(image_path(&Input::parse("a.png")).unwrap(), "a.png");
    let err = image_path(&Input::Stdin).unwrap_err();
    assert!(err.what.contains("stdin"), "got: {}", err.what);
    assert!(video_unavailable().what.contains("ffmpeg"));
}

#[test]
fn stdin_input_is_a_clean_error() {
    let err = image_path(&Input::Stdin).unwrap_err();
    assert!(err.what.contains("stdin"), "got: {}", err.what);
}

#[test]
fn piped_input_must_be_there() {
    assert!(check_piped(true, 0).unwrap_err().what.contains("pipe data in"));
    assert_eq!(
        check_piped(false, 0).unwrap_err().what,
        "stdin was empty: nothing to render"
    );
    assert!(check_piped(false, 1).is_ok());
}

#[test]
fn only_images_come_through_a_pipe() {
    assert!(check_stdin_kind(MediaKind::Image).is_ok());
    for kind in [
        MediaKind::Gif,
        MediaKind::Video,
        MediaKind::Mesh(MeshFormat::Obj),
        MediaKind::Unknown,
    ] {
        assert!(check_stdin_kind(kind).is_err());
    }
}

// --- Terminal events --------------------------------------------------------------------------

fn pressed(code: KeyCode, ctrl: bool) -> KeyEvent {
    KeyEvent {
        code,
        modifiers: KeyModifiers {
            ctrl,
            ..KeyModifiers::none()
        },
    }
}

#[test]
fn quit_keys_are_recognized() {
    assert!(is_quit(pressed(KeyCode::Esc, false)));
    assert!(is_quit(pressed(KeyCode::Char('q'), false)));
    assert!(is_quit(pressed(KeyCode::Char('Q'), false)));
    assert!(is_quit(pressed(KeyCode::Char('c'), true)));
    // Plain 'c' without Ctrl is not a quit.
    assert!(!is_quit(pressed(KeyCode::Char('c'), false)));
    assert!(!is_quit(pressed(KeyCode::Char('x'), false)));
}

#[test]
fn resize_signals_redraw_and_keys_map_through() {
    assert_eq!(signal_for(Event::Resize(120, 40)), Signal::Redraw);
    assert_eq!(
        signal_for(Event::Key(pressed(KeyCode::Esc, false))),
        Signal::Quit
    );
    assert_eq!(
        signal_for(Event::Key(pressed(KeyCode::Char('x'), false))),
        Signal::Idle
    );
    assert_eq!(signal_for(Event::FocusGained), Signal::Idle);
    let moved = MouseEvent {
        kind: MouseEventKind::Moved,
        col: 0,
        row: 0,
        modifiers: KeyModifiers::none(),
    };
    assert_eq!(signal_for(Event::Mouse(moved)), Signal::Idle);
}

// --- Text over a frame ------------------------------------------------------------------------

#[test]
fn write_line_clips_and_blanks_to_width() {
    let mut f = TerminalFrame::new(4, 2);
    write_line(&mut f, 0, "abcdef"); // longer than width -> clipped
    write_line(&mut f, 1, "x"); // shorter -> padded with spaces
    let t = f.to_text();
    let lines: Vec<&str> = t.lines().collect();
    assert_eq!(lines[0], "abcd");
    assert_eq!(lines[1], "x   ");
}

#[test]
fn overlay_places_status_and_help_on_bottom_two_rows() {
    let mut f = TerminalFrame::new(10, 3);
    overlay_bottom_bar(&mut f, "status", "help");
    let t = f.to_text();
    let lines: Vec<&str> = t.lines().collect();
    assert!(lines[1].starts_with("status"));
    assert!(lines[2].starts_with("help"));
}

#[test]
fn out_of_range_row_is_a_noop() {
    let mut f = TerminalFrame::new(4, 1);
    write_line(&mut f, 5, "nope"); // must not panic
    assert_eq!(f.rows(), 1);
}

#[test]
fn panel_blanks_to_its_longest_line() {
    let mut f = TerminalFrame::new(6, 4);
    for row in 0..4 {
        write_line(&mut f, row, "......");
    }
    overlay_panel(&mut f, 1, 1, &["abc".to_string(), "d".to_string()]);
    assert_eq!(f.to_text(), "......\n.abc..\n.d  ..\n......");
    overlay_panel(&mut f, 4, 3, &["wide".to_string(), "low".to_string()]);
    assert_eq!(f.to_text(), "......\n.abc..\n.d  ..\n....wi");
}

// --- Streams ----------------------------------------------------------------------------------

/// Reads one frame from the front of the bytes.
fn read_frame(bytes: &[u8], size: usize) -> FrameStatus {
    let mut reader = FrameReader::new(size);
    let n = bytes.len().min(reader.wanted());
    reader.feed(&bytes[..n]);
    reader.status(n == bytes.len()).unwrap()
}

#[test]
fn read_frame_distinguishes_eof_partial_and_complete() {
    assert_eq!(read_frame(&[], 12), FrameStatus::Eof);
    assert_eq!(read_frame(&[0u8; 5], 12), FrameStatus::Truncated(5));
    assert_eq!(read_frame(&[0u8; 12], 12), FrameStatus::Complete);
}

#[test]
fn frames_can_come_in_pieces() {
    let mut reader = FrameReader::new(5);
    assert_eq!(reader.wanted(), 5);
    reader.feed(&[1, 2]);
    assert_eq!(reader.status(false), None);
    reader.feed(&[3]);
    assert_eq!(reader.wanted(), 2);
    assert_eq!(reader.status(true), Some(FrameStatus::Truncated(3)));
    reader.feed(&[4, 5]);
    assert_eq!(reader.status(false), Some(FrameStatus::Complete));
    assert_eq!(reader.data(), &[1, 2, 3, 4, 5]);
    reader.restart();
    assert_eq!(reader.wanted(), 5);
    assert_eq!(reader.status(true), Some(FrameStatus::Eof));
}

/// A stream of raw frames behind its header.
struct Stream {
    source: StdinFrameSource,
    rest: Vec<u8>,
}

impl Stream {
    fn open(data: Vec<u8>, fps: u32) -> Result<Stream, Complaint> {
        let end = data
            .iter()
            .position(|&b| b == b'\n')
            .map_or(data.len(), |i| i + 1);
        let line = String::from_utf8(data[..end].to_vec()).unwrap();
        let (w, h) = parse_header(&line)?;
        Ok(Stream {
            source: StdinFrameSource::new(w, h, fps),
            rest: data[end..].to_vec(),
        })
    }

    fn next_frame(&mut self, fb: &mut Framebuffer) -> bool {
        loop {
            let n = self.source.wanted().min(self.rest.len());
            self.source.feed(&self.rest[..n]);
            self.rest.drain(..n);
            if let Some(shown) = self.source.next_frame(self.rest.is_empty(), fb) {
                return shown;
            }
        }
    }
}

/// A framed stream: `WxH` header followed by `frames` frames each filled with `fill`.
fn stream_bytes(w: u32, h: u32, frames: usize, fill: u8) -> Vec<u8> {
    let mut data = format!("{w}x{h}\n").into_bytes();
    let frame_len = (w * h) as usize * BYTES_PER_PIXEL;
    data.resize(data.len() + frames * frame_len, fill);
    data
}

#[test]
fn stream_parses_header_and_counts_frames() {
    let mut src = Stream::open(stream_bytes(2, 2, 3, 0), 30).unwrap();
    assert_eq!(src.source.dimensions(), (2, 2));
    let mut fb = Framebuffer::new(4, 4);
    let mut count = 0;
    while src.next_frame(&mut fb) {
        count += 1;
    }
    assert_eq!(count, 3);
    assert_eq!(src.source.frames_read(), 3);
    // Exhausted source keeps reporting no more frames.
    assert!(!src.next_frame(&mut fb));
}

#[test]
fn truncated_final_frame_ends_playback_cleanly() {
    let mut data = stream_bytes(2, 2, 1, 0); // one full 12-byte frame
    data.extend(vec![0u8; 5]); // partial frame: producer closed mid-frame
    let mut src = Stream::open(data, 0).unwrap();
    let mut fb = Framebuffer::new(2, 2);
    assert!(src.next_frame(&mut fb), "first full frame renders");
    assert!(
        !src.next_frame(&mut fb),
        "truncated frame stops cleanly (no panic, no error)"
    );
    assert_eq!(src.source.frames_read(), 1);
}

#[test]
fn malformed_or_empty_header_is_rejected() {
    assert!(Stream::open(b"notaheader\n".to_vec(), 30).is_err());
    assert!(Stream::open(Vec::new(), 30).is_err());
    assert!(Stream::open(b"0x0\n".to_vec(), 30).is_err());
    assert!(Stream::open(b"12xabc\n".to_vec(), 30).is_err());
}

#[test]
fn header_errors_say_what_is_wrong() {
    let err = |line: &str| parse_header(line).unwrap_err();
    assert_eq!(
        err("").what,
        "empty --stream input: expected a `WxH` header line (e.g. `320x240`)"
    );
    assert_eq!(
        err("no \"size\"\n").what,
        "malformed --stream header \"no \\\"size\\\"\": expected `WxH`"
    );
    let width = err("1a x2\n");
    assert_eq!(width.what, "invalid stream width \"1a \"");
    assert_eq!(
        width.cause.as_deref(),
        Some("invalid digit found in string")
    );
    let height = err("12x\n");
    assert_eq!(height.what, "invalid stream height \"\"");
    assert_eq!(
        height.cause.as_deref(),
        Some("cannot parse integer from empty string")
    );
    assert_eq!(
        err("4294967296x1\n").cause.as_deref(),
        Some("number too large to fit in target type")
    );
    assert_eq!(
        err("0x7\n").what,
        "stream dimensions must be non-zero (got 0x7)"
    );
}

#[test]
fn headers_are_read_leniently() {
    assert_eq!(parse_header("320x240\n").unwrap(), (320, 240));
    assert_eq!(parse_header("  320 X 240 \r\n").unwrap(), (320, 240));
    assert_eq!(parse_header("+5x007").unwrap(), (5, 7));
    for (w, h) in [(1u32, 1u32), (640, 480), (u32::MAX, 9)] {
        assert_eq!(parse_header(&format!("{w}x{h}\n")).unwrap(), (w, h));
    }
}

#[test]
fn header_numbers_follow_std() {
    for text in ["", "+", "-", "-0", "+0", "00", "+4294967295", "4294967295", "1_0", "٣"] {
        let parsed = text.parse::<u32>();
        let header = parse_header(&format!("{text}x1"));
        match parsed {
            Ok(0) => assert!(header.is_err()),
            Ok(n) => assert_eq!(header.unwrap(), (n, 1)),
            Err(e) => assert_eq!(header.unwrap_err().cause, Some(e.to_string())),
        }
    }
}

#[test]
fn frame_delay_follows_fps() {
    let delay = |source: &StdinFrameSource| {
        source
            .pace()
            .map(|fps| std::time::Duration::from_secs_f32(1.0 / fps as f32))
    };
    let paced = Stream::open(b"1x1\n".to_vec(), 30).unwrap();
    assert_eq!(
        delay(&paced.source),
        Some(std::time::Duration::from_secs_f32(1.0 / 30.0))
    );
    let unpaced = Stream::open(b"1x1\n".to_vec(), 0).unwrap();
    assert!(delay(&unpaced.source).is_none());
}

#[test]
fn frame_pixels_are_blitted_into_the_target() {
    let mut data = b"1x1\n".to_vec();
    data.extend_from_slice(&[10, 20, 30]); // a single known pixel
    let mut src = Stream::open(data, 0).unwrap();
    let mut fb = Framebuffer::new(2, 2);
    assert!(src.next_frame(&mut fb));
    // Nearest-neighbour upscales the 1x1 source: every target pixel is that colour.
    for y in 0..2 {
        for x in 0..2 {
            assert_eq!(fb.get(x, y), Color::from_u8(10, 20, 30, 255));
        }
    }
}

#[test]
fn missing_bytes_are_black() {
    let mut fb = Framebuffer::new(2, 1);
    blit_rgb24(&[255, 255, 255, 255], 2, 1, &mut fb);
    assert_eq!(fb.get(0, 0), Color::white());
    assert_eq!(fb.get(1, 0), Color::black());
}

/// How many columns and rows a source of that size fills within the limits.
fn scaled(src: (u32, u32), most: Viewport, sx: u16, sy: u16) -> (u16, u16) {
    let (sw, sh) = (src.0.max(1) as f32, src.1.max(1) as f32);
    let budget_w = most.cols as f32 * sx as f32;
    let budget_h = most.rows as f32 * sy as f32;
    let scale = (budget_w / sw).min(budget_h / sh);
    let target_w = (sw * scale).round().max(1.0);
    let target_h = (sh * scale).round().max(1.0);
    (
        (target_w / sx as f32).round() as u16,
        (target_h / sy as f32).round() as u16,
    )
}

#[test]
fn fit_viewport_preserves_aspect_within_bounds() {
    // A 2:1 source in an 80x24 (ascii, 1x1) terminal is height-limited: it fills the 24 rows
    // and the aspect fixes the width at 48 cols, never exceeding the bounds on either axis.
    let bounds = Viewport::new(80, 24);
    let (cols, rows) = scaled((200, 100), stream_limits(bounds, None), 1, 1);
    let vp = fit_viewport(cols, rows, bounds, None);
    assert!(vp.cols <= 80 && vp.rows <= 24);
    assert_eq!((vp.cols, vp.rows), (48, 24));
    // A --width override caps columns.
    let (cols, rows) = scaled((200, 100), stream_limits(bounds, Some(40)), 1, 1);
    let vp = fit_viewport(cols, rows, bounds, Some(40));
    assert!(vp.cols <= 40);
}

#[test]
fn stream_viewport_never_leaves_its_limits() {
    let bounds = Viewport::new(80, 24);
    assert_eq!(stream_limits(bounds, Some(0)), Viewport::new(1, 24));
    assert_eq!(stream_limits(Viewport::new(0, 0), None), Viewport::new(1, 1));
    assert_eq!(fit_viewport(0, 99, bounds, None), Viewport::new(1, 24));
    assert_eq!(StreamEncoder::resolve(Renderer::Auto, true), StreamEncoder::Blocks);
    assert_eq!(StreamEncoder::Braille.subpixels(), (2, 4));
}

#[test]
fn non_image_stdin_bytes_are_classified_not_decoded() {
    // Garbage bytes sniff as Unknown; the decoder rejects them without panicking.
    assert_eq!(detect_bytes(b"not an image", None), MediaKind::Unknown);
    assert!(DecodedImage::from_bytes(b"not an image").is_err());
}

// --- Reports ----------------------------------------------------------------------------------

fn figures() -> FigureTexts {
    FigureTexts {
        x: "2.000".to_string(),
        y: "2.000".to_string(),
        z: "2.000".to_string(),
        fps: "25.00".to_string(),
        duration: "1.50".to_string(),
    }
}

fn cube_facts() -> MeshFacts {
    MeshFacts {
        meshes: 1,
        vertices: 8,
        triangles: 12,
        materials: 0,
        animations: 0,
        animation_names: Vec::new(),
        size: Some([single(2.0), single(2.0), single(2.0)]),
    }
}

#[test]
fn mesh_report_gives_the_counts() {
    let report = mesh_report(&Input::parse("cube.obj"), MeshFormat::Obj, cube_facts());
    assert_eq!(report.kind, "mesh");
    assert_eq!(report.format.as_deref(), Some("OBJ"));
    assert_eq!(report.meshes, Some(1));
    assert_eq!(report.vertices, Some(8));
    assert_eq!(report.triangles, Some(12));
    assert_eq!(report.bounding_box, Some([single(2.0); 3]));
    let human = report.to_human(&figures());
    assert!(human.contains("triangles"), "human output: {human}");
    assert!(human.contains("12"), "human output: {human}");
    assert!(human.contains("2.000 x 2.000 x 2.000"));
}

#[test]
fn image_info_for_embedded_png() {
    // The embedded 1x1 opaque-red PNG.
    let report = image_report(&Input::parse("red.png"), &doctest_png()).unwrap();
    assert_eq!(report.kind, "image");
    assert_eq!(report.format.as_deref(), Some("PNG"));
    assert_eq!(report.width, Some(1));
    assert_eq!(report.height, Some(1));
    assert_eq!(report.frames, Some(1));
    assert_eq!(report.color_type.as_deref(), Some("Rgba8"));
}

#[test]
fn unknown_input_is_clean_error_not_panic() {
    let input = Input::parse("mystery.dat");
    assert_eq!(
        detect(&input, b"not any kno", Some("dat")),
        MediaKind::Unknown
    );
    let err = unknown_error(&input);
    assert!(err.what.contains("unsupported"), "got: {}", err.what);
}

#[test]
fn corrupt_image_errors_cleanly() {
    // PNG magic but truncated/garbage body -> decode error, not a panic.
    let mut bytes = vec![0x89, 0x50, 0x4E, 0x47, 0x0D, 0x0A, 0x1A, 0x0A];
    bytes.extend_from_slice(b"garbage");
    let err = image_report(&Input::parse("bad.png"), &bytes).unwrap_err();
    assert!(err.what.contains("decoding image"), "got: {}", err.what);
    assert!(err.cause.is_some());
}

#[test]
fn gif_report_counts_frames() {
    let gif: &[u8] = &[
        71, 73, 70, 56, 57, 97, 2, 0, 2, 0, 145, 0, 0, 0, 0, 0, 255, 0, 0, 0, 255, 0, 0, 0, 255,
        33, 255, 11, 78, 69, 84, 83, 67, 65, 80, 69, 50, 46, 48, 3, 1, 0, 0, 0, 33, 249, 4, 8, 10,
        0, 0, 0, 44, 0, 0, 0, 0, 2, 0, 2, 0, 0, 2, 2, 140, 83, 0, 33, 249, 4, 4, 20, 0, 0, 0, 44,
        0, 0, 0, 0, 1, 0, 1, 0, 0, 2, 2, 84, 1, 0, 33, 249, 4, 4, 30, 0, 0, 0, 44, 1, 0, 1, 0, 1,
        0, 1, 0, 0, 2, 2, 92, 1, 0, 59,
    ];
    let report = gif_report(&Input::parse("a.gif"), gif).unwrap();
    assert_eq!(report.frames, Some(3));
    assert_eq!((report.width, report.height), (Some(2), Some(2)));
    assert_eq!(report.format.as_deref(), Some("GIF"));
    let opening = gif_report(&Input::parse("a.gif"), b"").unwrap_err();
    assert_eq!(opening.what, "opening GIF (unsupported or corrupt)");
    let frames = gif_report(&Input::parse("a.gif"), &gif[..70]).unwrap_err();
    assert_eq!(frames.what, "decoding GIF frames");
}

#[test]
fn report_rows_line_up() {
    let mut report = Report::new(&Input::parse("a.png"), "image");
    report.width = Some(4);
    report.height = Some(3);
    report.notes.push("small".to_string());
    assert_eq!(
        report.to_human(&figures()),
        "input       a.png\nkind        image\ndimensions  4 x 3\nnote: small\n"
    );
    let rows = report.rows(&figures());
    assert_eq!(rows.len(), 3);
    assert_eq!((rows[2].key, rows[2].value.as_str()), ("dimensions", "4 x 3"));
}

#[test]
fn animation_names_carry_durations() {
    let info = |name: &str, skinned| AnimationInfo {
        name: name.to_string(),
        duration: single(1.0),
        skinned,
    };
    assert_eq!(
        animation_summaries(
            &[info("slide", false), info("walk", true)],
            &["1.00".to_string(), "0.50".to_string()]
        ),
        vec!["slide (1.00s)", "walk (0.50s) [skinned]"]
    );
}

#[test]
fn video_reports_say_what_was_probed() {
    let input = Input::parse("a.mp4");
    let none = video_report(&input, Some("mp4"), Probe::Unavailable);
    assert_eq!(none.kind, "video");
    assert_eq!(none.notes.len(), 1);
    assert!(none.notes[0].contains("ffprobe"));
    let failed = video_report(&input, Some("mp4"), Probe::Failed("gone".to_string()));
    assert_eq!(failed.notes, vec!["could not probe video with ffprobe: gone"]);
    let fps = Double {
        bits: 25.0f64.to_bits(),
    };
    let found = video_report(
        &input,
        Some("mp4"),
        Probe::Found {
            width: 64,
            height: 48,
            fps,
            duration_secs: None,
            codec: Some("h264".to_string()),
        },
    );
    assert_eq!((found.width, found.height), (Some(64), Some(48)));
    assert_eq!(found.fps, Some(fps));
    assert_eq!(found.codec.as_deref(), Some("h264"));
}

#[test]
fn piped_media_is_described_where_it_can_be() {
    let input = Input::Stdin;
    assert!(matches!(
        stdin_report(&input, MediaKind::Image),
        Ok(StdinReport::Image)
    ));
    assert!(matches!(
        stdin_report(&input, MediaKind::Gif),
        Ok(StdinReport::Gif)
    ));
    assert!(stdin_report(&input, MediaKind::Video).is_err());
    assert!(stdin_report(&input, MediaKind::Unknown)
        .unwrap_err()
        .what
        .contains("unsupported"));
}

// --- Widgets ----------------------------------------------------------------------------------

fn white_frame(cols: usize, rows: usize) -> TerminalFrame {
    let mut f = TerminalFrame::new(cols, rows);
    for row in 0..rows {
        for col in 0..cols {
            f.set(col, row, Cell::glyph('\u{28FF}'));
        }
    }
    f
}

fn plain(n: usize) -> Vec<CellPaint> {
    vec![CellPaint { fg: None, bg: None }; n]
}

fn area(x: u16, y: u16, width: u16, height: u16) -> Area {
    Area {
        x,
        y,
        width,
        height,
    }
}

#[test]
fn render_size_maps_rect_by_subpixel_factor() {
    let a = area(0, 0, 100, 40);
    assert_eq!(render_size(a, 2, 4), (200, 160)); // Braille
    assert_eq!(render_size(a, 1, 2), (100, 80)); // half-blocks
    assert_eq!(render_size(a, 1, 1), (100, 40)); // ASCII
}

#[test]
fn render_is_clipped_to_the_target_rect() {
    // A 2x2 cell frame drawn into a 1x1 area writes only the top-left cell; the rest of a
    // larger buffer is untouched.
    let mut buf = Buffer::empty(Rect::new(0, 0, 3, 3));
    blit(&white_frame(2, 2), &plain(4), area(1, 1, 1, 1), &mut buf);
    assert_eq!(buf[(1, 1)].symbol(), "\u{28FF}");
    // Neighbours outside the target rect stay blank.
    assert_eq!(buf[(0, 0)].symbol(), " ");
    assert_eq!(buf[(2, 1)].symbol(), " ");
    assert_eq!(buf[(1, 2)].symbol(), " ");
}

#[test]
fn writes_at_the_rect_offset() {
    let mut buf = Buffer::empty(Rect::new(0, 0, 5, 5));
    blit(&white_frame(1, 1), &plain(1), area(3, 2, 1, 1), &mut buf);
    assert_eq!(buf[(3, 2)].symbol(), "\u{28FF}");
    assert_eq!(buf[(0, 0)].symbol(), " ");
}

#[test]
fn zero_area_renders_nothing() {
    let mut buf = Buffer::empty(Rect::new(0, 0, 2, 2));
    blit(&white_frame(1, 1), &plain(1), area(0, 0, 0, 0), &mut buf);
    assert_eq!(buf[(0, 0)].symbol(), " ");
}

#[test]
fn painted_cells_carry_their_colors() {
    let mut buf = Buffer::empty(Rect::new(0, 0, 2, 1));
    let paints = [
        CellPaint {
            fg: Some(Paint::Rgb(255, 255, 0)),
            bg: None,
        },
        CellPaint {
            fg: None,
            bg: Some(Paint::Indexed(9)),
        },
    ];
    blit(&white_frame(2, 1), &paints, area(0, 0, 2, 1), &mut buf);
    assert_eq!(buf[(0, 0)].fg, Tint::Rgb(255, 255, 0));
    assert_eq!(buf[(0, 0)].bg, Tint::Reset);
    assert_eq!(buf[(1, 0)].fg, Tint::Reset);
    assert_eq!(buf[(1, 0)].bg, Tint::Indexed(9));
}

#[test]
fn cells_outside_the_buffer_are_skipped() {
    let mut buf = Buffer::empty(Rect::new(1, 1, 2, 1));
    blit(&white_frame(4, 4), &plain(16), area(0, 0, 4, 4), &mut buf);
    assert_eq!(buf[(1, 1)].symbol(), "\u{28FF}");
    assert_eq!(buf[(2, 1)].symbol(), "\u{28FF}");
}

// --- Blender exports --------------------------------------------------------------------------

#[test]
fn export_args_have_the_expected_shape() {
    let args = export_args("/in.blend", "/tmp/s.py", "/tmp/o.glb");
    assert_eq!(
        args,
        vec![
            "-b",
            "/in.blend",
            "--python",
            "/tmp/s.py",
            "--",
            "/tmp/o.glb"
        ]
    );
}

#[test]
fn export_script_targets_the_last_argv() {
    // Guards against silently dropping the GLB export format.
    assert!(export_script().contains("export_scene.gltf"));
    assert!(export_script().contains("export_format='GLB'"));
}

#[test]
fn failed_exports_show_the_last_lines() {
    let lines: Vec<String> = (0..10).map(|i| format!("line {i}")).collect();
    assert_eq!(
        output_tail(&lines),
        "line 2\nline 3\nline 4\nline 5\nline 6\nline 7\nline 8\nline 9"
    );
    assert_eq!(output_tail(&lines[..1]), "line 0");
    assert!(check_export(true, true, "a.blend", "0", &lines).is_ok());
    let err = check_export(true, false, "a.blend", "exit status: 0", &lines[..2]).unwrap_err();
    assert!(matches!(err, Error::External(_)));
    assert_eq!(
        err.message(),
        "external tool error: Blender failed to export a.blend to glTF (exit exit status: 0).\nline 0\nline 1"
    );
    assert!(matches!(missing_blend("x.blend"), Error::Io(_)));
    assert!(launch_failure("blender", "gone").message().contains("blender"));
}
