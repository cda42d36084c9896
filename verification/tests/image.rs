//! Decoding, resizing, preprocessing and animated GIFs.

use rgfx::aspect;
use rgfx::color::Color;
use rgfx::decode::{
    doctest_png, format_of, inspect, map_image_error, report_outcome, DecodedImage, Format,
    ImageFailure,
};
use rgfx::error::Error;
use rgfx::framebuffer::Framebuffer;
use rgfx::gif::{decode_all, GifLoop, GifSource, GifTrouble};
use rgfx::preprocess::{
    bayer, bayer_matrix, clamped_neighbour, diffusion_target, BayerSize, Dither, Kernel, PixelSum,
    Preprocess, Tone,
};
use rgfx::render::{paste_centred, ImageSource, RenderOptions, ResizeFilter};
use rgfx::single::Single;
use rgfx::source::FrameSource;
use rgfx::span::Span;
use rgfx::viewport::Viewport;

/// A 1x1 opaque-red PNG.
const TEST_RED_1X1_PNG: &[u8] = &[
137, 80, 78, 71, 13, 10, 26, 10, 0, 0, 0, 13, 73, 72, 68, 82, 0, 0, 0, 1, 0, 0, 0, 1, 8, 6, 0,
0, 0, 31, 21, 196, 137, 0, 0, 0, 13, 73, 68, 65, 84, 120, 218, 99, 248, 207, 192, 240, 31, 0,
5, 0, 1, 255, 86, 199, 47, 13, 0, 0, 0, 0, 73, 69, 78, 68, 174, 66, 96, 130,
];

/// A 4x4 PNG whose pixel `(x, y)` is `(min(x*80,255), min(y*80,255), 40, 255)`.
const TEST_4X4_PNG: &[u8] = &[
    137, 80, 78, 71, 13, 10, 26, 10, 0, 0, 0, 13, 73, 72, 68, 82, 0, 0, 0, 4, 0, 0, 0, 4, 8, 6,
    0, 0, 0, 169, 241, 158, 126, 0, 0, 0, 44, 73, 68, 65, 84, 120, 218, 21, 200, 49, 1, 0, 0,
    8, 2, 65, 226, 24, 135, 136, 68, 164, 129, 190, 195, 45, 39, 105, 214, 8, 10, 201, 4, 130,
    250, 35, 4, 130, 230, 163, 4, 130, 118, 246, 0, 227, 233, 33, 113, 203, 159, 183, 128, 0,
    0, 0, 0, 73, 69, 78, 68, 174, 66, 96, 130,
];

/// A 2x2 lossless WebP: red, green, blue, white.
const TEST_WEBP_2X2: &[u8] = &[
    82, 73, 70, 70, 152, 0, 0, 0, 87, 69, 66, 80, 86, 80, 56, 76, //
    140, 0, 0, 0, 47, 1, 64, 0, 16, 205, 85, 32, 34, 2, 30, 72, //
    0, 0, 0, 0, 0, 128, 0, 0, 0, 0, 0, 0, 0, 0, 0, 0, //
    0, 0, 0, 0, 0, 0, 0, 0, 0, 0, 0, 0, 0, 0, 0, 0, //
    0, 0, 0, 0, 0, 64, 0, 0, 0, 15, 68, 2, 0, 0, 0, 0, //
    224, 252, 61, 0, 0, 0, 0, 0, 0, 0, 0, 0, 0, 0, 0, 0, //
    0, 0, 0, 0, 0, 0, 0, 0, 0, 0, 0, 0, 0, 0, 0, 0, //
    0, 0, 228, 129, 72, 0, 0, 0, 0, 0, 156, 255, 3, 0, 0, 0, //
    0, 0, 0, 0, 0, 0, 0, 0, 0, 0, 0, 0, 0, 0, 0, 0, //
    0, 0, 0, 0, 0, 0, 0, 0, 0, 0, 0, 128, 34, 233, 11, 0,
];

/// A 2x2 BMP: red, green, blue, (10,20,30).
const TEST_BMP_2X2: &[u8] = &[
    66, 77, 138, 0, 0, 0, 0, 0, 0, 0, 122, 0, 0, 0, 108, 0, 0, 0, 2, 0, 0, 0, 2, 0, 0, 0, 1, 0,
    32, 0, 3, 0, 0, 0, 16, 0, 0, 0, 0, 0, 0, 0, 0, 0, 0, 0, 0, 0, 0, 0, 0, 0, 0, 0, 0, 0, 255,
    0, 0, 255, 0, 0, 255, 0, 0, 0, 0, 0, 0, 255, 66, 71, 82, 115, 0, 0, 0, 0, 0, 0, 0, 0, 0, 0,
    0, 0, 0, 0, 0, 0, 0, 0, 0, 0, 0, 0, 0, 0, 0, 0, 0, 0, 0, 0, 0, 0, 0, 0, 0, 0, 0, 0, 0, 0,
    0, 0, 0, 0, 0, 0, 0, 0, 255, 0, 0, 255, 30, 20, 10, 255, 0, 0, 255, 255, 0, 255, 0, 255,
];

/// A 2x2 solid opaque-blue PNG.
const TEST_BLUE_2X2_PNG: &[u8] = &[
    137, 80, 78, 71, 13, 10, 26, 10, 0, 0, 0, 13, 73, 72, 68, 82, 0, 0, 0, 2, 0, 0, 0, 2, 8, 6,
    0, 0, 0, 114, 182, 13, 36, 0, 0, 0, 16, 73, 68, 65, 84, 120, 218, 99, 96, 96, 248, 255, 31,
    130, 161, 12, 0, 63, 210, 7, 249, 92, 19, 224, 66, 0, 0, 0, 0, 73, 69, 78, 68, 174, 66, 96,
    130,
];

/// A 3-frame 2x2 GIF: full red (then cleared), green at (0,0), blue at (1,1).
const TEST_GIF_3FRAME: &[u8] = &[
    71, 73, 70, 56, 57, 97, 2, 0, 2, 0, 145, 0, 0, 0, 0, 0, 255, 0, 0, 0, 255, 0, 0, 0, 255,
    33, 255, 11, 78, 69, 84, 83, 67, 65, 80, 69, 50, 46, 48, 3, 1, 0, 0, 0, 33, 249, 4, 8, 10,
    0, 0, 0, 44, 0, 0, 0, 0, 2, 0, 2, 0, 0, 2, 2, 140, 83, 0, 33, 249, 4, 4, 20, 0, 0, 0, 44,
    0, 0, 0, 0, 1, 0, 1, 0, 0, 2, 2, 84, 1, 0, 33, 249, 4, 4, 30, 0, 0, 0, 44, 1, 0, 1, 0, 1,
    0, 1, 0, 0, 2, 2, 92, 1, 0, 59,
];

fn single(x: f32) -> Single {
    Single::from_bits(x.to_bits())
}

fn float(x: Single) -> f32 {
    f32::from_bits(x.to_bits())
}

fn grey(v: f32, a: f32) -> Color {
    Color::new(single(v), single(v), single(v), single(a))
}

fn luma(c: Color) -> f32 {
    0.299 * float(c.r) + 0.587 * float(c.g) + 0.114 * float(c.b)
}

/// How wide a framebuffer pixel is for its height.
fn pixel_aspect(cell_aspect: f32, sx: u16, sy: u16) -> f32 {
    let product = cell_aspect * (sy as f32 / sx as f32);
    float(aspect::pixel_aspect(single(cell_aspect), sx, sy, single(product)))
}

/// The largest size within the region that keeps the shape of the image.
fn fit_dimensions(img_w: u32, img_h: u32, max_w: usize, max_h: usize, pa: f32) -> (usize, usize) {
    let pa = if aspect::usable(single(pa)) {
        pa as f64
    } else {
        1.0
    };
    let ratio = (img_w as f64 / img_h as f64) / pa;
    let height = (max_w as f64 / ratio).round() as usize;
    let width = (max_h as f64 * ratio).round() as usize;
    aspect::fit_dimensions(img_w, img_h, max_w, max_h, height, width)
}

fn fit(img: &DecodedImage, viewport: Viewport, opts: &RenderOptions) -> (usize, usize) {
    let (max_w, max_h) = viewport.render_size(opts.subpixel_x, opts.subpixel_y);
    let pa = pixel_aspect(float(opts.cell_aspect), opts.subpixel_x, opts.subpixel_y);
    fit_dimensions(img.width(), img.height(), max_w, max_h, pa)
}

fn show(img: &DecodedImage, viewport: Viewport, opts: &RenderOptions) -> Framebuffer {
    img.to_framebuffer(viewport, opts, fit(img, viewport, opts), &pixel_sum)
}

// --- Aspect -----------------------------------------------------------------------------------

#[test]
fn braille_pixels_are_square() {
    assert!((pixel_aspect(0.5, 2, 4) - 1.0).abs() < 1e-6);
}

#[test]
fn half_block_pixels_are_square() {
    assert!((pixel_aspect(0.5, 1, 2) - 1.0).abs() < 1e-6);
}

#[test]
fn ascii_pixels_are_tall() {
    // 1x1 subpixels over a 1:2 cell => pixel is twice as tall as wide.
    assert!((pixel_aspect(0.5, 1, 1) - 0.5).abs() < 1e-6);
}

#[test]
fn degenerate_inputs_fall_back_to_unity() {
    assert_eq!(pixel_aspect(0.5, 0, 4), 1.0);
    assert_eq!(pixel_aspect(0.0, 2, 4), 1.0);
    assert_eq!(pixel_aspect(f32::NAN, 2, 4), 1.0);
}

#[test]
fn square_image_square_pixels_fills_square_region() {
    // 100x100 image into 80x80 region, square pixels => 80x80.
    assert_eq!(fit_dimensions(100, 100, 80, 80, 1.0), (80, 80));
}

#[test]
fn wide_image_is_width_limited() {
    // 200x100 (2:1) into 80x80, square pixels => width 80, height 40.
    assert_eq!(fit_dimensions(200, 100, 80, 80, 1.0), (80, 40));
}

#[test]
fn tall_image_is_height_limited() {
    // 100x200 (1:2) into 80x80, square pixels => height 80, width 40.
    assert_eq!(fit_dimensions(100, 200, 80, 80, 1.0), (40, 80));
}

#[test]
fn ascii_correction_stretches_height() {
    // Square image, ASCII pixels (aspect 0.5, tall). Target ratio
    // w/h = 1 / 0.5 = 2, so a full-width 80 wants height 40.
    assert_eq!(fit_dimensions(100, 100, 80, 80, 0.5), (80, 40));
}

#[test]
fn aspect_preserved_within_one_pixel() {
    // A 640x480 (4:3) photo into a 120x120 braille framebuffer (square px).
    let (w, h) = fit_dimensions(640, 480, 120, 120, 1.0);
    let want = 640.0f64 / 480.0;
    let got = w as f64 / h as f64;
    // Rounding to integer pixels keeps the displayed ratio within ~1px.
    assert!((got - want).abs() < (1.0 / h as f64) + 1e-9, "{w}x{h}");
}

#[test]
fn empty_region_or_image_is_zero() {
    assert_eq!(fit_dimensions(0, 10, 80, 80, 1.0), (0, 0));
    assert_eq!(fit_dimensions(10, 10, 0, 80, 1.0), (0, 0));
}

#[test]
fn thin_images_keep_a_pixel() {
    assert_eq!(fit_dimensions(10_000, 1, 80, 80, 1.0), (80, 1));
    assert_eq!(fit_dimensions(1, 10_000, 80, 80, 1.0), (1, 80));
}

// --- Decoding ---------------------------------------------------------------------------------

#[test]
fn decodes_1x1_red_png() {
    let img = DecodedImage::from_bytes(TEST_RED_1X1_PNG).unwrap();
    assert_eq!((img.width(), img.height()), (1, 1));
    assert_eq!(img.rgba_at(0, 0), Some((255, 0, 0, 255)));
    assert_eq!(doctest_png(), TEST_RED_1X1_PNG);
}

#[test]
fn decodes_4x4_png_to_known_pixels() {
    let img = DecodedImage::from_bytes(TEST_4X4_PNG).unwrap();
    assert_eq!((img.width(), img.height()), (4, 4));
    for y in 0..4u32 {
        for x in 0..4u32 {
            let want = (
                (x * 80).min(255) as u8,
                (y * 80).min(255) as u8,
                40u8,
                255u8,
            );
            assert_eq!(img.rgba_at(x, y), Some(want), "pixel ({x},{y})");
        }
    }
    assert_eq!(img.color_at(4, 0), None);
}

/// A JPEG of 16x8 pixels, all of one color.
fn plain_jpeg() -> Vec<u8> {
    let mut bytes = Vec::new();
    let pixels: Vec<u8> = [200u8, 40, 20].iter().copied().cycle().take(16 * 8 * 3).collect();
    image::codecs::jpeg::JpegEncoder::new_with_quality(&mut bytes, 95)
        .encode(&pixels, 16, 8, image::ExtendedColorType::Rgb8)
        .unwrap();
    bytes
}

#[test]
fn decodes_jpeg_to_its_size() {
    let img = DecodedImage::from_bytes(&plain_jpeg()).unwrap();
    assert_eq!((img.width(), img.height()), (16, 8));
    for (x, y) in [(0, 0), (15, 7), (8, 3)] {
        let (r, g, b, a) = img.rgba_at(x, y).unwrap();
        assert!(r.abs_diff(200) < 8 && g.abs_diff(40) < 8 && b.abs_diff(20) < 8);
        assert_eq!(a, 255);
    }
}

#[test]
fn broken_jpeg_is_a_decode_error() {
    let bytes = plain_jpeg();
    match DecodedImage::from_bytes(&bytes[..8]) {
        Err(Error::Decode(text)) => assert!(!text.is_empty()),
        other => panic!("{other:?}"),
    }
}

#[test]
fn every_filter_shows_this_image() {
    let img = DecodedImage::from_bytes(TEST_4X4_PNG).unwrap();
    let filters = [
        ResizeFilter::Nearest,
        ResizeFilter::Triangle,
        ResizeFilter::CatmullRom,
        ResizeFilter::Lanczos3,
    ];
    for filter in filters {
        let opts = RenderOptions {
            filter,
            ..RenderOptions::ascii()
        };
        let fb = img.to_framebuffer(Viewport::new(8, 8), &opts, (8, 8), &pixel_sum);
        // Red grows to the right and green grows downwards; blue stays.
        let (first, last) = (fb.get(0, 0), fb.get(7, 7));
        assert!(float(first.r) < 0.2 && float(first.g) < 0.2);
        assert!(float(last.r) > 0.8 && float(last.g) > 0.8);
        assert!((float(first.b) - 40.0 / 255.0).abs() < 0.02);
    }
}

#[test]
fn decodes_2x2_webp_to_known_pixels() {
    let img = DecodedImage::from_bytes(TEST_WEBP_2X2).unwrap();
    assert_eq!((img.width(), img.height()), (2, 2));
    assert_eq!(img.rgba_at(0, 0), Some((255, 0, 0, 255)));
    assert_eq!(img.rgba_at(1, 0), Some((0, 255, 0, 255)));
    assert_eq!(img.rgba_at(0, 1), Some((0, 0, 255, 255)));
    assert_eq!(img.rgba_at(1, 1), Some((255, 255, 255, 255)));
}

#[test]
fn decodes_2x2_bmp_to_known_pixels() {
    let img = DecodedImage::from_bytes(TEST_BMP_2X2).unwrap();
    assert_eq!((img.width(), img.height()), (2, 2));
    assert_eq!(img.rgba_at(0, 0), Some((255, 0, 0, 255)));
    assert_eq!(img.rgba_at(1, 0), Some((0, 255, 0, 255)));
    assert_eq!(img.rgba_at(0, 1), Some((0, 0, 255, 255)));
    assert_eq!(img.rgba_at(1, 1), Some((10, 20, 30, 255)));
}

#[test]
fn colors_are_the_channels_scaled_to_one() {
    let img = DecodedImage::from_bytes(TEST_BMP_2X2).unwrap();
    assert_eq!(img.color_at(1, 1), Some(Color::from_u8(10, 20, 30, 255)));
    assert_eq!(img.rgba()[12..], [10, 20, 30, 255]);
}

#[test]
fn solid_image_survives_resize_into_framebuffer() {
    let img = DecodedImage::from_bytes(TEST_BLUE_2X2_PNG).unwrap();
    // Square viewport with square (braille) pixels => a 2x2 square fills it fully.
    let opts = RenderOptions::braille();
    let fb = show(&img, Viewport::new(4, 2), &opts);
    // render size = (4*2, 2*4) = (8, 8)
    assert_eq!((fb.width(), fb.height()), (8, 8));
    // A solid blue image resized stays solid blue everywhere.
    let center = fb.get(4, 4);
    assert!(
        float(center.b) > 0.9 && float(center.r) < 0.1 && float(center.g) < 0.1,
        "{center:?}"
    );
    assert!(float(center.a) > 0.9);
}

#[test]
fn empty_bytes_error_not_panic() {
    // Empty input is an unrecognizable format: must be an Err, never a panic.
    assert!(DecodedImage::from_bytes(&[]).is_err());
    assert!(matches!(
        DecodedImage::from_bytes(&[]),
        Err(Error::Decode(_))
    ));
}

#[test]
fn corrupt_png_errors() {
    // Valid PNG signature, garbage body.
    let mut bytes = TEST_RED_1X1_PNG[..16].to_vec();
    bytes.extend_from_slice(&[0xDE, 0xAD, 0xBE, 0xEF, 0x00, 0x01, 0x02, 0x03]);
    assert!(DecodedImage::from_bytes(&bytes).is_err());
}

#[test]
fn unsupported_format_is_rejected() {
    // A GIF header ("GIF89a") is a recognized-but-unsupported format here.
    let gif = b"GIF89a\x01\x00\x01\x00\x00\x00\x00;";
    assert!(matches!(
        DecodedImage::from_bytes(gif),
        Err(Error::Unsupported(_))
    ));
}

#[test]
fn formats_are_told_by_their_first_bytes() {
    assert_eq!(format_of(TEST_RED_1X1_PNG), Some(Format::Png));
    assert_eq!(format_of(TEST_WEBP_2X2), Some(Format::WebP));
    assert_eq!(format_of(TEST_BMP_2X2), Some(Format::Bmp));
    assert_eq!(format_of(TEST_GIF_3FRAME), Some(Format::Gif));
    assert_eq!(format_of(&[0xff, 0xd8, 0xff, 0xe0]), Some(Format::Jpeg));
    assert_eq!(format_of(b"plain text"), None);
    assert_eq!(format_of(b""), None);
    assert_eq!(Format::Png.label(), "PNG");
}

#[test]
fn inspection_tells_size_and_pixel_layout() {
    let facts = inspect(TEST_4X4_PNG).unwrap();
    assert_eq!((facts.width, facts.height), (4, 4));
    assert_eq!(facts.color_type, "Rgba8");
    assert!(inspect(b"plain text").unwrap_err().unsupported);
}

#[test]
fn decoder_failures_keep_their_text() {
    let failure = |unsupported| ImageFailure {
        unsupported,
        message: "why".to_string(),
    };
    assert_eq!(
        map_image_error(failure(true)).message(),
        "unsupported format: why"
    );
    assert_eq!(map_image_error(failure(false)).message(), "decode error: why");
    assert!(matches!(
        report_outcome(Err(failure(false))),
        Err(Error::Decode(_))
    ));
    let image = DecodedImage::from_rgba(1, 1, vec![1, 2, 3, 4]).unwrap();
    assert_eq!(
        report_outcome(Ok(image)).unwrap().rgba_at(0, 0),
        Some((1, 2, 3, 4))
    );
}

#[test]
fn unknown_bytes_name_no_format() {
    let err = DecodedImage::from_bytes(b"not an image").unwrap_err();
    assert_eq!(
        err.message(),
        "decode error: The image format could not be determined"
    );
}

#[test]
fn pixel_bytes_must_match_the_size() {
    assert!(DecodedImage::from_rgba(2, 1, vec![0; 8]).is_some());
    assert!(DecodedImage::from_rgba(2, 1, vec![0; 7]).is_none());
}

// --- Rendering --------------------------------------------------------------------------------

/// Render options that map one source pixel to one framebuffer pixel with no resampling.
fn exact_opts() -> RenderOptions {
    RenderOptions {
        subpixel_x: 1,
        subpixel_y: 1,
        cell_aspect: single(1.0),
        filter: ResizeFilter::Nearest,
        background: Color::transparent(),
        preprocess: Preprocess::identity(),
    }
}

#[test]
fn unscaled_image_is_shown_exactly() {
    let img = DecodedImage::from_bytes(TEST_4X4_PNG).unwrap();
    let fb = show(&img, Viewport::new(4, 4), &exact_opts());
    for y in 0..4 {
        for x in 0..4 {
            assert_eq!(Some(fb.get(x, y)), img.color_at(x as u32, y as u32));
        }
    }
}

#[test]
fn narrow_image_is_centred_on_the_background() {
    let img = DecodedImage::from_bytes(TEST_BLUE_2X2_PNG).unwrap();
    let opts = RenderOptions {
        background: Color::white(),
        ..exact_opts()
    };
    let fb = show(&img, Viewport::new(6, 2), &opts);
    let blue = Color::from_u8(0, 0, 255, 255);
    for y in 0..2 {
        let row: Vec<bool> = (0..6).map(|x| fb.get(x, y) == blue).collect();
        assert_eq!(row, vec![false, false, true, true, false, false]);
        assert_eq!(fb.get(0, y), Color::white());
    }
}

#[test]
fn nearest_resizing_repeats_pixels() {
    let img = DecodedImage::from_bytes(TEST_BMP_2X2).unwrap();
    let fb = show(&img, Viewport::new(4, 4), &exact_opts());
    for y in 0..4u32 {
        for x in 0..4u32 {
            assert_eq!(
                Some(fb.get(x as usize, y as usize)),
                img.color_at(x / 2, y / 2)
            );
        }
    }
}

#[test]
fn too_large_a_size_cannot_be_shown() {
    let img = DecodedImage::from_bytes(TEST_BLUE_2X2_PNG).unwrap();
    let opts = exact_opts();
    let viewport = Viewport::new(4, 4);
    assert!(img.can_render(viewport, &opts, (4, 4)));
    assert!(img.can_render(viewport, &opts, (0, 4)));
    assert!(!img.can_render(viewport, &opts, (5, 4)));
    assert!(!img.can_render(viewport, &opts, (4, 5)));
    let empty = DecodedImage::from_rgba(0, 7, Vec::new()).unwrap();
    assert!(!empty.can_render(viewport, &opts, (1, 1)));
}

#[test]
fn pasting_leaves_the_rest_alone() {
    let mut fb = Framebuffer::new(3, 3);
    fb.clear(Color::black());
    paste_centred(&mut fb, &[255, 255, 255, 255], 1, 1);
    for y in 0..3 {
        for x in 0..3 {
            let want = if (x, y) == (1, 1) {
                Color::white()
            } else {
                Color::black()
            };
            assert_eq!(fb.get(x, y), want);
        }
    }
}

#[test]
fn presets_differ_in_subpixels() {
    let b = RenderOptions::braille();
    assert_eq!((b.subpixel_x, b.subpixel_y), (2, 4));
    let h = RenderOptions::half_blocks();
    assert_eq!((h.subpixel_x, h.subpixel_y), (1, 2));
    let a = RenderOptions::ascii();
    assert_eq!((a.subpixel_x, a.subpixel_y), (1, 1));
    assert_eq!(float(a.cell_aspect), 0.5);
    assert_eq!(RenderOptions::default().subpixel_x, 2);
    assert_eq!(ResizeFilter::default(), ResizeFilter::Lanczos3);
}

fn source(viewport: Viewport, opts: RenderOptions) -> ImageSource<fn(PixelSum) -> Single> {
    let img = DecodedImage::from_bytes(TEST_RED_1X1_PNG).unwrap();
    let size = fit(&img, viewport, &opts);
    ImageSource::new(img, viewport, opts, size, pixel_sum)
}

#[test]
fn yields_exactly_one_frame() {
    let mut src = source(Viewport::new(10, 5), RenderOptions::braille());
    let mut fb = Framebuffer::new(0, 0);

    assert!(src.next_frame(&mut fb).unwrap());
    // render size = (10*2, 5*4) = (20, 20)
    assert_eq!((fb.width(), fb.height()), (20, 20));
    assert!(!src.next_frame(&mut fb).unwrap());
    assert!(!src.next_frame(&mut fb).unwrap());

    src.reset();
    assert!(src.next_frame(&mut fb).unwrap());
    assert_eq!(src.viewport(), Viewport::new(10, 5));
}

#[test]
fn frame_delay_is_none_for_still() {
    let src = source(Viewport::new(4, 4), RenderOptions::default());
    assert!(src.frame_delay().is_none());
}

// --- Preprocessing ----------------------------------------------------------------------------

fn filled(w: usize, h: usize, v: f32) -> Framebuffer {
    let mut fb = Framebuffer::new(w, h);
    fb.clear(grey(v, 1.0));
    fb
}

/// Runs the dithering stage of a preprocess; error is spread with plain float arithmetic.
fn tone_channel(v: f32, t: &Tone) -> f32 {
    let mut v = v.clamp(0.0, 1.0);
    if float(t.gamma) != 1.0 {
        v = v.powf(float(t.gamma));
    }
    v = (v - 0.5) * float(t.contrast) + 0.5;
    v += float(t.brightness);
    v.clamp(0.0, 1.0)
}

fn pixel_sum(sum: PixelSum) -> Single {
    single(match sum {
        PixelSum::Luma(c) => luma(c),
        PixelSum::Tone(v, tone) => tone_channel(float(v), &tone),
        PixelSum::Plus(a, b) => float(a) + float(b),
        PixelSum::Sharpen { value, sum, amount } => {
            let v = float(value);
            (v + float(amount) * (v - float(sum) / 9.0)).clamp(0.0, 1.0)
        }
        PixelSum::Diffuse {
            into,
            from,
            lit,
            weight,
            divisor,
        } => {
            let err = float(from) - if lit { 1.0 } else { 0.0 };
            float(into) + err * weight as f32 / divisor as f32
        }
    })
}

fn apply(pre: &Preprocess, fb: &mut Framebuffer) {
    pre.apply(fb, &pixel_sum);
}

#[test]
fn sharpen_increases_contrast_across_a_step_edge() {
    // A horizontal step edge: left half 0.3, right half 0.7.
    let (w, h) = (8usize, 4usize);
    let mut fb = Framebuffer::new(w, h);
    for y in 0..h {
        for x in 0..w {
            fb.set(x, y, grey(if x < w / 2 { 0.3 } else { 0.7 }, 1.0));
        }
    }
    let pre = Preprocess {
        tone: Tone {
            sharpen: Some(single(1.0)),
            ..Tone::identity()
        },
        ..Preprocess::identity()
    };
    apply(&pre, &mut fb);
    let y = h / 2;
    // The dark pixel just left of the edge should darken below 0.3, and the
    // light pixel just right should brighten above 0.7: local contrast rises.
    let left = float(fb.get(w / 2 - 1, y).r);
    let right = float(fb.get(w / 2, y).r);
    assert!(left < 0.3, "left edge did not darken: {left}");
    assert!(right > 0.7, "right edge did not brighten: {right}");
    assert!(
        right - left > 0.4,
        "edge contrast did not increase: {}",
        right - left
    );
}

#[test]
fn levels_run_before_dithering() {
    // Brightness lifts a dark pixel above the threshold.
    let mut fb = filled(2, 1, 0.25);
    let pre = Preprocess {
        tone: Tone {
            brightness: single(0.5),
            ..Tone::identity()
        },
        dither: Dither::ThresholdOnly,
        threshold: single(0.5),
    };
    apply(&pre, &mut fb);
    assert_eq!(fb.get(0, 0), grey(1.0, 1.0));
    let mut dark = filled(2, 1, 0.25);
    apply(&dithered(Dither::ThresholdOnly), &mut dark);
    assert_eq!(dark.get(1, 0), grey(0.0, 1.0));
}

#[test]
fn error_is_handed_on_to_the_next_pixel() {
    // 0.4 stays dark and hands on 7/16 of it: 0.4 + 0.175 lights the next.
    let mut fb = filled(2, 1, 0.4);
    apply(&dithered(Dither::FloydSteinberg), &mut fb);
    assert_eq!(fb.get(0, 0), grey(0.0, 1.0));
    assert_eq!(fb.get(1, 0), grey(1.0, 1.0));
}

#[test]
fn rendering_runs_the_image_quality_stage() {
    let img = DecodedImage::from_bytes(TEST_RED_1X1_PNG).unwrap();
    let opts = RenderOptions {
        preprocess: dithered(Dither::ThresholdOnly),
        ..exact_opts()
    };
    // Red has a luminance below one half.
    let fb = img.to_framebuffer(Viewport::new(1, 1), &opts, (1, 1), &pixel_sum);
    assert_eq!(fb.get(0, 0), grey(0.0, 1.0));
    let plain = img.to_framebuffer(Viewport::new(1, 1), &exact_opts(), (1, 1), &pixel_sum);
    assert_eq!(plain.get(0, 0), Color::from_u8(255, 0, 0, 255));
}

fn lit_ratio(fb: &Framebuffer) -> f32 {
    let lit = fb.color().iter().filter(|c| float(c.r) >= 0.5).count();
    lit as f32 / fb.len() as f32
}

fn dithered(dither: Dither) -> Preprocess {
    Preprocess {
        dither,
        ..Preprocess::identity()
    }
}

#[test]
fn identity_is_noop() {
    let mut fb = filled(8, 8, 0.42);
    let before = fb.color().to_vec();
    apply(&Preprocess::identity(), &mut fb);
    assert_eq!(fb.color(), before.as_slice());
    assert!(Preprocess::identity().is_identity());
    assert!(!dithered(Dither::ThresholdOnly).is_identity());
}

#[test]
fn floyd_steinberg_midgray_is_about_half_lit() {
    let mut fb = filled(64, 64, 0.5);
    apply(&dithered(Dither::FloydSteinberg), &mut fb);
    // Every pixel must be pure black or white after dithering.
    assert!(
        fb.color()
            .iter()
            .all(|c| float(c.r) == 0.0 || float(c.r) == 1.0),
        "dither must produce 1-bit output"
    );
    let ratio = lit_ratio(&fb);
    assert!(
        (ratio - 0.5).abs() < 0.1,
        "expected ~50% lit on mid-gray, got {ratio}"
    );
}

#[test]
fn atkinson_midgray_is_about_half_lit() {
    let mut fb = filled(64, 64, 0.5);
    apply(&dithered(Dither::Atkinson), &mut fb);
    let ratio = lit_ratio(&fb);
    assert!(
        (ratio - 0.5).abs() < 0.15,
        "expected ~50% lit on mid-gray, got {ratio}"
    );
}

#[test]
fn bayer_matrix_4x4_matches_known_values() {
    // The canonical 4x4 Bayer matrix.
    let expected: [u32; 16] = [0, 8, 2, 10, 12, 4, 14, 6, 3, 11, 1, 9, 15, 7, 13, 5];
    assert_eq!(bayer_matrix(4), expected);
}

#[test]
fn bayer_matrix_2x2_matches_known_values() {
    assert_eq!(bayer_matrix(2), [0u32, 2, 3, 1]);
}

#[test]
fn bayer_ranks_are_all_different() {
    for size in [
        BayerSize::Two,
        BayerSize::Four,
        BayerSize::Eight,
        BayerSize::Sixteen,
    ] {
        let n = size.n();
        let mut ranks = bayer_matrix(n);
        ranks.sort_unstable();
        let all: Vec<u32> = (0..(n * n) as u32).collect();
        assert_eq!(ranks, all);
    }
    assert_eq!(BayerSize::default(), BayerSize::Four);
}

#[test]
fn bayer_midgray_is_deterministic_checkerboard() {
    let mut fb = filled(4, 4, 0.5);
    apply(&dithered(Dither::Bayer(BayerSize::Four)), &mut fb);
    // With a flat 0.5 field and the 4x4 matrix, lit iff bayer <= 7: an exact
    // checkerboard. Snapshot it as a boolean grid.
    let grid: Vec<bool> = fb.color().iter().map(|c| float(c.r) >= 0.5).collect();
    let expected = vec![
        true, false, true, false, //
        false, true, false, true, //
        true, false, true, false, //
        false, true, false, true,
    ];
    assert_eq!(grid, expected);
}

#[test]
fn bayer_thresholds_match_float_arithmetic() {
    for size in [
        BayerSize::Two,
        BayerSize::Four,
        BayerSize::Eight,
        BayerSize::Sixteen,
    ] {
        let n = size.n();
        let matrix = bayer_matrix(n);
        for i in 0..n * n {
            let t = (matrix[i] as f32 + 0.5) / (n * n) as f32;
            for v in [t, f32::from_bits(t.to_bits() - 1), 0.0, 1.0, f32::NAN] {
                let mut fb = Framebuffer::new(n, n);
                let luma = vec![single(v); n * n];
                bayer(&mut fb, &luma, size);
                assert_eq!(float(fb.get(i % n, i / n).r) == 1.0, v >= t);
            }
        }
    }
}

#[test]
fn threshold_only_splits_at_threshold() {
    let mut fb = Framebuffer::new(3, 1);
    fb.set(0, 0, grey(0.2, 1.0));
    fb.set(1, 0, grey(0.5, 1.0));
    fb.set(2, 0, grey(0.9, 1.0));
    let pre = Preprocess {
        dither: Dither::ThresholdOnly,
        threshold: single(0.5),
        ..Preprocess::identity()
    };
    apply(&pre, &mut fb);
    assert_eq!(float(fb.get(0, 0).r), 0.0);
    assert_eq!(float(fb.get(1, 0).r), 1.0); // exactly at threshold => lit
    assert_eq!(float(fb.get(2, 0).r), 1.0);
}

#[test]
fn dither_preserves_alpha() {
    let mut fb = Framebuffer::new(2, 1);
    fb.set(0, 0, grey(0.9, 0.25));
    fb.set(1, 0, grey(0.1, 0.75));
    apply(&dithered(Dither::ThresholdOnly), &mut fb);
    assert_eq!(float(fb.get(0, 0).a), 0.25);
    assert_eq!(float(fb.get(1, 0).a), 0.75);
}

#[test]
fn apply_is_noop_on_empty_framebuffer() {
    let mut fb = Framebuffer::new(0, 0);
    apply(&dithered(Dither::FloydSteinberg), &mut fb); // must not panic
    assert!(fb.is_empty());
}

#[test]
fn stages_follow_the_settings() {
    let gamma = Preprocess {
        tone: Tone {
            gamma: single(2.2),
            sharpen: Some(single(0.5)),
            ..Tone::identity()
        },
        ..Preprocess::identity()
    };
    let stages = gamma.stages(false);
    assert!(stages.levels);
    assert_eq!(stages.sharpen, Some(single(0.5)));
    assert_eq!(stages.dither, Dither::Off);
    let none = gamma.stages(true);
    assert!(!none.levels && none.sharpen.is_none());
    assert!(!Tone::identity().needs_levels());
}

#[test]
fn kernels_spread_forward_and_no_more_than_the_error() {
    for (kernel, total) in [(Kernel::FloydSteinberg, 16), (Kernel::Atkinson, 6)] {
        let taps = kernel.taps();
        assert_eq!(taps.iter().map(|t| t.weight).sum::<u32>(), total);
        assert!(taps.iter().all(|t| t.dy > 0 || (t.dy == 0 && t.dx > 0)));
    }
    assert_eq!(Kernel::FloydSteinberg.divisor(), 16);
    assert_eq!(Kernel::Atkinson.divisor(), 8);
    let tap = Kernel::FloydSteinberg.taps()[1]; // (-1, 1)
    assert_eq!(diffusion_target(tap, 0, 0, 4, 4), None);
    assert_eq!(diffusion_target(tap, 1, 0, 4, 4), Some(4));
    assert_eq!(diffusion_target(tap, 1, 3, 4, 4), None);
}

#[test]
fn neighbours_stop_at_the_border() {
    assert_eq!(clamped_neighbour(0, -1, 4), 0);
    assert_eq!(clamped_neighbour(1, -1, 4), 0);
    assert_eq!(clamped_neighbour(3, 1, 4), 3);
    assert_eq!(clamped_neighbour(2, 0, 4), 2);
}

// --- Animated GIFs ----------------------------------------------------------------------------

type Gif = GifSource<fn(u32, u32) -> (usize, usize), fn(PixelSum) -> Single>;

/// The size at which a canvas is shown in a viewport of 2x2 cells.
fn canvas_fit(w: u32, h: u32) -> (usize, usize) {
    let opts = exact_opts();
    let pa = pixel_aspect(float(opts.cell_aspect), opts.subpixel_x, opts.subpixel_y);
    fit_dimensions(w, h, 2, 2, pa)
}

fn open(bytes: &[u8], loop_mode: GifLoop) -> Result<Gif, Error> {
    GifSource::from_bytes(
        bytes.to_vec(),
        Viewport::new(2, 2),
        exact_opts(),
        loop_mode,
        canvas_fit,
        pixel_sum,
    )
}

fn gif(loop_mode: GifLoop) -> Gif {
    open(TEST_GIF_3FRAME, loop_mode).unwrap()
}

/// Asks for the next frame.
fn next(src: &mut Gif, fb: &mut Framebuffer) -> bool {
    src.next_frame(fb).unwrap()
}

fn approx(c: Color, r: f32, g: f32, b: f32, a: f32) -> bool {
    (float(c.r) - r).abs() < 1e-3
        && (float(c.g) - g).abs() < 1e-3
        && (float(c.b) - b).abs() < 1e-3
        && (float(c.a) - a).abs() < 1e-3
}

#[test]
fn three_frames_in_order_with_delays() {
    let mut src = gif(GifLoop::Once);
    let mut fb = Framebuffer::new(0, 0);

    assert!(next(&mut src, &mut fb));
    assert_eq!(src.frame_delay(), Some(Span::from_millis(100)));

    assert!(next(&mut src, &mut fb));
    assert_eq!(src.frame_delay(), Some(Span::from_millis(200)));

    assert!(next(&mut src, &mut fb));
    assert_eq!(src.frame_delay(), Some(Span::from_millis(300)));

    // Exactly three frames, then exhausted (Once).
    assert!(!next(&mut src, &mut fb));
    assert!(!next(&mut src, &mut fb));
}

#[test]
fn disposal_composites_across_frames() {
    let mut src = gif(GifLoop::Once);
    let mut fb = Framebuffer::new(0, 0);

    // Frame 0: full red.
    next(&mut src, &mut fb);
    assert_eq!((fb.width(), fb.height()), (2, 2));
    for y in 0..2 {
        for x in 0..2 {
            assert!(approx(fb.get(x, y), 1.0, 0.0, 0.0, 1.0), "f0 ({x},{y})");
        }
    }

    // Frame 1: background restored (transparent) then green at (0,0).
    next(&mut src, &mut fb);
    assert!(approx(fb.get(0, 0), 0.0, 1.0, 0.0, 1.0), "f1 (0,0) green");
    assert!(approx(fb.get(1, 0), 0.0, 0.0, 0.0, 0.0), "f1 (1,0) clear");
    assert!(approx(fb.get(0, 1), 0.0, 0.0, 0.0, 0.0), "f1 (0,1) clear");
    assert!(approx(fb.get(1, 1), 0.0, 0.0, 0.0, 0.0), "f1 (1,1) clear");

    // Frame 2: green kept at (0,0), blue added at (1,1).
    next(&mut src, &mut fb);
    assert!(
        approx(fb.get(0, 0), 0.0, 1.0, 0.0, 1.0),
        "f2 (0,0) green kept"
    );
    assert!(approx(fb.get(1, 1), 0.0, 0.0, 1.0, 1.0), "f2 (1,1) blue");
    assert!(approx(fb.get(1, 0), 0.0, 0.0, 0.0, 0.0), "f2 (1,0) clear");
    assert!(approx(fb.get(0, 1), 0.0, 0.0, 0.0, 0.0), "f2 (0,1) clear");
}

#[test]
fn infinite_loop_restarts_after_last_frame() {
    let mut src = gif(GifLoop::Infinite);
    let mut fb = Framebuffer::new(0, 0);

    // Three frames, then it wraps to frame 0 (red) instead of exhausting.
    for _ in 0..3 {
        assert!(next(&mut src, &mut fb));
    }
    assert!(next(&mut src, &mut fb));
    assert_eq!(src.frame_delay(), Some(Span::from_millis(100)));
    for y in 0..2 {
        for x in 0..2 {
            assert!(
                approx(fb.get(x, y), 1.0, 0.0, 0.0, 1.0),
                "wrapped f0 ({x},{y})"
            );
        }
    }
    assert_eq!(src.loop_mode(), GifLoop::Infinite);
}

#[test]
fn reset_replays_from_first_frame() {
    let mut src = gif(GifLoop::Once);
    let mut fb = Framebuffer::new(0, 0);
    while next(&mut src, &mut fb) {}
    src.reset().unwrap();
    assert!(next(&mut src, &mut fb));
    assert_eq!(src.frame_delay(), Some(Span::from_millis(100)));
}

#[test]
fn frame_delay_is_none_before_first_frame() {
    let src = gif(GifLoop::Once);
    assert!(src.frame_delay().is_none());
}

#[test]
fn malformed_gif_errors_not_panics() {
    // Valid GIF89a signature, truncated garbage body.
    let bytes = b"GIF89a\x02\x00\x02\x00\x00\xDE\xAD";
    assert!(open(bytes, GifLoop::Once)
    .is_err());
}

#[test]
fn non_gif_bytes_error() {
    assert!(open(&[], GifLoop::Once)
    .is_err());
}

#[test]
fn all_frames_are_collected_in_order() {
    let frames = decode_all(TEST_GIF_3FRAME).unwrap();
    let delays: Vec<Span> = frames.iter().map(|f| f.delay).collect();
    assert_eq!(
        delays,
        vec![
            Span::from_millis(100),
            Span::from_millis(200),
            Span::from_millis(300)
        ]
    );
    assert_eq!(frames[0].image.rgba_at(1, 1), Some((255, 0, 0, 255)));
    assert_eq!(frames[2].image.rgba_at(1, 1), Some((0, 0, 255, 255)));
    assert!(matches!(decode_all(b""), Err(GifTrouble::Opening(_))));
}

#[test]
fn truncated_gif_fails_while_collecting() {
    let cut = &TEST_GIF_3FRAME[..70];
    assert!(matches!(decode_all(cut), Err(GifTrouble::Frames(_))));
}
