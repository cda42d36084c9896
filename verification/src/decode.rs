//! Still-image (PNG/JPEG/WebP/BMP) decoding into an in-memory RGBA image.

use crate::color::Color;
use crate::error::Error;
use crate::framebuffer::lemma_index_in_plane;
use image::ImageFormat;
use vstd::prelude::*;
use vstd::string::*;

verus! {

/// The image formats that can be told apart by their first bytes.
#[derive(Clone, Copy, Debug, PartialEq, Eq, Structural)]
pub enum Format {
    /// Portable Network Graphics.
    Png,
    /// JPEG.
    Jpeg,
    /// GIF.
    Gif,
    /// WebP.
    WebP,
    /// TIFF.
    Tiff,
    /// DirectDraw surface.
    Dds,
    /// Windows bitmap.
    Bmp,
    /// Windows icon.
    Ico,
    /// Radiance HDR.
    Hdr,
    /// AVIF.
    Avif,
    /// OpenEXR.
    OpenExr,
    /// Quite OK Image.
    Qoi,
    /// Portable anymap.
    Pnm,
    /// Farbfeld.
    Farbfeld,
}

impl Format {
    /// The name of the format.
    pub open spec fn spec_name(self) -> Seq<char> {
        match self {
            Format::Png => "Png"@,
            Format::Jpeg => "Jpeg"@,
            Format::Gif => "Gif"@,
            Format::WebP => "WebP"@,
            Format::Tiff => "Tiff"@,
            Format::Dds => "Dds"@,
            Format::Bmp => "Bmp"@,
            Format::Ico => "Ico"@,
            Format::Hdr => "Hdr"@,
            Format::Avif => "Avif"@,
            Format::OpenExr => "OpenExr"@,
            Format::Qoi => "Qoi"@,
            Format::Pnm => "Pnm"@,
            Format::Farbfeld => "Farbfeld"@,
        }
    }

    /// The name of the format.
    pub fn name(self) -> (s: &'static str)
        ensures
            s@ == self.spec_name(),
    {
        match self {
            Format::Png => "Png",
            Format::Jpeg => "Jpeg",
            Format::Gif => "Gif",
            Format::WebP => "WebP",
            Format::Tiff => "Tiff",
            Format::Dds => "Dds",
            Format::Bmp => "Bmp",
            Format::Ico => "Ico",
            Format::Hdr => "Hdr",
            Format::Avif => "Avif",
            Format::OpenExr => "OpenExr",
            Format::Qoi => "Qoi",
            Format::Pnm => "Pnm",
            Format::Farbfeld => "Farbfeld",
        }
    }

    /// The label of the format.
    pub open spec fn spec_label(self) -> Seq<char> {
        match self {
            Format::Png => "PNG"@,
            Format::Jpeg => "JPEG"@,
            Format::Gif => "GIF"@,
            Format::WebP => "WEBP"@,
            Format::Tiff => "TIFF"@,
            Format::Dds => "DDS"@,
            Format::Bmp => "BMP"@,
            Format::Ico => "ICO"@,
            Format::Hdr => "HDR"@,
            Format::Avif => "AVIF"@,
            Format::OpenExr => "OPENEXR"@,
            Format::Qoi => "QOI"@,
            Format::Pnm => "PNM"@,
            Format::Farbfeld => "FARBFELD"@,
        }
    }

    /// A short label for the format: its name in capitals.
    pub fn label(self) -> (s: &'static str)
        ensures
            s@ == self.spec_label(),
    {
        match self {
            Format::Png => "PNG",
            Format::Jpeg => "JPEG",
            Format::Gif => "GIF",
            Format::WebP => "WEBP",
            Format::Tiff => "TIFF",
            Format::Dds => "DDS",
            Format::Bmp => "BMP",
            Format::Ico => "ICO",
            Format::Hdr => "HDR",
            Format::Avif => "AVIF",
            Format::OpenExr => "OPENEXR",
            Format::Qoi => "QOI",
            Format::Pnm => "PNM",
            Format::Farbfeld => "FARBFELD",
        }
    }

    /// Whether this is a still-image format that is decoded.
    pub open spec fn is_still(self) -> bool {
        self == Format::Png || self == Format::Jpeg || self == Format::WebP || self == Format::Bmp
    }
}

/// Whether the bytes start with `signature`.
pub open spec fn starts(bytes: Seq<u8>, signature: Seq<u8>) -> bool {
    signature.is_prefix_of(bytes)
}

/// The format whose signature the bytes start with, if it is one of those that can be told apart.
pub open spec fn guessed(bytes: Seq<u8>) -> Option<Format> {
    if starts(bytes, seq![0x89u8, 0x50, 0x4e, 0x47, 0x0d, 0x0a, 0x1a, 0x0a]) {
        Some(Format::Png)
    } else if starts(bytes, seq![0xffu8, 0xd8, 0xff]) {
        Some(Format::Jpeg)
    } else if starts(bytes, seq![0x47u8, 0x49, 0x46, 0x38, 0x39, 0x61]) || starts(
        bytes,
        seq![0x47u8, 0x49, 0x46, 0x38, 0x37, 0x61],
    ) {
        Some(Format::Gif)
    } else if bytes.len() >= 12 && starts(bytes, seq![0x52u8, 0x49, 0x46, 0x46])
        && bytes.subrange(8, 12) == seq![0x57u8, 0x45, 0x42, 0x50] {
        Some(Format::WebP)
    } else if starts(bytes, seq![0x4du8, 0x4d, 0, 0x2a]) || starts(
        bytes,
        seq![0x49u8, 0x49, 0x2a, 0],
    ) {
        Some(Format::Tiff)
    } else if starts(bytes, seq![0x44u8, 0x44, 0x53, 0x20]) {
        Some(Format::Dds)
    } else if starts(bytes, seq![0x42u8, 0x4d]) {
        Some(Format::Bmp)
    } else if starts(bytes, seq![0u8, 0, 1, 0]) {
        Some(Format::Ico)
    } else if starts(bytes, seq![0x23u8, 0x3f, 0x52, 0x41, 0x44, 0x49, 0x41, 0x4e, 0x43, 0x45]) {
        Some(Format::Hdr)
    } else if bytes.len() >= 12 && starts(bytes, seq![0u8, 0]) && bytes.subrange(4, 12)
        == seq![0x66u8, 0x74, 0x79, 0x70, 0x61, 0x76, 0x69, 0x66] {
        Some(Format::Avif)
    } else if starts(bytes, seq![0x76u8, 0x2f, 0x31, 0x01]) {
        Some(Format::OpenExr)
    } else if starts(bytes, seq![0x71u8, 0x6f, 0x69, 0x66]) {
        Some(Format::Qoi)
    } else if bytes.len() >= 2 && bytes[0] == 0x50 && 0x31 <= bytes[1] <= 0x37 {
        Some(Format::Pnm)
    } else if starts(bytes, seq![0x66u8, 0x61, 0x72, 0x62, 0x66, 0x65, 0x6c, 0x64]) {
        Some(Format::Farbfeld)
    } else {
        None
    }
}

/// Why an image could not be decoded.
#[derive(Clone, Debug)]
pub struct ImageFailure {
    /// Whether the decoder does not support what it found.
    pub unsupported: bool,
    /// What the decoder says.
    pub message: String,
}

/// Why an image could not be decoded: whether it is not supported, and the decoder's words.
pub ghost struct Failure {
    /// Whether the decoder does not support what it found.
    pub unsupported: bool,
    /// What the decoder says.
    pub message: Seq<char>,
}

impl View for ImageFailure {
    type V = Failure;

    open spec fn view(&self) -> Failure {
        Failure { unsupported: self.unsupported, message: self.message@ }
    }
}

/// What a decoded image holds: its size, and its pixels row by row, four bytes each.
pub ghost struct Picture {
    /// The width in pixels.
    pub width: nat,
    /// The height in pixels.
    pub height: nat,
    /// The red, green, blue and alpha of each pixel.
    pub rgba: Seq<u8>,
}

impl Picture {
    /// Whether there are exactly four bytes per pixel.
    pub open spec fn wf(self) -> bool {
        &&& self.width <= u32::MAX
        &&& self.height <= u32::MAX
        &&& self.rgba.len() == 4 * (self.width * self.height)
        &&& self.rgba.len() <= usize::MAX
    }

    /// The red, green, blue and alpha of the pixel at `(x, y)`.
    pub open spec fn rgba_of(self, x: int, y: int) -> (u8, u8, u8, u8) {
        let i = 4 * (y * self.width + x);
        (self.rgba[i], self.rgba[i + 1], self.rgba[i + 2], self.rgba[i + 3])
    }
}

/// A decoded still image held as 8-bit RGBA pixels.
#[derive(Clone, Debug)]
pub struct DecodedImage {
    pub(crate) width: u32,
    pub(crate) height: u32,
    pub(crate) rgba: Vec<u8>,
}

impl View for DecodedImage {
    type V = Picture;

    closed spec fn view(&self) -> Picture {
        Picture { width: self.width as nat, height: self.height as nat, rgba: self.rgba@ }
    }
}

/// What `image::load_from_memory_with_format` decodes these bytes to as an image of that format
/// with 8-bit RGBA pixels, or how it fails.
pub uninterp spec fn still_image(bytes: Seq<u8>, format: Format) -> Result<Picture, Failure>;

/// Whether `image::load_from_memory_with_format` can decode these bytes to that picture as an image of
/// that format.
pub uninterp spec fn may_decode(bytes: Seq<u8>, format: Format, picture: Picture) -> bool;

/// The size of the image that `image::load_from_memory_with_format` decodes these bytes to as an
/// image of that format, or how it fails.
pub uninterp spec fn still_size(bytes: Seq<u8>, format: Format) -> Result<(nat, nat), Failure>;

/// Calls `image::guess_format`, which compares the first bytes with a table of signatures. Where
/// none fits, its error is the one for an undetermined format.
#[verifier::external_body]
fn guess_format(bytes: &[u8]) -> (r: Result<Format, ImageFailure>)
    ensures
        match r {
            Ok(f) => guessed(bytes@) == Some(f),
            Err(e) => guessed(bytes@) is None && e.unsupported && e.message@
                == "The image format could not be determined"@,
        },
{
    let known = |f| match f {
        ImageFormat::Png => Format::Png, ImageFormat::Jpeg => Format::Jpeg,
        ImageFormat::Gif => Format::Gif, ImageFormat::WebP => Format::WebP,
        ImageFormat::Tiff => Format::Tiff, ImageFormat::Dds => Format::Dds,
        ImageFormat::Bmp => Format::Bmp, ImageFormat::Ico => Format::Ico,
        ImageFormat::Hdr => Format::Hdr, ImageFormat::Avif => Format::Avif,
        ImageFormat::OpenExr => Format::OpenExr, ImageFormat::Qoi => Format::Qoi,
        ImageFormat::Pnm => Format::Pnm, _ => Format::Farbfeld,
    };
    image::guess_format(bytes).map(known).map_err(|e| ImageFailure {
        unsupported: matches!(e, image::ImageError::Unsupported(_)),
        message: e.to_string(),
    })
}

/// Calls `image::load_from_memory_with_format` and `DynamicImage::to_rgba8` on these bytes. Every pixel
/// of the result has four bytes, so the bytes are as many as its size says. Whether it succeeds, the
/// size and the failure are a function of the bytes and the format. So are the pixels of PNG, WebP and
/// BMP. The JPEG decoder picks between several routines by the machine it runs on; of its pixels only
/// this is stated, that the decoder can give them for these bytes.
#[verifier::external_body]
fn load_rgba(bytes: &[u8], format: Format) -> (r: Result<DecodedImage, ImageFailure>)
    requires
        format.is_still(),
    ensures
        r is Ok ==> r->Ok_0@.wf(),
        r is Ok ==> may_decode(bytes@, format, r->Ok_0@),
        still_size(bytes@, format) == (match r {
            Ok(i) => Ok((i@.width, i@.height)),
            Err(e) => Err(e@),
        }),
        format != Format::Jpeg ==> still_image(bytes@, format) == (match r {
            Ok(i) => Ok(i@),
            Err(e) => Err(e@),
        }),
{
    let f = match format {
        Format::Png => ImageFormat::Png, Format::Jpeg => ImageFormat::Jpeg,
        Format::WebP => ImageFormat::WebP, _ => ImageFormat::Bmp,
    };
    match image::load_from_memory_with_format(bytes, f).map(|d| d.to_rgba8()) {
        Ok(i) => {
            let rgba = i.pixels().flat_map(|p| p.0).collect();
            Ok(DecodedImage { width: i.width(), height: i.height(), rgba })
        },
        Err(e) => Err(ImageFailure {
            unsupported: matches!(e, image::ImageError::Unsupported(_)),
            message: e.to_string(),
        }),
    }
}

/// The format of the bytes, as far as it can be told.
pub fn format_of(bytes: &[u8]) -> (f: Option<Format>)
    ensures
        f == guessed(bytes@),
{
    match guess_format(bytes) {
        Ok(f) => Some(f),
        Err(_) => None,
    }
}

/// What is said of an image without showing it.
#[derive(Clone, Debug)]
pub struct ImageFacts {
    /// The width in pixels.
    pub width: u32,
    /// The height in pixels.
    pub height: u32,
    /// How a pixel is made up.
    pub color_type: String,
}

/// What is said of an image: its width, its height, and how a pixel is made up.
pub ghost struct Facts {
    /// The width in pixels.
    pub width: nat,
    /// The height in pixels.
    pub height: nat,
    /// How a pixel is made up.
    pub color_type: Seq<char>,
}

impl View for ImageFacts {
    type V = Facts;

    open spec fn view(&self) -> Facts {
        Facts {
            width: self.width as nat,
            height: self.height as nat,
            color_type: self.color_type@,
        }
    }
}

/// What `image::load_from_memory` says of these bytes, or how it fails.
pub uninterp spec fn image_facts(bytes: Seq<u8>) -> Result<Facts, Failure>;

/// Calls `image::load_from_memory` and takes over the size and the name of the color type of what it
/// decodes to. That, and how it fails, is a function of the bytes: the decoding hooks that the crate
/// can be given are never used here.
#[verifier::external_body]
fn load_facts(bytes: &[u8]) -> (r: Result<ImageFacts, ImageFailure>)
    ensures
        image_facts(bytes@) == (match r {
            Ok(f) => Ok(f@),
            Err(e) => Err(e@),
        }),
{
    match image::load_from_memory(bytes) {
        Ok(d) => {
            let color_type = format!("{:?}", d.color());
            Ok(ImageFacts { width: d.width(), height: d.height(), color_type })
        },
        Err(e) => Err(ImageFailure {
            unsupported: matches!(e, image::ImageError::Unsupported(_)),
            message: e.to_string(),
        }),
    }
}

/// What is said of an image of any format that can be decoded.
pub fn inspect(bytes: &[u8]) -> (r: Result<ImageFacts, ImageFailure>)
    ensures
        image_facts(bytes@) == (match r {
            Ok(f) => Ok(f@),
            Err(e) => Err(e@),
        }),
{
    load_facts(bytes)
}

/// Turns a decoder's failure into the shared error.
pub fn map_image_error(failure: ImageFailure) -> (e: Error)
    ensures
        e.detail() == failure.message@,
        failure.unsupported ==> e is Unsupported,
        !failure.unsupported ==> e is Decode,
{
    if failure.unsupported {
        Error::Unsupported(failure.message)
    } else {
        Error::Decode(failure.message)
    }
}

/// Whether `r` is a decoder's outcome with its failure turned into the shared error.
pub open spec fn reported(outcome: Result<Picture, Failure>, r: Result<DecodedImage, Error>) -> bool {
    match outcome {
        Ok(p) => r is Ok && r->Ok_0@ == p,
        Err(f) => r is Err && r->Err_0.detail() == f.message && if f.unsupported {
            r->Err_0 is Unsupported
        } else {
            r->Err_0 is Decode
        },
    }
}

/// Whether `r` is an image of the size that a decoder tells, or the decoder's failure turned into
/// the shared error.
pub open spec fn reported_size(
    outcome: Result<(nat, nat), Failure>,
    r: Result<DecodedImage, Error>,
) -> bool {
    match outcome {
        Ok(size) => r is Ok && r->Ok_0@.width == size.0 && r->Ok_0@.height == size.1,
        Err(f) => r is Err && r->Err_0.detail() == f.message && if f.unsupported {
            r->Err_0 is Unsupported
        } else {
            r->Err_0 is Decode
        },
    }
}

/// Hands on a decoder's outcome, with its failure turned into the shared error.
pub fn report_outcome(outcome: Result<DecodedImage, ImageFailure>) -> (r: Result<
    DecodedImage,
    Error,
>)
    ensures
        reported(
            match outcome {
                Ok(i) => Ok(i@),
                Err(f) => Err(f@),
            },
            r,
        ),
{
    match outcome {
        Ok(i) => Ok(i),
        Err(f) => Err(map_image_error(f)),
    }
}

impl DecodedImage {
    /// Makes an image out of its pixels, four bytes each, or `None` where their number does not
    /// match the size.
    pub fn from_rgba(width: u32, height: u32, rgba: Vec<u8>) -> (r: Option<DecodedImage>)
        ensures
            r is Some <==> rgba@.len() == 4 * (width * height),
            r is Some ==> r->0@.wf() && r->0@ == (Picture {
                width: width as nat,
                height: height as nat,
                rgba: rgba@,
            }),
    {
        assert(0 <= width * height <= 0xffff_ffff * 0xffff_ffff) by (nonlinear_arith)
            requires
                0 <= width <= 0xffff_ffff,
                0 <= height <= 0xffff_ffff,
        ;
        if rgba.len() as u128 == 4 * (width as u128 * height as u128) {
            Some(DecodedImage { width, height, rgba })
        } else {
            None
        }
    }

    /// Decodes a still image (PNG, JPEG, WebP, or BMP) from in-memory `bytes`.
    ///
    /// The format is detected from the byte content, not a file extension. A format that is
    /// recognized but not one of these is an [`Error::Unsupported`]; empty or malformed bytes, and
    /// bytes of no recognized format, are an [`Error::Decode`].
    pub fn from_bytes(bytes: &[u8]) -> (r: Result<DecodedImage, Error>)
        ensures
            match guessed(bytes@) {
                None => r is Err && r->Err_0 is Decode && r->Err_0.detail()
                    == "The image format could not be determined"@,
                Some(f) => if !f.is_still() {
                    r is Err && r->Err_0 is Unsupported && r->Err_0.detail() == f.spec_name()
                } else {
                    &&& reported_size(still_size(bytes@, f), r)
                    &&& f != Format::Jpeg ==> reported(still_image(bytes@, f), r)
                },
            },
            r is Ok ==> r->Ok_0@.wf() && may_decode(bytes@, guessed(bytes@)->0, r->Ok_0@),
            r is Err ==> r->Err_0 is Unsupported || r->Err_0 is Decode,
    {
        let format = match guess_format(bytes) {
            Ok(f) => f,
            Err(f) => {
                return Err(Error::Decode(f.message));
            },
        };
        match format {
            Format::Png | Format::Jpeg | Format::WebP | Format::Bmp => {},
            other => {
                return Err(Error::Unsupported(other.name().to_owned()));
            },
        }
        report_outcome(load_rgba(bytes, format))
    }

    /// The decoded width in source pixels.
    pub fn width(&self) -> (n: u32)
        ensures
            n == self@.width,
    {
        self.width
    }

    /// The decoded height in source pixels.
    pub fn height(&self) -> (n: u32)
        ensures
            n == self@.height,
    {
        self.height
    }

    /// The pixels, row by row, four bytes each.
    pub fn rgba(&self) -> (s: &[u8])
        ensures
            s@ == self@.rgba,
    {
        self.rgba.as_slice()
    }

    /// The raw 8-bit RGBA channels of the source pixel at `(x, y)`, or `None` if out of bounds.
    pub fn rgba_at(&self, x: u32, y: u32) -> (r: Option<(u8, u8, u8, u8)>)
        requires
            self@.wf(),
        ensures
            r == if x < self@.width && y < self@.height {
                Some(self@.rgba_of(x as int, y as int))
            } else {
                None
            },
    {
        if x >= self.width || y >= self.height {
            return None;
        }
        proof {
            lemma_index_in_plane(x as int, y as int, self.width as int, self.height as int);
        }
        let i: usize = 4 * (y as usize * self.width as usize + x as usize);
        Some((self.rgba[i], self.rgba[i + 1], self.rgba[i + 2], self.rgba[i + 3]))
    }

    /// The color of the source pixel at `(x, y)`, or `None` if out of bounds.
    pub fn color_at(&self, x: u32, y: u32) -> (c: Option<Color>)
        requires
            self@.wf(),
        ensures
            c == if x < self@.width && y < self@.height {
                let p = self@.rgba_of(x as int, y as int);
                Some(Color::spec_from_u8(p.0, p.1, p.2, p.3))
            } else {
                None
            },
    {
        match self.rgba_at(x, y) {
            Some((r, g, b, a)) => Some(Color::from_u8(r, g, b, a)),
            None => None,
        }
    }
}

/// A tiny 1×1 opaque-red PNG.
pub fn doctest_png() -> (png: Vec<u8>)
    ensures
        png@ == seq![
            137u8, 80, 78, 71, 13, 10, 26, 10, 0, 0, 0, 13, 73, 72, 68, 82, 0, 0, 0, 1, 0, 0, 0, 1,
            8, 6, 0, 0, 0, 31, 21, 196, 137, 0, 0, 0, 13, 73, 68, 65, 84, 120, 218, 99, 248, 207,
            192, 240, 31, 0, 5, 0, 1, 255, 86, 199, 47, 13, 0, 0, 0, 0, 73, 69, 78, 68, 174, 66, 96,
            130,
        ],
        guessed(png@) == Some(Format::Png),
{
    let png: Vec<u8> = vec![
        137u8, 80, 78, 71, 13, 10, 26, 10, 0, 0, 0, 13, 73, 72, 68, 82, 0, 0, 0, 1, 0, 0, 0, 1, 8,
        6, 0, 0, 0, 31, 21, 196, 137, 0, 0, 0, 13, 73, 68, 65, 84, 120, 218, 99, 248, 207, 192, 240,
        31, 0, 5, 0, 1, 255, 86, 199, 47, 13, 0, 0, 0, 0, 73, 69, 78, 68, 174, 66, 96, 130,
    ];
    assert(png@.subrange(0, 8) =~= seq![0x89u8, 0x50, 0x4e, 0x47, 0x0d, 0x0a, 0x1a, 0x0a]);
    png
}

/// The bytes of an image run row by row from the top, red, green, blue and alpha of a pixel next to
/// one another: its first pixel is at the start, the one to the right four bytes on, and the one
/// below a whole row of pixels on.
pub proof fn law_bytes_run_row_by_row(p: Picture, x: int, y: int)
    requires
        p.wf(),
        0 <= x < p.width,
        0 <= y < p.height,
    ensures
        p.rgba_of(0, 0) == (p.rgba[0], p.rgba[1], p.rgba[2], p.rgba[3]),
        ({
            let start = y * (4 * p.width);
            p.rgba_of(x, y) == (
                p.rgba[start + 4 * x],
                p.rgba[start + 4 * x + 1],
                p.rgba[start + 4 * x + 2],
                p.rgba[start + 4 * x + 3],
            )
        }),
{
    assert(4 * (y * p.width + x) == y * (4 * p.width) + 4 * x) by (nonlinear_arith);
    assert(0 * p.width == 0) by (nonlinear_arith);
}

} // verus!
