//! Resize options and the blit that writes a decoded image into a framebuffer.

use crate::color::Color;
use crate::decode::{DecodedImage, Picture};
use crate::framebuffer::{
    depth_far, lemma_index_in_plane, lemma_index_is_injective, Framebuffer, Raster,
};
use crate::preprocess::{answers, PixelSum, Preprocess};
use crate::single::Single;
use crate::viewport::Viewport;
use vstd::prelude::*;

verus! {

/// The resampling filter used when resizing an image to the render resolution.
///
/// Prefer the high-quality options for stills; `Nearest`/`Triangle` are cheaper for large
/// downscales where quality matters less.
#[derive(Clone, Copy, Debug, PartialEq, Eq, Structural)]
pub enum ResizeFilter {
    /// Nearest-neighbour: fastest, blocky.
    Nearest,
    /// Linear (triangle) interpolation: fast, decent quality.
    Triangle,
    /// Catmull–Rom cubic: good quality.
    CatmullRom,
    /// Lanczos with a window of 3: highest quality, the default for stills.
    Lanczos3,
}

impl Default for ResizeFilter {
    fn default() -> (f: ResizeFilter)
        ensures
            f == ResizeFilter::Lanczos3,
    {
        ResizeFilter::Lanczos3
    }
}

/// How to turn a decoded image into a framebuffer for a viewport.
///
/// The subpixel factors and `cell_aspect` together determine the framebuffer pixel shape; the image
/// is letterboxed within the viewport's render size and centred, with borders filled by
/// `background`.
#[derive(Clone, Copy, Debug, PartialEq, Eq, Structural)]
pub struct RenderOptions {
    /// Framebuffer pixels per cell horizontally (2 for Braille, 1 otherwise).
    pub subpixel_x: u16,
    /// Framebuffer pixels per cell vertically (4 for Braille, 2 for half-blocks).
    pub subpixel_y: u16,
    /// Physical width-to-height ratio of one terminal cell (one half is typical).
    pub cell_aspect: Single,
    /// The resampling filter used for the resize.
    pub filter: ResizeFilter,
    /// The letterbox/background fill for pixels outside the fitted image.
    pub background: Color,
    /// The image-quality stage (tone + dithering) applied to the framebuffer after the blit, by
    /// [`Preprocess::apply`].
    pub preprocess: Preprocess,
}

impl RenderOptions {
    /// The options for an encoder with these subpixel factors.
    pub open spec fn for_subpixels(subpixel_x: u16, subpixel_y: u16) -> RenderOptions {
        RenderOptions {
            subpixel_x,
            subpixel_y,
            cell_aspect: Single::half(),
            filter: ResizeFilter::Lanczos3,
            background: Color::transparent(),
            preprocess: Preprocess::identity(),
        }
    }

    /// Options for a Braille encoder: 2×4 subpixels per cell.
    pub fn braille() -> (o: RenderOptions)
        ensures
            o == RenderOptions::for_subpixels(2, 4),
    {
        RenderOptions {
            subpixel_x: 2,
            subpixel_y: 4,
            cell_aspect: Single::half(),
            filter: ResizeFilter::Lanczos3,
            background: Color::transparent(),
            preprocess: Preprocess::identity(),
        }
    }

    /// Options for a half-block encoder: 1×2 subpixels per cell.
    pub fn half_blocks() -> (o: RenderOptions)
        ensures
            o == RenderOptions::for_subpixels(1, 2),
    {
        RenderOptions {
            subpixel_x: 1,
            subpixel_y: 2,
            cell_aspect: Single::half(),
            filter: ResizeFilter::Lanczos3,
            background: Color::transparent(),
            preprocess: Preprocess::identity(),
        }
    }

    /// Options for an ASCII encoder: 1×1 subpixels per cell.
    pub fn ascii() -> (o: RenderOptions)
        ensures
            o == RenderOptions::for_subpixels(1, 1),
    {
        RenderOptions {
            subpixel_x: 1,
            subpixel_y: 1,
            cell_aspect: Single::half(),
            filter: ResizeFilter::Lanczos3,
            background: Color::transparent(),
            preprocess: Preprocess::identity(),
        }
    }
}

impl Default for RenderOptions {
    fn default() -> (o: RenderOptions)
        ensures
            o == RenderOptions::for_subpixels(2, 4),
    {
        RenderOptions::braille()
    }
}

/// The longest side of an image, before and after resizing, up to which the resampling arithmetic
/// is certain to come out right.
pub const MAX_SIDE: u32 = 0x40_0000;

/// What `image::imageops::resize` makes of the pixels of an image at a new size, for the filters
/// whose weights are computed by basic arithmetic alone.
pub uninterp spec fn resampled(
    image: Picture,
    width: nat,
    height: nat,
    filter: ResizeFilter,
) -> Seq<u8>;

/// Whether `out` is a result that `image::imageops::resize` can have on this image, at this size and
/// with this filter.
pub uninterp spec fn may_resample(
    image: Picture,
    width: nat,
    height: nat,
    filter: ResizeFilter,
    out: Seq<u8>,
) -> bool;

impl ResizeFilter {
    /// Whether the filter's weights are the same on every machine: those of the cubic filter are
    /// powers and those of the Lanczos filter sines, whose precision varies.
    pub open spec fn is_exact(self) -> bool {
        self is Nearest || self is Triangle
    }
}

/// Whether `out` can be what resizing the image to that size gives: a result of resampling this
/// image, with four bytes per pixel; the image itself where the size stays as it is; and, for the
/// filters whose weights do not vary, a function of the image, the size and the filter.
pub open spec fn is_resize_of(
    out: Seq<u8>,
    image: Picture,
    width: nat,
    height: nat,
    filter: ResizeFilter,
) -> bool {
    &&& may_resample(image, width, height, filter, out)
    &&& out.len() == 4 * (width * height)
    &&& width == image.width && height == image.height ==> out == image.rgba
    &&& filter.is_exact() ==> out == resampled(image, width, height, filter)
}

/// Calls `image::imageops::resize` on the image's pixels, with the size and the filter asked for. The
/// result has that size; at the image's own size it is a copy. With the nearest and the triangle
/// filter it is a function of the image and the size. Which values the cubic and the Lanczos filter
/// give is not stated: their weights are powers and sines, which vary from machine to machine.
#[verifier::external_body]
fn resize_rgba(image: &DecodedImage, width: u32, height: u32, filter: ResizeFilter) -> (out: Vec<u8>)
    requires
        image@.wf(),
        0 < image@.width <= MAX_SIDE,
        0 < image@.height <= MAX_SIDE,
        0 < width <= MAX_SIDE,
        0 < height <= MAX_SIDE,
        16 * (width * height) <= isize::MAX,
        16 * (image@.width * height) <= isize::MAX,
    ensures
        may_resample(image@, width as nat, height as nat, filter, out@),
        out@.len() == 4 * (width * height),
        width == image@.width && height == image@.height ==> out@ == image@.rgba,
        filter.is_exact() ==> out@ == resampled(image@, width as nat, height as nat, filter),
{
    let f = match filter {
        ResizeFilter::Nearest => image::imageops::FilterType::Nearest,
        ResizeFilter::Triangle => image::imageops::FilterType::Triangle,
        ResizeFilter::CatmullRom => image::imageops::FilterType::CatmullRom,
        ResizeFilter::Lanczos3 => image::imageops::FilterType::Lanczos3,
    };
    let rgba = image.rgba.clone();
    let source = image::RgbaImage::from_raw(image.width, image.height, rgba).unwrap();
    image::imageops::resize(&source, width, height, f).pixels().flat_map(|p| p.0).collect()
}

/// The color of pixel `(x, y)` of an image `width` pixels wide with these bytes.
pub open spec fn color_in(rgba: Seq<u8>, width: int, x: int, y: int) -> Color {
    let i = 4 * (y * width + x);
    Color::spec_from_u8(rgba[i], rgba[i + 1], rgba[i + 2], rgba[i + 3])
}

/// Whether `after` is `before` with an image of `fw` × `fh` pixels in its middle.
pub open spec fn centred(before: Raster, after: Raster, rgba: Seq<u8>, fw: int, fh: int) -> bool {
    let ox = (before.width - fw) / 2;
    let oy = (before.height - fh) / 2;
    &&& after.wf()
    &&& after.same_shape(before)
    &&& forall|px: int, py: int|
        #![trigger after.pixel(px, py)]
        before.contains(px, py) ==> after.pixel(px, py) == if ox <= px < ox + fw && oy <= py < oy
            + fh {
            color_in(rgba, fw, px - ox, py - oy)
        } else {
            before.pixel(px, py)
        }
}

/// Whether `after` is `before` with the first rows of an image, and the first columns of the row
/// behind them, written at `(ox, oy)`.
spec fn partly_pasted(
    before: Raster,
    after: Raster,
    rgba: Seq<u8>,
    fw: int,
    ox: int,
    oy: int,
    rows: int,
    cols: int,
) -> bool {
    &&& after.wf()
    &&& after.same_shape(before)
    &&& forall|px: int, py: int|
        #![trigger after.pixel(px, py)]
        before.contains(px, py) ==> after.pixel(px, py) == if ox <= px < ox + fw && oy <= py && (py
            - oy < rows || (py - oy == rows && px - ox < cols)) {
            color_in(rgba, fw, px - ox, py - oy)
        } else {
            before.pixel(px, py)
        }
}

/// Writes an image of `fw` × `fh` pixels into the middle of `target`.
pub fn paste_centred(target: &mut Framebuffer, rgba: &[u8], fw: usize, fh: usize)
    requires
        old(target).wf(),
        fw <= old(target)@.width,
        fh <= old(target)@.height,
        rgba@.len() == 4 * (fw * fh),
    ensures
        centred(old(target)@, final(target)@, rgba@, fw as int, fh as int),
{
    let ghost before = target@;
    let w: usize = target.width();
    let h: usize = target.height();
    let ox: usize = (w - fw) / 2;
    let oy: usize = (h - fh) / 2;
    let size: usize = rgba.len();
    let mut y: usize = 0;
    while y < fh
        invariant
            before.wf(),
            w == before.width,
            h == before.height,
            ox + fw <= w,
            oy + fh <= h,
            size == rgba@.len(),
            size == 4 * (fw * fh),
            y <= fh,
            partly_pasted(
                before,
                target@,
                rgba@,
                fw as int,
                ox as int,
                oy as int,
                y as int,
                0,
            ),
        decreases fh - y,
    {
        let mut x: usize = 0;
        while x < fw
            invariant
                before.wf(),
                w == before.width,
                h == before.height,
                ox + fw <= w,
                oy + fh <= h,
                size == rgba@.len(),
                size == 4 * (fw * fh),
                y < fh,
                x <= fw,
                partly_pasted(
                    before,
                    target@,
                    rgba@,
                    fw as int,
                    ox as int,
                    oy as int,
                    y as int,
                    x as int,
                ),
            decreases fw - x,
        {
            let ghost mid = target@;
            proof {
                lemma_index_in_plane(x as int, y as int, fw as int, fh as int);
            }
            let i: usize = 4 * (y * fw + x);
            let c = Color::from_u8(rgba[i], rgba[i + 1], rgba[i + 2], rgba[i + 3]);
            target.set(ox + x, oy + y, c);
            proof {
                lemma_index_in_plane(ox + x, oy + y, w as int, h as int);
                assert forall|px: int, py: int|
                    #![trigger target@.pixel(px, py)]
                    before.contains(px, py) implies target@.pixel(px, py) == if ox <= px < ox + fw
                    && oy <= py && (py - oy < y || (py - oy == y && px - ox < x + 1)) {
                    color_in(rgba@, fw as int, px - ox, py - oy)
                } else {
                    before.pixel(px, py)
                } by {
                    lemma_index_in_plane(px, py, w as int, h as int);
                    lemma_index_is_injective(px, py, ox + x, oy + y, w as int);
                    assert(mid.pixel(px, py) == mid.color[py * w + px]);
                }
            }
            x = x + 1;
        }
        y = y + 1;
    }
}

/// The raster of that size, all of one color, with depth at the far plane.
pub open spec fn plain(width: nat, height: nat, color: Color) -> Raster {
    Raster {
        width,
        height,
        color: Seq::new(width * height, |i: int| color),
        depth: Seq::new(width * height, |i: int| depth_far()),
    }
}

/// Whether `after` shows the image at size `fit` in the middle of a plain background, at the
/// viewport's render size.
pub open spec fn shows_image(
    image: Picture,
    after: Raster,
    viewport: Viewport,
    opts: RenderOptions,
    fit: (usize, usize),
) -> bool {
    let back = plain(
        (viewport.cols * opts.subpixel_x) as nat,
        (viewport.rows * opts.subpixel_y) as nat,
        opts.background,
    );
    if fit.0 == 0 || fit.1 == 0 || back.width == 0 || back.height == 0 {
        after == back
    } else {
        exists|rgba: Seq<u8>| #[trigger]
            is_resize_of(rgba, image, fit.0 as nat, fit.1 as nat, opts.filter) && centred(
                back,
                after,
                rgba,
                fit.0 as int,
                fit.1 as int,
            )
    }
}

/// Whether `after` is the image rendered at size `fit`: shown in the middle of a plain background, and
/// then put through the image-quality stage, with sums worked out by `math`. Where there is nothing to
/// show, the background alone is left.
pub open spec fn renders<M: Fn(PixelSum) -> Single>(
    image: Picture,
    after: Raster,
    viewport: Viewport,
    opts: RenderOptions,
    fit: (usize, usize),
    math: M,
) -> bool {
    if fit.0 == 0 || fit.1 == 0 || viewport.cols * opts.subpixel_x == 0 || viewport.rows
        * opts.subpixel_y == 0 {
        shows_image(image, after, viewport, opts, fit)
    } else {
        exists|shown: Raster| #[trigger]
            shows_image(image, shown, viewport, opts, fit) && opts.preprocess.adjusts(
                shown,
                after,
                math,
            )
    }
}

/// Whether an image can be shown in a viewport at size `fit`: the pixels can be counted, the size
/// fits the viewport, and the sides are short enough to be resampled.
pub open spec fn can_show(
    image: Picture,
    viewport: Viewport,
    opts: RenderOptions,
    fit: (usize, usize),
) -> bool {
    let (rw, rh) = (viewport.cols * opts.subpixel_x, viewport.rows * opts.subpixel_y);
    &&& image.wf()
    &&& rw * rh <= usize::MAX
    &&& fit.0 <= rw && fit.1 <= rh
    &&& fit.0 <= MAX_SIDE && fit.1 <= MAX_SIDE
    &&& fit.0 > 0 && fit.1 > 0 ==> {
        &&& 0 < image.width <= MAX_SIDE && 0 < image.height <= MAX_SIDE
        &&& 16 * (fit.0 * fit.1) <= isize::MAX
        &&& 16 * (image.width * fit.1) <= isize::MAX
    }
}

/// The render size of a viewport is less than four billion pixels a side.
proof fn lemma_sides_are_short(viewport: Viewport, opts: RenderOptions)
    ensures
        0 <= viewport.cols * opts.subpixel_x <= 0xffff_ffff,
        0 <= viewport.rows * opts.subpixel_y <= 0xffff_ffff,
{
    assert(0 <= viewport.cols * opts.subpixel_x <= 0xffff * 0xffff) by (nonlinear_arith)
        requires
            0 <= viewport.cols <= 0xffff,
            0 <= opts.subpixel_x <= 0xffff,
    ;
    assert(0 <= viewport.rows * opts.subpixel_y <= 0xffff * 0xffff) by (nonlinear_arith)
        requires
            0 <= viewport.rows <= 0xffff,
            0 <= opts.subpixel_y <= 0xffff,
    ;
}

impl DecodedImage {
    /// Whether the image can be shown in a viewport at size `fit`.
    pub fn can_render(
        &self,
        viewport: Viewport,
        opts: &RenderOptions,
        fit: (usize, usize),
    ) -> (b: bool)
        requires
            self@.wf(),
        ensures
            b == can_show(self@, viewport, *opts, fit),
    {
        let (rw, rh) = viewport.render_size(opts.subpixel_x, opts.subpixel_y);
        let (fw, fh) = fit;
        proof {
            lemma_sides_are_short(viewport, *opts);
        }
        assert(0 <= rw * rh <= 0xffff_ffff * 0xffff_ffff) by (nonlinear_arith)
            requires
                0 <= rw <= 0xffff_ffff,
                0 <= rh <= 0xffff_ffff,
        ;
        if rw as u64 * rh as u64 > usize::MAX as u64 {
            return false;
        }
        if (fw > rw || fh > rh) || (fw > MAX_SIDE as usize || fh > MAX_SIDE as usize) {
            return false;
        }
        if fw == 0 || fh == 0 {
            return true;
        }
        let (w, h) = (self.width(), self.height());
        if (w == 0 || w > MAX_SIDE) || (h == 0 || h > MAX_SIDE) {
            return false;
        }
        proof {
            assert(fw * fh <= 0x40_0000 * 0x40_0000) by (nonlinear_arith)
                requires
                    0 < fw <= 0x40_0000,
                    0 < fh <= 0x40_0000,
            ;
            assert(w * fh <= 0x40_0000 * 0x40_0000) by (nonlinear_arith)
                requires
                    0 < w <= 0x40_0000,
                    0 < fh <= 0x40_0000,
            ;
        }
        let shown: u64 = fw as u64 * fh as u64;
        let between: u64 = w as u64 * fh as u64;
        16 * shown <= isize::MAX as u64 && 16 * between <= isize::MAX as u64
    }

    /// Renders the image into an existing `target`, resizing and clearing it.
    ///
    /// The framebuffer is resized to `viewport`'s render size for `opts`' subpixel factors, cleared
    /// to `opts.background`, and the image, resized to `fit`, is centred within it. Then the
    /// image-quality stage runs in place on the finished framebuffer; `math` works out its sums.
    pub fn render_into<M: Fn(PixelSum) -> Single>(
        &self,
        target: &mut Framebuffer,
        viewport: Viewport,
        opts: &RenderOptions,
        fit: (usize, usize),
        math: &M,
    )
        requires
            can_show(self@, viewport, *opts, fit),
            answers(*math),
        ensures
            final(target).wf(),
            renders(self@, final(target)@, viewport, *opts, fit, *math),
    {
        let (rw, rh) = viewport.render_size(opts.subpixel_x, opts.subpixel_y);
        target.resize(rw, rh);
        target.clear(opts.background);
        let ghost back = plain(rw as nat, rh as nat, opts.background);
        assert(target@.color =~= back.color);
        assert(target@.depth =~= back.depth);
        assert(target@ == back);
        if rw == 0 || rh == 0 {
            return;
        }
        let (fw, fh) = fit;
        if fw == 0 || fh == 0 {
            return;
        }
        let resized = resize_rgba(self, fw as u32, fh as u32, opts.filter);
        paste_centred(target, resized.as_slice(), fw, fh);
        assert(is_resize_of(resized@, self@, fw as nat, fh as nat, opts.filter));
        let ghost shown = target@;
        assert(shows_image(self@, shown, viewport, *opts, fit));
        opts.preprocess.apply(target, math);
    }

    /// Converts the image into a freshly allocated framebuffer sized to `viewport`'s render
    /// resolution, resized to `fit`, letterboxed and adjusted per `opts`.
    pub fn to_framebuffer<M: Fn(PixelSum) -> Single>(
        &self,
        viewport: Viewport,
        opts: &RenderOptions,
        fit: (usize, usize),
        math: &M,
    ) -> (fb: Framebuffer)
        requires
            can_show(self@, viewport, *opts, fit),
            answers(*math),
        ensures
            fb.wf(),
            renders(self@, fb@, viewport, *opts, fit, *math),
    {
        let none: usize = 0;
        assert(none * none == 0) by (nonlinear_arith)
            requires
                none == 0,
        ;
        let mut fb = Framebuffer::new(none, none);
        self.render_into(&mut fb, viewport, opts, fit, math);
        fb
    }
}

/// An image rendered at its own size without adjustments appears pixel by pixel, with an even border
/// around it.
pub proof fn law_unscaled_image_is_shown_exactly<M: Fn(PixelSum) -> Single>(
    image: Picture,
    after: Raster,
    viewport: Viewport,
    opts: RenderOptions,
    fit: (usize, usize),
    math: M,
    x: int,
    y: int,
)
    requires
        can_show(image, viewport, opts, fit),
        renders(image, after, viewport, opts, fit, math),
        opts.preprocess.changes_nothing(),
        fit.0 == image.width,
        fit.1 == image.height,
        0 <= x < image.width,
        0 <= y < image.height,
    ensures
        ({
            let ox = (viewport.cols * opts.subpixel_x - fit.0) / 2;
            let oy = (viewport.rows * opts.subpixel_y - fit.1) / 2;
            let p = image.rgba_of(x, y);
            after.pixel(ox + x, oy + y) == Color::spec_from_u8(p.0, p.1, p.2, p.3)
        }),
{
    let back = plain(
        (viewport.cols * opts.subpixel_x) as nat,
        (viewport.rows * opts.subpixel_y) as nat,
        opts.background,
    );
    let shown = choose|shown: Raster| #[trigger]
        shows_image(image, shown, viewport, opts, fit) && opts.preprocess.adjusts(
            shown,
            after,
            math,
        );
    let rgba = choose|rgba: Seq<u8>| #[trigger]
        is_resize_of(rgba, image, fit.0 as nat, fit.1 as nat, opts.filter) && centred(
            back,
            after,
            rgba,
            fit.0 as int,
            fit.1 as int,
        );
    let ox = (back.width - fit.0) / 2;
    let oy = (back.height - fit.1) / 2;
    assert(back.contains(ox + x, oy + y));
    assert(after.pixel(ox + x, oy + y) == color_in(rgba, fit.0 as int, x, y));
}

/// Presents a single decoded image as a source of one frame.
///
/// The first frame renders the image into the target; after that the source is exhausted.
pub struct ImageSource<M: Fn(PixelSum) -> Single> {
    image: DecodedImage,
    viewport: Viewport,
    opts: RenderOptions,
    fit_width: usize,
    fit_height: usize,
    math: M,
    emitted: bool,
}

impl<M: Fn(PixelSum) -> Single> ImageSource<M> {
    /// The image that is shown.
    pub closed spec fn picture(&self) -> Picture {
        self.image@
    }

    /// The viewport that it is shown in.
    pub closed spec fn area(&self) -> Viewport {
        self.viewport
    }

    /// How it is shown.
    pub closed spec fn options(&self) -> RenderOptions {
        self.opts
    }

    /// The size at which it is shown.
    pub closed spec fn size(&self) -> (usize, usize) {
        (self.fit_width, self.fit_height)
    }

    /// What works out the sums of the image-quality stage.
    pub closed spec fn sums(&self) -> M {
        self.math
    }

    /// Whether it has been shown.
    pub closed spec fn shown(&self) -> bool {
        self.emitted
    }

    /// Whether the image can be shown as asked for.
    pub open spec fn wf(&self) -> bool {
        can_show(self.picture(), self.area(), self.options(), self.size()) && answers(self.sums())
    }

    /// Creates a still-image source rendered at `viewport` with `opts`, resized to `fit`; `math` works
    /// out the sums of the image-quality stage.
    pub fn new(
        image: DecodedImage,
        viewport: Viewport,
        opts: RenderOptions,
        fit: (usize, usize),
        math: M,
    ) -> (s: ImageSource<M>)
        ensures
            s.picture() == image@,
            s.area() == viewport,
            s.options() == opts,
            s.size() == fit,
            s.sums() == math,
            !s.shown(),
    {
        ImageSource {
            image,
            viewport,
            opts,
            fit_width: fit.0,
            fit_height: fit.1,
            math,
            emitted: false,
        }
    }

    /// The viewport this source renders into.
    pub fn viewport(&self) -> (v: Viewport)
        ensures
            v == self.area(),
    {
        self.viewport
    }

    /// Rewinds the source so the frame can be produced again.
    pub fn reset(&mut self)
        ensures
            !final(self).shown(),
            final(self).picture() == old(self).picture(),
            final(self).area() == old(self).area(),
            final(self).options() == old(self).options(),
            final(self).size() == old(self).size(),
            final(self).sums() == old(self).sums(),
    {
        self.emitted = false;
    }
}

impl<M: Fn(PixelSum) -> Single> crate::source::FrameSource for ImageSource<M> {
    open spec fn ready(&self) -> bool {
        self.wf()
    }

    /// Renders the image into `target`, once; after that the source is exhausted.
    fn next_frame(&mut self, target: &mut Framebuffer) -> (r: Result<bool, crate::error::Error>)
        ensures
            r == Ok::<bool, crate::error::Error>(!old(self).shown()),
            final(self).shown(),
            final(self).picture() == old(self).picture(),
            final(self).area() == old(self).area(),
            final(self).options() == old(self).options(),
            final(self).size() == old(self).size(),
            final(self).sums() == old(self).sums(),
            if old(self).shown() {
                *final(target) == *old(target)
            } else {
                renders(
                    old(self).picture(),
                    final(target)@,
                    old(self).area(),
                    old(self).options(),
                    old(self).size(),
                    old(self).sums(),
                )
            },
    {
        if self.emitted {
            return Ok(false);
        }
        let fit = (self.fit_width, self.fit_height);
        self.image.render_into(target, self.viewport, &self.opts, fit, &self.math);
        self.emitted = true;
        Ok(true)
    }

    /// A still image has no timing.
    fn frame_delay(&self) -> (d: Option<crate::span::Span>)
        ensures
            d is None,
    {
        None
    }
}

/// A rendered image without adjustments lies in the middle of the viewport, the borders on opposite
/// sides alike up to a pixel: its pixels follow one another row by row, each channel from its own
/// byte, and all others show the background. Where the image starts, and the bytes that it was
/// resized to, are returned.
pub proof fn law_image_lies_in_the_middle<M: Fn(PixelSum) -> Single>(
    image: Picture,
    after: Raster,
    viewport: Viewport,
    opts: RenderOptions,
    fit: (usize, usize),
    math: M,
) -> (placed: (int, int, Seq<u8>))
    requires
        can_show(image, viewport, opts, fit),
        renders(image, after, viewport, opts, fit, math),
        opts.preprocess.changes_nothing(),
        fit.0 > 0,
        fit.1 > 0,
    ensures
        after.width == viewport.cols * opts.subpixel_x,
        after.height == viewport.rows * opts.subpixel_y,
        ({
            let (left, top, rgba) = placed;
            let right = after.width - fit.0 - left;
            let bottom = after.height - fit.1 - top;
            &&& 0 <= left <= right <= left + 1
            &&& 0 <= top <= bottom <= top + 1
            &&& is_resize_of(rgba, image, fit.0 as nat, fit.1 as nat, opts.filter)
            &&& forall|x: int, y: int|
                #![trigger after.pixel(x, y)]
                after.contains(x, y) ==> if left <= x < after.width - right && top <= y
                    < after.height - bottom {
                    let at = 4 * ((y - top) * fit.0 + (x - left));
                    &&& after.pixel(x, y).r == crate::single::level_value(rgba[at])
                    &&& after.pixel(x, y).g == crate::single::level_value(rgba[at + 1])
                    &&& after.pixel(x, y).b == crate::single::level_value(rgba[at + 2])
                    &&& after.pixel(x, y).a == crate::single::level_value(rgba[at + 3])
                } else {
                    after.pixel(x, y) == opts.background
                }
        }),
{
    let back = plain(
        (viewport.cols * opts.subpixel_x) as nat,
        (viewport.rows * opts.subpixel_y) as nat,
        opts.background,
    );
    let shown = choose|shown: Raster| #[trigger]
        shows_image(image, shown, viewport, opts, fit) && opts.preprocess.adjusts(
            shown,
            after,
            math,
        );
    let rgba = choose|rgba: Seq<u8>| #[trigger]
        is_resize_of(rgba, image, fit.0 as nat, fit.1 as nat, opts.filter) && centred(
            back,
            after,
            rgba,
            fit.0 as int,
            fit.1 as int,
        );
    let left = (back.width - fit.0) / 2;
    let top = (back.height - fit.1) / 2;
    assert forall|x: int, y: int| #[trigger] after.contains(x, y) implies back.pixel(x, y)
        == opts.background by {
        lemma_index_in_plane(x, y, back.width as int, back.height as int);
    }
    (left, top, rgba)
}

/// Where there is no image to show, the whole viewport is background.
pub proof fn law_nothing_to_show_leaves_the_background<M: Fn(PixelSum) -> Single>(
    image: Picture,
    after: Raster,
    viewport: Viewport,
    opts: RenderOptions,
    fit: (usize, usize),
    math: M,
    x: int,
    y: int,
)
    requires
        renders(image, after, viewport, opts, fit, math),
        fit.0 == 0 || fit.1 == 0,
        0 <= x < viewport.cols * opts.subpixel_x,
        0 <= y < viewport.rows * opts.subpixel_y,
    ensures
        after.width == viewport.cols * opts.subpixel_x,
        after.height == viewport.rows * opts.subpixel_y,
        after.pixel(x, y) == opts.background,
{
    lemma_index_in_plane(x, y, after.width as int, after.height as int);
}

} // verus!
