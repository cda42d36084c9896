//! Animated-GIF decoding as a source of frames.
//!
//! [`GifSource`] decodes frames one at a time. Disposal is composited by the decoder, so every frame
//! is a full canvas. When the frames run out the source either stops or starts over.

use crate::decode::{map_image_error, DecodedImage, Failure, ImageFailure, Picture};
use crate::error::Error;
use crate::framebuffer::{Framebuffer, Raster};
use crate::preprocess::{answers, PixelSum};
use crate::render::{can_show, renders, RenderOptions};
use crate::single::Single;
use crate::source::FrameSource;
use crate::span::Span;
use crate::viewport::Viewport;
use vstd::prelude::*;

verus! {

/// What an animated source does when it reaches its last frame.
#[derive(Clone, Copy, Debug, PartialEq, Eq, Structural)]
pub enum GifLoop {
    /// Play the frames once, then report exhaustion.
    Once,
    /// Restart from the first frame indefinitely; never reports exhaustion for a GIF that has at
    /// least one frame.
    Infinite,
}

impl Default for GifLoop {
    fn default() -> (l: GifLoop)
        ensures
            l == GifLoop::Once,
    {
        GifLoop::Once
    }
}

/// The frames of a GIF that are still to be decoded, held as an `image::Frames`.
#[verifier::external_body]
pub struct GifFrames {
    frames: image::Frames<'static>,
}

/// One decoded frame: its pixels, and how long it is shown.
#[derive(Clone, Debug)]
pub struct GifFrame {
    /// The full canvas.
    pub image: DecodedImage,
    /// How long the frame is shown.
    pub delay: Span,
}

/// One decoded frame: its pixels, and how long it is shown.
pub ghost struct GifPicture {
    /// The full canvas.
    pub image: Picture,
    /// How long the frame is shown.
    pub delay: Span,
}

impl View for GifFrame {
    type V = GifPicture;

    open spec fn view(&self) -> GifPicture {
        GifPicture { image: self.image@, delay: self.delay }
    }
}

/// How `image::codecs::gif::GifDecoder::new` fails on these bytes, or `None` where it does not.
pub uninterp spec fn gif_failure(bytes: Seq<u8>) -> Option<Failure>;

/// What the `k`-th call of `next` on the frames of these bytes gives.
pub uninterp spec fn gif_frame(bytes: Seq<u8>, k: nat) -> Option<Result<GifPicture, Failure>>;

/// The bytes that the frames are decoded from.
pub uninterp spec fn frames_source(frames: GifFrames) -> Seq<u8>;

/// How many frames have been asked for.
pub uninterp spec fn frames_asked(frames: GifFrames) -> nat;

/// Calls `image::codecs::gif::GifDecoder::new` on a copy of the bytes, and `into_frames`. The header
/// is parsed at once: whether that succeeds, and how it fails, is a function of the bytes.
#[verifier::external_body]
fn decode_frames(bytes: &[u8]) -> (r: Result<GifFrames, ImageFailure>)
    ensures
        match r {
            Ok(f) => gif_failure(bytes@) is None && frames_source(f) == bytes@ && frames_asked(f)
                == 0,
            Err(e) => gif_failure(bytes@) == Some(e@),
        },
{
    let cursor = std::io::Cursor::new(bytes.to_vec());
    match image::codecs::gif::GifDecoder::new(cursor) {
        Ok(d) => Ok(GifFrames { frames: image::AnimationDecoder::into_frames(d) }),
        Err(e) => Err(ImageFailure {
            unsupported: matches!(e, image::ImageError::Unsupported(_)),
            message: e.to_string(),
        }),
    }
}

/// Calls `next` on the frames: one more frame is asked for, and what comes is a function of the
/// bytes and of how many were asked for before. A frame has four bytes for each pixel of its size.
#[verifier::external_body]
fn take_frame(frames: &mut GifFrames) -> (r: Option<Result<GifFrame, ImageFailure>>)
    ensures
        frames_source(*final(frames)) == frames_source(*old(frames)),
        frames_asked(*final(frames)) == frames_asked(*old(frames)) + 1,
        gif_frame(frames_source(*old(frames)), frames_asked(*old(frames))) == (match r {
            None => None,
            Some(Ok(f)) => Some(Ok(f@)),
            Some(Err(e)) => Some(Err(e@)),
        }),
        r is Some && r->0 is Ok ==> r->0->Ok_0.image@.wf(),
{
    let converted = |f: image::Frame| {
        let delay = Span { nanos: std::time::Duration::from(f.delay()).as_nanos() };
        let (width, height) = f.buffer().dimensions();
        let rgba = f.buffer().pixels().flat_map(|p| p.0).collect();
        GifFrame { image: DecodedImage { width, height, rgba }, delay }
    };
    frames.frames.next().map(|r| r.map(converted).map_err(|e| ImageFailure {
        unsupported: matches!(e, image::ImageError::Unsupported(_)),
        message: e.to_string(),
    }))
}

/// Whether decoding all frames of these bytes gives `frames`: each in its turn, and none behind them.
pub open spec fn decodes_to(bytes: Seq<u8>, frames: Seq<GifPicture>) -> bool {
    &&& forall|k: nat|
        k < frames.len() ==> #[trigger] gif_frame(bytes, k) == Some(
            Ok::<GifPicture, Failure>(frames[k as int]),
        )
    &&& gif_frame(bytes, frames.len()) is None
}

/// Whether decoding all frames of these bytes fails with `f`, on the first frame that fails.
pub open spec fn decoding_fails(bytes: Seq<u8>, f: Failure) -> bool {
    exists|k: nat|
        {
            &&& #[trigger] gif_frame(bytes, k) == Some(Err::<GifPicture, Failure>(f))
            &&& forall|j: nat|
                j < k ==> (#[trigger] gif_frame(bytes, j)) is Some && gif_frame(bytes, j)->0 is Ok
        }
}

/// Calls `Frames::collect_frames` on frames none of which was asked for yet: it asks for one frame
/// after the other, up to the end or the first that fails.
#[verifier::external_body]
fn collect_frames(frames: GifFrames) -> (r: Result<Vec<GifFrame>, ImageFailure>)
    requires
        frames_asked(frames) == 0,
    ensures
        match r {
            Ok(v) => decodes_to(frames_source(frames), v@.map_values(|f: GifFrame| f@)),
            Err(e) => decoding_fails(frames_source(frames), e@),
        },
{
    let converted = |f: &image::Frame| {
        let delay = Span { nanos: std::time::Duration::from(f.delay()).as_nanos() };
        let (width, height) = f.buffer().dimensions();
        let rgba = f.buffer().pixels().flat_map(|p| p.0).collect();
        GifFrame { image: DecodedImage { width, height, rgba }, delay }
    };
    frames.frames.collect_frames().map(|v| v.iter().map(converted).collect()).map_err(|e| ImageFailure {
        unsupported: matches!(e, image::ImageError::Unsupported(_)),
        message: e.to_string(),
    })
}

/// At what stage a GIF could not be decoded, and why.
#[derive(Clone, Debug)]
pub enum GifTrouble {
    /// Its header could not be parsed.
    Opening(ImageFailure),
    /// One of its frames could not be decoded.
    Frames(ImageFailure),
}

/// Decodes all frames of a GIF.
pub fn decode_all(bytes: &[u8]) -> (r: Result<Vec<GifFrame>, GifTrouble>)
    ensures
        match gif_failure(bytes@) {
            Some(f) => r is Err && r->Err_0 is Opening && r->Err_0->Opening_0@ == f,
            None => match r {
                Ok(v) => decodes_to(bytes@, v@.map_values(|f: GifFrame| f@)),
                Err(GifTrouble::Frames(e)) => decoding_fails(bytes@, e@),
                Err(GifTrouble::Opening(_)) => false,
            },
        },
{
    let frames = match decode_frames(bytes) {
        Ok(frames) => frames,
        Err(f) => {
            return Err(GifTrouble::Opening(f));
        },
    };
    match collect_frames(frames) {
        Ok(v) => Ok(v),
        Err(f) => Err(GifTrouble::Frames(f)),
    }
}

/// Where a GIF source stands.
pub ghost struct GifState {
    /// The bytes of the file.
    pub bytes: Seq<u8>,
    /// What happens at the last frame.
    pub loop_mode: GifLoop,
    /// How many frames have been asked for since the start or the last restart.
    pub asked: nat,
    /// How long the frame that is shown is shown, if there is one.
    pub delay: Option<Span>,
    /// Whether the source has ended.
    pub exhausted: bool,
    /// Whether no frame has come since the start or the last restart.
    pub fresh: bool,
}

/// What a source gives when it is asked for a frame: a frame, nothing, or an error.
pub ghost enum GifOutcome {
    /// A frame.
    Shown(Picture),
    /// The source has ended.
    Ended,
    /// The frame could not be decoded.
    Failed(Failure),
}

impl GifState {
    /// The source at its start.
    pub open spec fn start(bytes: Seq<u8>, loop_mode: GifLoop) -> GifState {
        GifState { bytes, loop_mode, asked: 0, delay: None, exhausted: false, fresh: true }
    }

    /// Whether the next frame starts over: the frames have run out, and there were some.
    pub open spec fn starts_over(self) -> bool {
        gif_frame(self.bytes, self.asked) is None && self.loop_mode == GifLoop::Infinite
            && !self.fresh
    }

    /// The source once it was asked for a frame, and what it gave.
    pub open spec fn next(self) -> (GifState, GifOutcome) {
        if self.exhausted {
            (self, GifOutcome::Ended)
        } else if self.starts_over() {
            GifState { asked: 0, fresh: true, ..self }.take()
        } else {
            self.take()
        }
    }

    /// The source once it has taken the next of its frames, and what came.
    pub open spec fn take(self) -> (GifState, GifOutcome) {
        match gif_frame(self.bytes, self.asked) {
            Some(Ok(frame)) => (
                GifState {
                    asked: self.asked + 1,
                    delay: Some(frame.delay),
                    fresh: false,
                    ..self
                },
                GifOutcome::Shown(frame.image),
            ),
            Some(Err(f)) => (
                GifState { asked: self.asked + 1, delay: None, exhausted: true, ..self },
                GifOutcome::Failed(f),
            ),
            None => (
                GifState { asked: self.asked + 1, delay: None, exhausted: true, ..self },
                GifOutcome::Ended,
            ),
        }
    }

    /// The source once it was asked for `n` frames.
    pub open spec fn after(self, n: nat) -> GifState
        decreases n,
    {
        if n == 0 {
            self
        } else {
            self.after((n - 1) as nat).next().0
        }
    }
}

/// A source that has ended stays so, and gives no more frames.
pub proof fn law_exhausted_source_stays_so(s: GifState, n: nat)
    requires
        s.exhausted,
    ensures
        s.after(n) == s,
        s.after(n).next().1 == GifOutcome::Ended,
    decreases n,
{
    if n > 0 {
        law_exhausted_source_stays_so(s, (n - 1) as nat);
    }
}

/// Whether a GIF decodes to exactly `n` frames, and no error.
pub open spec fn has_frames(bytes: Seq<u8>, n: nat) -> bool {
    &&& forall|k: nat| k < n ==> (#[trigger] gif_frame(bytes, k)) is Some && gif_frame(bytes, k)->0 is Ok
    &&& gif_frame(bytes, n) is None
}

/// Played once, a GIF shows each of its frames in order and then ends.
pub proof fn law_once_shows_every_frame(bytes: Seq<u8>, n: nat, k: nat)
    requires
        has_frames(bytes, n),
        k <= n,
    ensures
        ({
            let s = GifState::start(bytes, GifLoop::Once).after(k);
            &&& !s.exhausted
            &&& s.asked == k
            &&& s.bytes == bytes
            &&& s.loop_mode == GifLoop::Once
            &&& if k < n {
                s.next().1 == GifOutcome::Shown(gif_frame(bytes, k)->0->Ok_0.image)
                    && s.next().0.delay == Some(gif_frame(bytes, k)->0->Ok_0.delay)
            } else {
                s.next().1 == GifOutcome::Ended && s.next().0.exhausted
            }
        }),
    decreases k,
{
    if k > 0 {
        law_once_shows_every_frame(bytes, n, (k - 1) as nat);
        assert(gif_frame(bytes, (k - 1) as nat) is Some);
    }
    if k < n {
        assert(gif_frame(bytes, k) is Some);
    }
}

/// Played forever, a GIF that has frames shows them in order again and again, and never ends.
pub proof fn law_infinite_play_wraps_around(bytes: Seq<u8>, n: nat, k: nat)
    requires
        has_frames(bytes, n),
        0 < n,
    ensures
        ({
            let s = GifState::start(bytes, GifLoop::Infinite).after(k);
            &&& !s.exhausted
            &&& s.bytes == bytes
            &&& s.loop_mode == GifLoop::Infinite
            &&& s.fresh == (k == 0)
            &&& s.asked == if k == 0 {
                0
            } else {
                (k - 1) as nat % n + 1
            }
            &&& s.next().1 == GifOutcome::Shown(gif_frame(bytes, k % n)->0->Ok_0.image)
            &&& s.next().0.delay == Some(gif_frame(bytes, k % n)->0->Ok_0.delay)
        }),
    decreases k,
{
    assert(gif_frame(bytes, k % n) is Some) by {
        vstd::arithmetic::div_mod::lemma_mod_bound(k as int, n as int);
    }
    assert(gif_frame(bytes, 0) is Some);
    if k > 0 {
        law_infinite_play_wraps_around(bytes, n, (k - 1) as nat);
        let m = (k - 1) as nat % n;
        vstd::arithmetic::div_mod::lemma_mod_bound(k - 1, n as int);
        vstd::arithmetic::div_mod::lemma_fundamental_div_mod(k - 1, n as int);
        let d = (k - 1) / n as int;
        if m + 1 < n {
            vstd::arithmetic::div_mod::lemma_fundamental_div_mod_converse(
                k as int,
                n as int,
                d,
                (m + 1) as int,
            );
            assert(gif_frame(bytes, m + 1) is Some);
        } else {
            assert(n * (d + 1) == n * d + n) by (nonlinear_arith);
            vstd::arithmetic::div_mod::lemma_fundamental_div_mod_converse(
                k as int,
                n as int,
                d + 1,
                0,
            );
        }
        assert(gif_frame(bytes, m) is Some);
        if k == 1 {
            vstd::arithmetic::div_mod::lemma_small_mod(0, n);
        } else {
            let p = (k - 2) as nat % n;
            vstd::arithmetic::div_mod::lemma_mod_bound(k - 2, n as int);
            vstd::arithmetic::div_mod::lemma_fundamental_div_mod(k - 2, n as int);
            let e = (k - 2) / n as int;
            if p + 1 < n {
                vstd::arithmetic::div_mod::lemma_fundamental_div_mod_converse(
                    k - 1,
                    n as int,
                    e,
                    (p + 1) as int,
                );
                assert(gif_frame(bytes, p + 1) is Some);
            } else {
                assert(n * (e + 1) == n * e + n) by (nonlinear_arith);
                vstd::arithmetic::div_mod::lemma_fundamental_div_mod_converse(
                    k - 1,
                    n as int,
                    e + 1,
                    0,
                );
            }
        }
    } else {
        vstd::arithmetic::div_mod::lemma_small_mod(0, n);
    }
}

/// Presents an animated GIF as a source of frames.
///
/// The raw bytes are kept so the source can be rewound or looped. How large a canvas of some width and
/// height is shown, and the sums of the image-quality stage, are worked out by closures.
pub struct GifSource<F: Fn(u32, u32) -> (usize, usize), M: Fn(PixelSum) -> Single> {
    bytes: Vec<u8>,
    viewport: Viewport,
    opts: RenderOptions,
    fit: F,
    math: M,
    loop_mode: GifLoop,
    frames: GifFrames,
    current_delay: Option<Span>,
    exhausted: bool,
    reset_since_frame: bool,
}

impl<F: Fn(u32, u32) -> (usize, usize), M: Fn(PixelSum) -> Single> GifSource<F, M> {
    /// Where the source stands.
    pub closed spec fn state(&self) -> GifState {
        GifState {
            bytes: self.bytes@,
            loop_mode: self.loop_mode,
            asked: frames_asked(self.frames),
            delay: self.current_delay,
            exhausted: self.exhausted,
            fresh: self.reset_since_frame,
        }
    }

    /// The viewport that it is shown in.
    pub closed spec fn area(&self) -> Viewport {
        self.viewport
    }

    /// How it is shown.
    pub closed spec fn options(&self) -> RenderOptions {
        self.opts
    }

    /// What works out the size at which a canvas is shown.
    pub closed spec fn fit_rule(&self) -> F {
        self.fit
    }

    /// What works out the sums of the image-quality stage.
    pub closed spec fn sums(&self) -> M {
        self.math
    }

    /// Whether frames can be rendered: the pixels of the viewport can be counted, and the closures
    /// answer whatever they are asked.
    pub open spec fn can_render(&self) -> bool {
        &&& (self.area().cols * self.options().subpixel_x) * (self.area().rows
            * self.options().subpixel_y) <= usize::MAX
        &&& answers(self.sums())
        &&& forall|w: u32, h: u32| #[trigger] call_requires(self.fit_rule(), (w, h))
    }

    /// Whether the frames are those of the bytes, whose header could be parsed.
    pub closed spec fn wf(&self) -> bool {
        frames_source(self.frames) == self.bytes@ && gif_failure(self.bytes@) is None
    }

    /// Creates an animated-GIF source from in-memory `bytes`.
    ///
    /// The bytes are validated as a decodable GIF up front (the header is parsed) but individual
    /// frames are decoded lazily on demand.
    pub fn from_bytes(
        bytes: Vec<u8>,
        viewport: Viewport,
        opts: RenderOptions,
        loop_mode: GifLoop,
        fit: F,
        math: M,
    ) -> (r: Result<GifSource<F, M>, Error>)
        ensures
            match gif_failure(bytes@) {
                None => {
                    &&& r is Ok
                    &&& r->Ok_0.wf()
                    &&& r->Ok_0.state() == GifState::start(bytes@, loop_mode)
                    &&& r->Ok_0.area() == viewport
                    &&& r->Ok_0.options() == opts
                    &&& r->Ok_0.fit_rule() == fit
                    &&& r->Ok_0.sums() == math
                },
                Some(f) => r is Err && failed(f, r->Err_0),
            },
    {
        let frames = match decode_frames(bytes.as_slice()) {
            Ok(frames) => frames,
            Err(f) => {
                return Err(map_image_error(f));
            },
        };
        Ok(
            GifSource {
                bytes,
                viewport,
                opts,
                fit,
                math,
                loop_mode,
                frames,
                current_delay: None,
                exhausted: false,
                reset_since_frame: true,
            },
        )
    }

    /// The viewport this source renders into.
    pub fn viewport(&self) -> (v: Viewport)
        ensures
            v == self.area(),
    {
        self.viewport
    }

    /// The configured loop behaviour.
    pub fn loop_mode(&self) -> (l: GifLoop)
        ensures
            l == self.state().loop_mode,
    {
        self.loop_mode
    }

    /// Rewinds the source to the first frame.
    pub fn reset(&mut self) -> (r: Result<(), Error>)
        requires
            old(self).wf(),
        ensures
            r is Ok,
            final(self).wf(),
            final(self).state() == GifState::start(
                old(self).state().bytes,
                old(self).state().loop_mode,
            ),
            final(self).area() == old(self).area(),
            final(self).options() == old(self).options(),
            final(self).fit_rule() == old(self).fit_rule(),
            final(self).sums() == old(self).sums(),
    {
        match decode_frames(self.bytes.as_slice()) {
            Ok(frames) => {
                self.frames = frames;
            },
            Err(f) => {
                return Err(map_image_error(f));
            },
        }
        self.current_delay = None;
        self.exhausted = false;
        self.reset_since_frame = true;
        Ok(())
    }

    /// Decodes the next frame: its full canvas, or `None` when the source is exhausted.
    pub fn next_picture(&mut self) -> (r: Result<Option<DecodedImage>, Error>)
        requires
            old(self).wf(),
        ensures
            final(self).wf(),
            final(self).state() == old(self).state().next().0,
            gave(old(self).state().next().1, r),
            final(self).area() == old(self).area(),
            final(self).options() == old(self).options(),
            final(self).fit_rule() == old(self).fit_rule(),
            final(self).sums() == old(self).sums(),
    {
        if self.exhausted {
            return Ok(None);
        }
        loop
            invariant
                self.wf(),
                !self.exhausted,
                self.state().next() == old(self).state().next(),
                self.area() == old(self).area(),
                self.options() == old(self).options(),
                self.fit_rule() == old(self).fit_rule(),
                self.sums() == old(self).sums(),
            decreases
                (if self.reset_since_frame {
                    0nat
                } else {
                    1nat
                }),
        {
            match take_frame(&mut self.frames) {
                Some(Ok(frame)) => {
                    self.current_delay = Some(frame.delay);
                    self.reset_since_frame = false;
                    return Ok(Some(frame.image));
                },
                Some(Err(f)) => {
                    self.exhausted = true;
                    self.current_delay = None;
                    return Err(map_image_error(f));
                },
                None => {
                    // The end of the frames: start over, unless none came since the last start.
                    if !(self.loop_mode == GifLoop::Infinite && !self.reset_since_frame) {
                        self.exhausted = true;
                        self.current_delay = None;
                        return Ok(None);
                    }
                    match decode_frames(self.bytes.as_slice()) {
                        Ok(frames) => {
                            self.frames = frames;
                        },
                        Err(f) => {
                            return Err(map_image_error(f));
                        },
                    }
                    self.reset_since_frame = true;
                },
            }
        }
    }
}

/// Whether `after` shows the canvas `p` at the size that `fit` gives for it, or leaves the background
/// alone where the canvas cannot be shown at that size.
pub open spec fn shows_canvas<F: Fn(u32, u32) -> (usize, usize), M: Fn(PixelSum) -> Single>(
    p: Picture,
    after: Raster,
    viewport: Viewport,
    opts: RenderOptions,
    fit: F,
    math: M,
) -> bool {
    exists|size: (usize, usize)| #[trigger]
        call_ensures(fit, (p.width as u32, p.height as u32), size) && renders(
            p,
            after,
            viewport,
            opts,
            if can_show(p, viewport, opts, size) {
                size
            } else {
                (0, 0)
            },
            math,
        )
}

impl<F: Fn(u32, u32) -> (usize, usize), M: Fn(PixelSum) -> Single> FrameSource for GifSource<F, M> {
    open spec fn ready(&self) -> bool {
        self.wf() && self.can_render()
    }

    /// Renders the next frame into `target`: its full canvas, resized and centred.
    fn next_frame(&mut self, target: &mut Framebuffer) -> (r: Result<bool, Error>)
        ensures
            final(self).state() == old(self).state().next().0,
            final(self).area() == old(self).area(),
            final(self).options() == old(self).options(),
            final(self).fit_rule() == old(self).fit_rule(),
            final(self).sums() == old(self).sums(),
            match old(self).state().next().1 {
                GifOutcome::Shown(p) => r == Ok::<bool, Error>(true) && shows_canvas(
                    p,
                    final(target)@,
                    old(self).area(),
                    old(self).options(),
                    old(self).fit_rule(),
                    old(self).sums(),
                ),
                GifOutcome::Ended => r == Ok::<bool, Error>(false) && *final(target) == *old(
                    target,
                ),
                GifOutcome::Failed(f) => r is Err && failed(f, r->Err_0) && *final(target) == *old(
                    target,
                ),
            },
    {
        let image = match self.next_picture() {
            Ok(Some(image)) => image,
            Ok(None) => {
                return Ok(false);
            },
            Err(e) => {
                return Err(e);
            },
        };
        let fit = &self.fit;
        let size = fit(image.width(), image.height());
        let shown: (usize, usize) = if image.can_render(self.viewport, &self.opts, size) {
            size
        } else {
            (0, 0)
        };
        image.render_into(target, self.viewport, &self.opts, shown, &self.math);
        assert(call_ensures(
            self.fit_rule(),
            (image@.width as u32, image@.height as u32),
            size,
        ));
        Ok(true)
    }

    /// How long the current frame is shown.
    fn frame_delay(&self) -> (d: Option<Span>)
        ensures
            d == self.state().delay,
    {
        self.current_delay
    }
}

/// Whether `e` reports the failure `f`.
pub open spec fn failed(f: Failure, e: Error) -> bool {
    e.detail() == f.message && if f.unsupported {
        e is Unsupported
    } else {
        e is Decode
    }
}

/// Whether `r` is that outcome.
pub open spec fn gave(o: GifOutcome, r: Result<Option<DecodedImage>, Error>) -> bool {
    match o {
        GifOutcome::Shown(p) => r is Ok && r->Ok_0 is Some && r->Ok_0->0@ == p && p.wf(),
        GifOutcome::Ended => r is Ok && r->Ok_0 is None,
        GifOutcome::Failed(f) => r is Err && failed(f, r->Err_0),
    }
}

/// A GIF without frames ends at once, however it is played.
pub proof fn law_empty_gif_ends_at_once(bytes: Seq<u8>, loop_mode: GifLoop)
    requires
        has_frames(bytes, 0),
    ensures
        GifState::start(bytes, loop_mode).next().1 == GifOutcome::Ended,
        GifState::start(bytes, loop_mode).next().0.exhausted,
{
}

/// A frame that cannot be decoded is reported where it comes, after all frames before it, and then
/// the source has ended, however it is played.
pub proof fn law_broken_frame_ends_the_source(
    bytes: Seq<u8>,
    loop_mode: GifLoop,
    k: nat,
    j: nat,
    f: Failure,
)
    requires
        gif_frame(bytes, k) == Some(Err::<GifPicture, Failure>(f)),
        forall|i: nat|
            i < k ==> (#[trigger] gif_frame(bytes, i)) is Some && gif_frame(bytes, i)->0 is Ok,
        j <= k,
    ensures
        ({
            let s = GifState::start(bytes, loop_mode).after(j);
            &&& !s.exhausted && s.asked == j && s.bytes == bytes
            &&& if j < k {
                s.next().1 == GifOutcome::Shown(gif_frame(bytes, j)->0->Ok_0.image)
            } else {
                &&& s.next().1 == GifOutcome::Failed(f)
                &&& s.next().0.exhausted
                &&& s.next().0.delay is None
            }
        }),
    decreases j,
{
    if j > 0 {
        law_broken_frame_ends_the_source(bytes, loop_mode, k, (j - 1) as nat, f);
        assert(gif_frame(bytes, (j - 1) as nat) is Some);
    }
    if j < k {
        assert(gif_frame(bytes, j) is Some);
    }
}

/// A canvas is shown at the size that its own width and height are fitted to, where it can be shown at
/// that size.
pub proof fn law_canvas_is_fitted_by_its_own_size<
    F: Fn(u32, u32) -> (usize, usize),
    M: Fn(PixelSum) -> Single,
>(
    p: Picture,
    after: Raster,
    viewport: Viewport,
    opts: RenderOptions,
    fit: F,
    math: M,
    size: spec_fn(int, int) -> (usize, usize),
)
    requires
        p.width <= u32::MAX,
        p.height <= u32::MAX,
        shows_canvas(p, after, viewport, opts, fit, math),
        forall|w: u32, h: u32, s: (usize, usize)| #[trigger]
            call_ensures(fit, (w, h), s) ==> s == size(w as int, h as int),
        can_show(p, viewport, opts, size(p.width as int, p.height as int)),
    ensures
        renders(p, after, viewport, opts, size(p.width as int, p.height as int), math),
{
}

} // verus!
