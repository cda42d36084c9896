//! Reusable, encoder-agnostic animation primitives.
//!
//! An [`Animation`] is an ordered list of [`Frame`]s (each a framebuffer plus a span of time) and a
//! [`LoopPolicy`]. An [`AnimationPlayer`] walks that list over time.
//!
//! There are two equivalent ways to drive a player: by elapsed time, with
//! [`AnimationPlayer::advance`], or frame by frame, with [`AnimationPlayer::next_frame`], which
//! shows the current frame and advances by exactly the time left in it.

use crate::color::Color;
use crate::error::Error;
use crate::framebuffer::{
    depth_far, lemma_index_in_plane, lemma_index_is_injective, Framebuffer, Raster,
};
use crate::source::FrameSource;
use crate::span::{left, Span};
use crate::text::{decimal, push_decimal};
use vstd::prelude::*;
use vstd::string::*;

verus! {

/// How an [`Animation`] behaves after its last frame.
#[derive(Clone, Copy, Debug, PartialEq, Eq, Structural)]
pub enum LoopPolicy {
    /// Play once, then stop on the final frame.
    Once,
    /// Restart from the first frame after the last, forever.
    Loop,
    /// Bounce back and forth: forward to the last frame, then backward to the first, repeating.
    PingPong,
}

/// A single animation frame: the pixels to show and how long to show them.
#[derive(Clone, Debug)]
pub struct Frame {
    image: Framebuffer,
    duration: Span,
}

impl Frame {
    /// The pixels of this frame.
    pub closed spec fn raster(&self) -> Raster {
        self.image@
    }

    /// How long this frame is shown.
    pub closed spec fn time(&self) -> Span {
        self.duration
    }

    /// Whether the frame's pixels match their size.
    pub open spec fn wf(&self) -> bool {
        self.raster().wf()
    }

    /// Creates a frame that shows `image` for `duration`.
    pub fn new(image: Framebuffer, duration: Span) -> (f: Frame)
        ensures
            f.raster() == image@,
            f.time() == duration,
    {
        Frame { image, duration }
    }

    /// Creates a frame from a [`Sprite`]'s bitmap, shown for `duration`.
    pub fn from_sprite(sprite: &Sprite, duration: Span) -> (f: Frame)
        ensures
            f.raster() == sprite.raster(),
            f.time() == duration,
    {
        Frame { image: sprite.image.duplicate(), duration }
    }

    /// The pixels shown during this frame.
    pub fn image(&self) -> (image: &Framebuffer)
        ensures
            image@ == self.raster(),
    {
        &self.image
    }

    /// How long this frame is shown.
    pub fn duration(&self) -> (d: Span)
        ensures
            d == self.time(),
    {
        self.duration
    }
}

/// A static bitmap that can be composited onto a framebuffer.
///
/// Compositing skips fully transparent source pixels so sprites can be layered.
#[derive(Clone, Debug)]
pub struct Sprite {
    image: Framebuffer,
}

impl Sprite {
    /// The pixels of this sprite.
    pub closed spec fn raster(&self) -> Raster {
        self.image@
    }

    /// Wraps an existing bitmap as a sprite.
    pub fn new(image: Framebuffer) -> (s: Sprite)
        ensures
            s.raster() == image@,
    {
        Sprite { image }
    }

    /// The sprite's bitmap.
    pub fn image(&self) -> (image: &Framebuffer)
        ensures
            image@ == self.raster(),
    {
        &self.image
    }

    /// The sprite width in pixels.
    pub fn width(&self) -> (n: usize)
        ensures
            n == self.raster().width,
    {
        self.image.width()
    }

    /// The sprite height in pixels.
    pub fn height(&self) -> (n: usize)
        ensures
            n == self.raster().height,
    {
        self.image.height()
    }

    /// Composites the sprite onto `target` with its top-left at `(x, y)`.
    ///
    /// Pixels that fall outside `target` are clipped, and fully transparent source pixels are
    /// left out so existing content shows through.
    pub fn blit(&self, target: &mut Framebuffer, x: usize, y: usize)
        requires
            self.raster().wf(),
            old(target).wf(),
        ensures
            composited(self.raster(), old(target)@, final(target)@, x as int, y as int),
    {
        blit(&self.image, target, x, y);
    }
}

/// The color that the pixel `(px, py)` of `dst` has once `src` was laid over it at `(ox, oy)`.
pub open spec fn overlaid(src: Raster, dst: Raster, ox: int, oy: int, px: int, py: int) -> Color {
    if src.contains(px - ox, py - oy) && src.pixel(px - ox, py - oy).is_visible() {
        src.pixel(px - ox, py - oy)
    } else {
        dst.pixel(px, py)
    }
}

/// Whether `after` is `before` with the visible pixels of `src` laid over it at `(ox, oy)`.
pub open spec fn composited(src: Raster, before: Raster, after: Raster, ox: int, oy: int) -> bool {
    &&& after.wf()
    &&& after.same_shape(before)
    &&& forall|px: int, py: int|
        #![trigger after.pixel(px, py)]
        before.contains(px, py) ==> after.pixel(px, py) == overlaid(src, before, ox, oy, px, py)
}

/// Whether `after` is `before` with the visible pixels of the first rows of `src`, and of the
/// first columns of the row behind them, laid over it.
spec fn partly_composited(
    src: Raster,
    before: Raster,
    after: Raster,
    ox: int,
    oy: int,
    rows: int,
    cols: int,
) -> bool {
    &&& after.wf()
    &&& after.same_shape(before)
    &&& forall|px: int, py: int|
        #![trigger after.pixel(px, py)]
        before.contains(px, py) ==> after.pixel(px, py) == if py - oy < rows || (py - oy == rows
            && px - ox < cols) {
            overlaid(src, before, ox, oy, px, py)
        } else {
            before.pixel(px, py)
        }
}

/// Copies the non-transparent pixels of `src` onto `dst` with `src`'s top-left at `(ox, oy)`.
fn blit(src: &Framebuffer, dst: &mut Framebuffer, ox: usize, oy: usize)
    requires
        src.wf(),
        old(dst).wf(),
    ensures
        composited(src@, old(dst)@, final(dst)@, ox as int, oy as int),
{
    let ghost before = dst@;
    let w: usize = dst.width();
    let h: usize = dst.height();
    let mut sy: usize = 0;
    while sy < src.height() && oy < h && sy < h - oy
        invariant
            src.wf(),
            before.wf(),
            w == before.width,
            h == before.height,
            sy <= src@.height,
            partly_composited(src@, before, dst@, ox as int, oy as int, sy as int, 0),
        decreases src@.height - sy,
    {
        let mut sx: usize = 0;
        while sx < src.width() && ox < w && sx < w - ox
            invariant
                src.wf(),
                before.wf(),
                w == before.width,
                h == before.height,
                sy < src@.height,
                oy + sy < h,
                sx <= src@.width,
                partly_composited(src@, before, dst@, ox as int, oy as int, sy as int, sx as int),
            decreases src@.width - sx,
        {
            let ghost mid = dst@;
            let c = src.get(sx, sy);
            let x: usize = ox + sx;
            let y: usize = oy + sy;
            if c.visible() {
                dst.set(x, y, c);
            }
            proof {
                lemma_index_in_plane(x as int, y as int, w as int, h as int);
                assert forall|px: int, py: int|
                    #![trigger dst@.pixel(px, py)]
                    before.contains(px, py) implies dst@.pixel(px, py) == if py - oy < sy || (py
                    - oy == sy && px - ox < sx + 1) {
                    overlaid(src@, before, ox as int, oy as int, px, py)
                } else {
                    before.pixel(px, py)
                } by {
                    lemma_index_in_plane(px, py, w as int, h as int);
                    lemma_index_is_injective(px, py, x as int, y as int, w as int);
                    assert(mid.pixel(px, py) == mid.color[py * w + px]);
                }
            }
            sx = sx + 1;
        }
        sy = sy + 1;
    }
}

/// An ordered sequence of [`Frame`]s plus a [`LoopPolicy`].
///
/// An animation is immutable once built. Construction validates that playback can never stall: at
/// least one frame, and every frame's duration strictly positive.
#[derive(Clone, Debug)]
pub struct Animation {
    frames: Vec<Frame>,
    loop_policy: LoopPolicy,
}

/// The position of the first frame that is shown for no time, or the number of frames.
pub open spec fn first_instant(frames: Seq<Frame>) -> nat
    decreases frames.len(),
{
    if frames.len() == 0 || frames[0].time().nanos == 0 {
        0
    } else {
        1 + first_instant(frames.drop_first())
    }
}

/// How long each frame is shown, in nanoseconds.
pub open spec fn times(frames: Seq<Frame>) -> Seq<nat> {
    frames.map_values(|f: Frame| f.time().nanos as nat)
}

/// The sum of all spans.
pub open spec fn total(spans: Seq<nat>) -> nat
    decreases spans.len(),
{
    if spans.len() == 0 {
        0
    } else {
        total(spans.drop_last()) + spans.last()
    }
}

/// Whether there is something to play, and playing it takes time at every frame.
pub open spec fn playable(spans: Seq<nat>) -> bool {
    &&& 0 < spans.len() <= usize::MAX
    &&& forall|i: int| 0 <= i < spans.len() ==> 0 < #[trigger] spans[i]
}

proof fn lemma_first_instant(frames: Seq<Frame>, n: nat)
    requires
        n <= frames.len(),
        forall|i: int| 0 <= i < n ==> (#[trigger] frames[i]).time().nanos != 0,
        n < frames.len() ==> frames[n as int].time().nanos == 0,
    ensures
        first_instant(frames) == n,
    decreases n,
{
    if n > 0 {
        let rest = frames.drop_first();
        assert forall|i: int| 0 <= i < n - 1 implies (#[trigger] rest[i]).time().nanos != 0 by {
            assert(rest[i] == frames[i + 1]);
        }
        lemma_first_instant(rest, (n - 1) as nat);
    }
}

impl Animation {
    /// The frames, in order.
    pub closed spec fn sequence(&self) -> Seq<Frame> {
        self.frames@
    }

    /// The loop policy.
    pub closed spec fn policy(&self) -> LoopPolicy {
        self.loop_policy
    }

    /// How long each frame is shown.
    pub open spec fn spans(&self) -> Seq<nat> {
        times(self.sequence())
    }

    /// Whether playback can never stall, and every frame's pixels match their size.
    pub open spec fn wf(&self) -> bool {
        &&& playable(self.spans())
        &&& forall|i: int| 0 <= i < self.sequence().len() ==> (#[trigger] self.sequence()[i]).wf()
    }

    /// Builds an animation from `frames` with the given `loop_policy`.
    ///
    /// Returns [`Error::Config`] if `frames` is empty or any frame has a zero duration (a zero
    /// duration would let a looping player make no progress).
    pub fn new(frames: Vec<Frame>, loop_policy: LoopPolicy) -> (r: Result<Animation, Error>)
        requires
            forall|i: int| 0 <= i < frames@.len() ==> (#[trigger] frames@[i]).wf(),
        ensures
            match r {
                Ok(a) => {
                    &&& frames@.len() > 0 && first_instant(frames@) == frames@.len()
                    &&& a.wf()
                    &&& a.sequence() == frames@
                    &&& a.policy() == loop_policy
                },
                Err(e) => if frames@.len() == 0 {
                    e is Config && e.detail() == "animation has no frames"@
                } else {
                    &&& first_instant(frames@) < frames@.len()
                    &&& e is Config
                    &&& e.detail() == "animation frame "@ + decimal(first_instant(frames@))
                        + " has a zero duration"@
                },
            },
    {
        if frames.len() == 0 {
            return Err(Error::Config("animation has no frames".to_owned()));
        }
        let mut pos: usize = 0;
        while pos < frames.len() && !frames[pos].duration.is_zero()
            invariant
                pos <= frames.len(),
                forall|i: int| 0 <= i < pos ==> (#[trigger] frames@[i]).time().nanos != 0,
            decreases frames.len() - pos,
        {
            pos = pos + 1;
        }
        proof {
            lemma_first_instant(frames@, pos as nat);
        }
        if pos < frames.len() {
            let mut m = "animation frame ".to_owned();
            push_decimal(&mut m, pos as u64);
            m.append(" has a zero duration");
            return Err(Error::Config(m));
        }
        let a = Animation { frames, loop_policy };
        assert forall|i: int| 0 <= i < a.spans().len() implies 0 < #[trigger] a.spans()[i] by {
            assert(a.spans()[i] == a.sequence()[i].time().nanos);
        }
        Ok(a)
    }

    /// The frames, in order.
    pub fn frames(&self) -> (s: &[Frame])
        ensures
            s@ == self.sequence(),
    {
        self.frames.as_slice()
    }

    /// The number of frames.
    pub fn len(&self) -> (n: usize)
        ensures
            n == self.sequence().len(),
    {
        self.frames.len()
    }

    /// Whether the animation has no frames. Always `false` for a successfully constructed value.
    pub fn is_empty(&self) -> (b: bool)
        ensures
            b == (self.sequence().len() == 0),
            self.wf() ==> !b,
    {
        self.frames.len() == 0
    }

    /// The loop policy.
    pub fn loop_policy(&self) -> (p: LoopPolicy)
        ensures
            p == self.policy(),
    {
        self.loop_policy
    }

    /// The summed duration of a single pass over every frame.
    pub fn total_duration(&self) -> (d: Span)
        requires
            total(self.spans()) <= u128::MAX,
        ensures
            d.nanos == total(self.spans()),
    {
        let mut sum: u128 = 0;
        let mut i: usize = 0;
        let ghost spans = self.spans();
        assert(spans.take(0) =~= Seq::<nat>::empty());
        while i < self.frames.len()
            invariant
                spans == self.spans(),
                i <= self.frames.len(),
                sum == total(spans.take(i as int)),
                total(spans) <= u128::MAX,
            decreases self.frames.len() - i,
        {
            proof {
                lemma_total_take(spans, i as int);
                assert(spans[i as int] == self.frames@[i as int].duration.nanos);
            }
            sum = sum + self.frames[i].duration.nanos;
            i = i + 1;
        }
        assert(spans.take(i as int) =~= spans);
        Span { nanos: sum }
    }
}

/// Taking one span more adds it, and no partial sum exceeds the whole.
proof fn lemma_total_take(spans: Seq<nat>, i: int)
    requires
        0 <= i < spans.len(),
    ensures
        total(spans.take(i + 1)) == total(spans.take(i)) + spans[i],
        total(spans.take(i + 1)) <= total(spans),
    decreases spans.len() - i,
{
    assert(spans.take(i + 1).drop_last() =~= spans.take(i));
    assert(spans.take(i + 1).last() == spans[i]);
    if i + 1 < spans.len() {
        lemma_total_take(spans, i + 1);
    } else {
        assert(spans.take(i + 1) =~= spans);
    }
}

/// Where a player stands: which frame, for how long already, in which direction, and whether a
/// one-shot animation is over.
pub ghost struct Playhead {
    /// The frame under the playhead.
    pub index: int,
    /// The time already spent on that frame.
    pub elapsed: nat,
    /// Whether a bouncing animation is moving towards its last frame.
    pub forward: bool,
    /// Whether a one-shot animation has played past its final frame.
    pub finished: bool,
}

impl Playhead {
    /// The start: the first frame, moving forward.
    pub open spec fn start() -> Playhead {
        Playhead { index: 0, elapsed: 0, forward: true, finished: false }
    }

    /// Whether this is a place where a player of these frames can stand.
    pub open spec fn wf(self, spans: Seq<nat>, policy: LoopPolicy) -> bool {
        &&& 0 <= self.index < spans.len()
        &&& self.elapsed < spans[self.index]
        &&& self.finished ==> policy == LoopPolicy::Once && self.index == spans.len() - 1
            && self.elapsed == 0
        &&& policy != LoopPolicy::PingPong ==> self.forward
    }

    /// Where the playhead stands one frame later, among `n` frames.
    pub open spec fn stepped(self, n: nat, policy: LoopPolicy) -> Playhead {
        match policy {
            LoopPolicy::Once => if self.index + 1 >= n {
                Playhead { finished: true, ..self }
            } else {
                Playhead { index: self.index + 1, ..self }
            },
            LoopPolicy::Loop => Playhead { index: (self.index + 1) % n as int, ..self },
            LoopPolicy::PingPong => if n == 1 {
                self
            } else if self.forward && self.index + 1 < n {
                Playhead { index: self.index + 1, ..self }
            } else if self.forward {
                Playhead { index: self.index - 1, forward: false, ..self }
            } else if self.index == 0 {
                Playhead { index: 1, forward: true, ..self }
            } else {
                Playhead { index: self.index - 1, ..self }
            },
        }
    }

    /// This place at the start of its frame.
    pub open spec fn rewound(self) -> Playhead {
        Playhead { elapsed: 0, ..self }
    }

    /// The time left in the current frame.
    pub open spec fn remaining(self, spans: Seq<nat>) -> nat {
        left(spans[self.index], self.elapsed)
    }

    /// Where the playhead stands after another `dt` of time.
    pub open spec fn advanced(self, spans: Seq<nat>, policy: LoopPolicy, dt: nat) -> Playhead
        decreases dt,
    {
        let rest = self.remaining(spans);
        if self.finished || rest == 0 {
            self
        } else if dt < rest {
            Playhead { elapsed: self.elapsed + dt, ..self }
        } else {
            let next = self.rewound().stepped(spans.len(), policy);
            next.advanced(spans, policy, (dt - rest) as nat)
        }
    }

    /// Where the playhead stands after `k` frames.
    pub open spec fn stepped_times(self, n: nat, policy: LoopPolicy, k: nat) -> Playhead
        decreases k,
    {
        if k == 0 {
            self
        } else {
            self.stepped_times(n, policy, (k - 1) as nat).stepped(n, policy)
        }
    }
}

/// A step leads from a place where a player can stand to another.
pub proof fn lemma_stepped_wf(p: Playhead, spans: Seq<nat>, policy: LoopPolicy)
    requires
        playable(spans),
        p.wf(spans, policy),
        !p.finished,
    ensures
        p.rewound().stepped(spans.len(), policy).wf(spans, policy),
{
    let next = p.rewound().stepped(spans.len(), policy);
    if policy == LoopPolicy::Loop {
        vstd::arithmetic::div_mod::lemma_mod_bound(p.index + 1, spans.len() as int);
    }
    assert(0 < spans[next.index]);
}

/// However long a player plays, it stands at a place where a player can stand.
pub proof fn law_advancing_keeps_the_playhead_in_place(
    p: Playhead,
    spans: Seq<nat>,
    policy: LoopPolicy,
    dt: nat,
)
    requires
        playable(spans),
        p.wf(spans, policy),
    ensures
        p.advanced(spans, policy, dt).wf(spans, policy),
    decreases dt,
{
    let rest = p.remaining(spans);
    if !p.finished && dt >= rest {
        lemma_stepped_wf(p, spans, policy);
        let next = p.rewound().stepped(spans.len(), policy);
        law_advancing_keeps_the_playhead_in_place(next, spans, policy, (dt - rest) as nat);
    }
}

/// Playing for one span of time and then for another is playing for both at once: how the elapsed
/// time is cut into ticks does not matter.
pub proof fn law_advancing_adds_up(
    p: Playhead,
    spans: Seq<nat>,
    policy: LoopPolicy,
    a: nat,
    b: nat,
)
    requires
        playable(spans),
        p.wf(spans, policy),
    ensures
        p.advanced(spans, policy, a).advanced(spans, policy, b) == p.advanced(
            spans,
            policy,
            a + b,
        ),
    decreases a,
{
    let rest = p.remaining(spans);
    if !p.finished {
        if a < rest {
            let mid = Playhead { elapsed: p.elapsed + a, ..p };
            assert(mid.remaining(spans) == rest - a);
            assert(p.advanced(spans, policy, a) == mid);
            if a + b < rest {
            } else {
                assert(mid.rewound() == p.rewound());
                assert((b - (rest - a)) as nat == (a + b - rest) as nat);
            }
        } else {
            lemma_stepped_wf(p, spans, policy);
            let next = p.rewound().stepped(spans.len(), policy);
            law_advancing_adds_up(next, spans, policy, (a - rest) as nat, b);
            assert(((a - rest) as nat + b) as nat == (a + b - rest) as nat);
        }
    }
}

/// Looping and bouncing animations never finish.
pub proof fn law_only_one_shot_playback_finishes(
    p: Playhead,
    spans: Seq<nat>,
    policy: LoopPolicy,
    dt: nat,
)
    requires
        playable(spans),
        p.wf(spans, policy),
        policy != LoopPolicy::Once,
    ensures
        !p.advanced(spans, policy, dt).finished,
{
    law_advancing_keeps_the_playhead_in_place(p, spans, policy, dt);
}

/// The time from the start of the frames to this place.
pub open spec fn time_at(p: Playhead, spans: Seq<nat>) -> nat {
    total(spans.take(p.index)) + p.elapsed
}

/// One-shot playback follows the clock: while the whole time played is short of the total, the
/// playhead stands exactly there; from the total on, playback is finished, on the last frame.
pub proof fn law_one_shot_playback_follows_the_clock(p: Playhead, spans: Seq<nat>, dt: nat)
    requires
        playable(spans),
        p.wf(spans, LoopPolicy::Once),
        !p.finished,
    ensures
        ({
            let q = p.advanced(spans, LoopPolicy::Once, dt);
            if time_at(p, spans) + dt < total(spans) {
                !q.finished && time_at(q, spans) == time_at(p, spans) + dt
            } else {
                q.finished && q.index == spans.len() - 1
            }
        }),
    decreases dt,
{
    let rest = p.remaining(spans);
    lemma_total_take(spans, p.index);
    if dt >= rest {
        lemma_stepped_wf(p, spans, LoopPolicy::Once);
        let next = p.rewound().stepped(spans.len(), LoopPolicy::Once);
        if p.index + 1 < spans.len() {
            law_one_shot_playback_follows_the_clock(next, spans, (dt - rest) as nat);
        } else {
            assert(spans.take(p.index + 1) =~= spans);
            assert(next.advanced(spans, LoopPolicy::Once, (dt - rest) as nat) == next);
        }
    }
}

/// Looping playback follows the clock: the playhead stands where the whole time played, counted
/// round the total, puts it.
pub proof fn law_looping_playback_follows_the_clock(p: Playhead, spans: Seq<nat>, dt: nat)
    requires
        playable(spans),
        p.wf(spans, LoopPolicy::Loop),
    ensures
        ({
            let q = p.advanced(spans, LoopPolicy::Loop, dt);
            &&& q.wf(spans, LoopPolicy::Loop)
            &&& time_at(q, spans) == (time_at(p, spans) + dt) % total(spans)
        }),
    decreases dt,
{
    let rest = p.remaining(spans);
    lemma_total_take(spans, p.index);
    let now = time_at(p, spans);
    if dt < rest {
        vstd::arithmetic::div_mod::lemma_small_mod((now + dt) as nat, total(spans));
    } else {
        lemma_stepped_wf(p, spans, LoopPolicy::Loop);
        let next = p.rewound().stepped(spans.len(), LoopPolicy::Loop);
        law_looping_playback_follows_the_clock(next, spans, (dt - rest) as nat);
        if p.index + 1 < spans.len() {
            vstd::arithmetic::div_mod::lemma_small_mod((p.index + 1) as nat, spans.len());
        } else {
            assert(spans.take(p.index + 1) =~= spans);
            vstd::arithmetic::div_mod::lemma_mod_self_0(spans.len() as int);
            assert(spans.take(0) =~= Seq::<nat>::empty());
            assert(now + dt == total(spans) + (dt - rest));
            vstd::arithmetic::div_mod::lemma_mod_add_multiples_vanish(
                (dt - rest) as int,
                total(spans) as int,
            );
        }
    }
}

/// Two places of looping playback at the same time of the clock are the same place, so a whole
/// pass over every frame leads back to where it began.
pub proof fn law_a_whole_pass_loops_back(p: Playhead, spans: Seq<nat>)
    requires
        playable(spans),
        p.wf(spans, LoopPolicy::Loop),
    ensures
        p.advanced(spans, LoopPolicy::Loop, total(spans)) == p,
{
    let q = p.advanced(spans, LoopPolicy::Loop, total(spans));
    law_looping_playback_follows_the_clock(p, spans, total(spans));
    law_looping_playback_follows_the_clock(p, spans, 0);
    vstd::arithmetic::div_mod::lemma_mod_add_multiples_vanish(
        time_at(p, spans) as int,
        total(spans) as int,
    );
    lemma_total_take(spans, p.index);
    vstd::arithmetic::div_mod::lemma_small_mod(time_at(p, spans), total(spans));
    lemma_time_determines_place(p, q, spans);
}

proof fn lemma_total_is_monotone(spans: Seq<nat>, i: int, j: int)
    requires
        0 <= i < j <= spans.len(),
    ensures
        total(spans.take(i)) + spans[i] <= total(spans.take(j)),
    decreases j - i,
{
    lemma_total_take(spans, i);
    if i + 1 < j {
        lemma_total_is_monotone(spans, i + 1, j);
    }
}

proof fn lemma_time_determines_place(p: Playhead, q: Playhead, spans: Seq<nat>)
    requires
        p.wf(spans, LoopPolicy::Loop),
        q.wf(spans, LoopPolicy::Loop),
        time_at(p, spans) == time_at(q, spans),
    ensures
        p == q,
{
    if p.index < q.index {
        lemma_total_is_monotone(spans, p.index, q.index);
    }
    if q.index < p.index {
        lemma_total_is_monotone(spans, q.index, p.index);
    }
}

/// Where bouncing playback over `n` frames stands after `k` frames from the start.
pub open spec fn bounce(n: nat, k: nat) -> (int, bool) {
    if n <= 1 {
        (0, true)
    } else {
        let period = 2 * (n - 1);
        let at = k as int % period;
        if at == 0 {
            (0, k == 0)
        } else if at <= n - 1 {
            (at, true)
        } else {
            (period - at, false)
        }
    }
}

/// Bouncing playback runs forward to the last frame and backward to the first, again and again.
pub proof fn law_ping_pong_bounces(n: nat, k: nat)
    requires
        0 < n,
    ensures
        ({
            let p = Playhead::start().stepped_times(n, LoopPolicy::PingPong, k);
            &&& (p.index, p.forward) == bounce(n, k)
            &&& !p.finished
            &&& p.elapsed == 0
        }),
    decreases k,
{
    if k > 0 {
        law_ping_pong_bounces(n, (k - 1) as nat);
        if n > 1 {
            let period = 2 * (n - 1);
            let at = (k - 1) % period;
            vstd::arithmetic::div_mod::lemma_mod_bound(k - 1, period);
            vstd::arithmetic::div_mod::lemma_fundamental_div_mod(k - 1, period);
            let d = (k - 1) / period;
            if at + 1 < period {
                vstd::arithmetic::div_mod::lemma_fundamental_div_mod_converse(
                    k as int,
                    period,
                    d,
                    at + 1,
                );
            } else {
                assert(period * (d + 1) == period * d + period) by (nonlinear_arith);
                vstd::arithmetic::div_mod::lemma_fundamental_div_mod_converse(
                    k as int,
                    period,
                    d + 1,
                    0,
                );
            }
            if k == 1 {
                vstd::arithmetic::div_mod::lemma_small_mod(0, period as nat);
            }
        }
    } else if n > 1 {
        vstd::arithmetic::div_mod::lemma_small_mod(0, (2 * (n - 1)) as nat);
    }
}

/// A stateful playhead over an [`Animation`].
#[derive(Clone, Debug)]
pub struct AnimationPlayer {
    animation: Animation,
    index: usize,
    elapsed: Span,
    forward: bool,
    finished: bool,
}

impl AnimationPlayer {
    /// The animation being played.
    pub closed spec fn film(&self) -> Animation {
        self.animation
    }

    /// Where the player stands.
    pub closed spec fn playhead(&self) -> Playhead {
        Playhead {
            index: self.index as int,
            elapsed: self.elapsed.nanos as nat,
            forward: self.forward,
            finished: self.finished,
        }
    }

    /// Whether the animation can be played and the player stands at a place of it.
    pub open spec fn wf(&self) -> bool {
        &&& self.film().wf()
        &&& self.playhead().wf(self.film().spans(), self.film().policy())
    }

    /// Creates a player positioned at the first frame of `animation`.
    pub fn new(animation: Animation) -> (p: AnimationPlayer)
        requires
            animation.wf(),
        ensures
            p.wf(),
            p.film() == animation,
            p.playhead() == Playhead::start(),
    {
        assert(0 < animation.spans()[0]);
        AnimationPlayer {
            animation,
            index: 0,
            elapsed: Span::zero(),
            forward: true,
            finished: false,
        }
    }

    /// The animation being played.
    pub fn animation(&self) -> (a: &Animation)
        ensures
            *a == self.film(),
    {
        &self.animation
    }

    /// The index of the frame currently under the playhead.
    pub fn current_index(&self) -> (i: usize)
        ensures
            i == self.playhead().index,
    {
        self.index
    }

    /// The frame currently under the playhead.
    pub fn current_frame(&self) -> (f: &Frame)
        requires
            self.wf(),
        ensures
            *f == self.film().sequence()[self.playhead().index],
    {
        &self.animation.frames[self.index]
    }

    /// Whether a one-shot animation has played past its final frame.
    ///
    /// Always `false` for [`LoopPolicy::Loop`] and [`LoopPolicy::PingPong`].
    pub fn is_finished(&self) -> (b: bool)
        requires
            self.wf(),
        ensures
            b == self.playhead().finished,
            self.film().policy() != LoopPolicy::Once ==> !b,
    {
        self.finished
    }

    /// Resets the playhead to the first frame and clears the finished flag.
    pub fn reset(&mut self)
        requires
            old(self).wf(),
        ensures
            final(self).wf(),
            final(self).film() == old(self).film(),
            final(self).playhead() == Playhead::start(),
    {
        self.index = 0;
        self.elapsed = Span::zero();
        self.forward = true;
        self.finished = false;
        assert(0 < self.film().spans()[0]);
    }

    /// Advances the playhead by `dt` of elapsed time, crossing as many frame boundaries as `dt`
    /// covers and honouring the [`LoopPolicy`].
    ///
    /// Once a one-shot animation reaches the end of its last frame it is finished and further
    /// advancing is a no-op until [`AnimationPlayer::reset`].
    pub fn advance(&mut self, dt: Span)
        requires
            old(self).wf(),
        ensures
            final(self).wf(),
            final(self).film() == old(self).film(),
            final(self).playhead() == old(self).playhead().advanced(
                old(self).film().spans(),
                old(self).film().policy(),
                dt.nanos as nat,
            ),
    {
        if self.finished {
            return;
        }
        let ghost spans = self.film().spans();
        let ghost policy = self.film().policy();
        let ghost goal = self.playhead().advanced(spans, policy, dt.nanos as nat);
        let mut time: u128 = dt.nanos;
        loop
            invariant
                self.wf(),
                self.film() == old(self).film(),
                spans == self.film().spans(),
                policy == self.film().policy(),
                !self.finished,
                goal == old(self).playhead().advanced(spans, policy, dt.nanos as nat),
                goal == self.playhead().advanced(spans, policy, time as nat),
            decreases time,
        {
            assert(spans[self.index as int] == self.animation.frames@[self.index as int].duration.nanos);
            let frame_len = self.animation.frames[self.index].duration;
            let remaining: u128 = frame_len.saturating_sub(self.elapsed).nanos;
            if time < remaining {
                self.elapsed = Span { nanos: self.elapsed.nanos + time };
                return;
            }
            proof {
                lemma_stepped_wf(self.playhead(), spans, policy);
            }
            time = time - remaining;
            self.elapsed = Span::zero();
            let more: bool = self.step();
            assert(goal == self.playhead().advanced(spans, policy, time as nat));
            if !more {
                return;
            }
        }
    }

    /// Steps the playhead forward one frame per the loop policy.
    ///
    /// Returns `false` when a one-shot animation has just finished (the index is left on the final
    /// frame); `true` otherwise.
    fn step(&mut self) -> (more: bool)
        requires
            old(self).film().wf(),
            old(self).playhead().wf(old(self).film().spans(), old(self).film().policy()),
            !old(self).playhead().finished,
        ensures
            final(self).film() == old(self).film(),
            final(self).playhead() == old(self).playhead().stepped(
                old(self).film().spans().len(),
                old(self).film().policy(),
            ),
            more == !final(self).playhead().finished,
    {
        let n: usize = self.animation.frames.len();
        match self.animation.loop_policy {
            LoopPolicy::Once => {
                if self.index + 1 >= n {
                    self.finished = true;
                    return false;
                }
                self.index = self.index + 1;
            },
            LoopPolicy::Loop => {
                self.index = (self.index + 1) % n;
            },
            LoopPolicy::PingPong => {
                if n == 1 {
                    return true;
                }
                if self.forward {
                    if self.index + 1 >= n {
                        self.forward = false;
                        self.index = self.index - 1;
                    } else {
                        self.index = self.index + 1;
                    }
                } else if self.index == 0 {
                    self.forward = true;
                    self.index = self.index + 1;
                } else {
                    self.index = self.index - 1;
                }
            },
        }
        true
    }
}

/// What a target shows once the frame `image` was drawn onto it: the visible pixels of the image
/// at its top-left, and nothing around them.
pub open spec fn shows(image: Raster, before: Raster, after: Raster) -> bool {
    composited(
        image,
        Raster {
            color: Seq::new(before.color.len(), |i: int| Color::transparent()),
            depth: Seq::new(before.depth.len(), |i: int| depth_far()),
            ..before
        },
        after,
        0,
        0,
    )
}

impl FrameSource for AnimationPlayer {
    open spec fn ready(&self) -> bool {
        self.wf()
    }

    /// Renders the current frame into `target`, then steps forward one whole frame.
    ///
    /// `target` is cleared to transparent and the frame's bitmap is composited at its top-left.
    /// Returns `Ok(true)` while the animation is producing frames, and `Ok(false)` once a one-shot
    /// animation is exhausted (looping animations always return `Ok(true)`).
    fn next_frame(&mut self, target: &mut Framebuffer) -> (r: Result<bool, Error>)
        ensures
            r == Ok::<bool, Error>(!old(self).playhead().finished),
            final(self).film() == old(self).film(),
            if old(self).playhead().finished {
                *final(self) == *old(self) && *final(target) == *old(target)
            } else {
                &&& shows(
                    old(self).film().sequence()[old(self).playhead().index].raster(),
                    old(target)@,
                    final(target)@,
                )
                &&& final(self).playhead() == old(self).playhead().advanced(
                    old(self).film().spans(),
                    old(self).film().policy(),
                    old(self).playhead().remaining(old(self).film().spans()),
                )
            },
    {
        if self.finished {
            return Ok(false);
        }
        let ghost spans = self.film().spans();
        assert(spans[self.index as int] == self.animation.frames@[self.index as int].duration.nanos);
        assert(self.film().sequence()[self.index as int].wf());
        target.clear(Color::transparent());
        blit(&self.animation.frames[self.index].image, target, 0, 0);
        let frame_len = self.animation.frames[self.index].duration;
        let remaining = frame_len.saturating_sub(self.elapsed);
        self.advance(remaining);
        Ok(true)
    }

    /// The time remaining before the playhead should leave the current frame.
    fn frame_delay(&self) -> (d: Option<Span>)
        ensures
            d is None <==> self.playhead().finished,
            d is Some ==> d->0.nanos == self.playhead().remaining(self.film().spans()),
    {
        if self.finished {
            return None;
        }
        assert(self.film().spans()[self.index as int]
            == self.animation.frames@[self.index as int].duration.nanos);
        let frame_len = self.animation.frames[self.index].duration;
        Some(frame_len.saturating_sub(self.elapsed))
    }
}

/// Showing a frame takes the playhead to the start of the frame behind it.
pub proof fn law_showing_a_frame_steps_one_frame(p: Playhead, spans: Seq<nat>, policy: LoopPolicy)
    requires
        playable(spans),
        p.wf(spans, policy),
        !p.finished,
    ensures
        p.advanced(spans, policy, p.remaining(spans)) == p.rewound().stepped(
            spans.len(),
            policy,
        ),
{
    lemma_stepped_wf(p, spans, policy);
    let next = p.rewound().stepped(spans.len(), policy);
    assert(next.advanced(spans, policy, 0) == next);
}

/// A sprite laid down with its top left at `(ox, oy)` has its pixel `(sx, sy)` as many columns and rows
/// from there: a visible one shows, a transparent one lets through what was there, and all around the
/// sprite nothing changes.
pub proof fn law_sprite_lands_where_it_is_put(
    src: Raster,
    before: Raster,
    after: Raster,
    ox: int,
    oy: int,
    x: int,
    y: int,
)
    requires
        composited(src, before, after, ox, oy),
        before.contains(x, y),
    ensures
        forall|sx: int, sy: int|
            #![trigger src.color[sy * src.width + sx]]
            0 <= sx < src.width && 0 <= sy < src.height && x == ox + sx && y == oy + sy
                ==> after.color[y * before.width + x] == if crate::single::Single::zero().spec_lt(
                src.color[sy * src.width + sx].a,
            ) {
                src.color[sy * src.width + sx]
            } else {
                before.color[y * before.width + x]
            },
        x < ox || y < oy || x >= ox + src.width || y >= oy + src.height ==> after.color[y
            * before.width + x] == before.color[y * before.width + x],
        after.depth == before.depth,
{
    assert(after.pixel(x, y) == after.color[y * before.width + x]);
    assert forall|sx: int, sy: int|
        #![trigger src.color[sy * src.width + sx]]
        0 <= sx < src.width && 0 <= sy < src.height && x == ox + sx && y == oy + sy implies after.color[y
        * before.width + x] == if crate::single::Single::zero().spec_lt(src.color[sy * src.width + sx].a) {
        src.color[sy * src.width + sx]
    } else {
        before.color[y * before.width + x]
    } by {
        assert(src.pixel(x - ox, y - oy) == src.color[sy * src.width + sx]);
    }
}

/// A frame is shown alone: its visible pixels where they are in the frame, and everything else
/// transparent and as far as can be, whatever was there.
pub proof fn law_frame_is_shown_alone(image: Raster, before: Raster, after: Raster, x: int, y: int)
    requires
        before.wf(),
        shows(image, before, after),
        before.contains(x, y),
    ensures
        after.width == before.width && after.height == before.height,
        ({
            let i = y * before.width + x;
            let c = image.color[y * image.width + x];
            &&& x < image.width && y < image.height && crate::single::Single::zero().spec_lt(c.a)
                ==> after.color[i] == c
            &&& x >= image.width || y >= image.height || !crate::single::Single::zero().spec_lt(c.a)
                ==> after.color[i] == Color::transparent()
            &&& after.depth[i] == depth_far()
        }),
{
    lemma_index_in_plane(x, y, before.width as int, before.height as int);
    assert(after.pixel(x, y) == after.color[y * before.width + x]);
}

} // verus!
