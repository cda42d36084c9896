//! The image-quality stage: which adjustments run, and dithering to black and white.
//!
//! The stages run in order: tone (gamma, contrast and brightness per channel), an optional sharpen,
//! then dithering, which reduces every pixel to pure black or white and keeps its alpha. The sums on
//! channels ([`PixelSum`]) are worked out by a closure that is handed in; the stages, the threshold
//! matrices, the neighbourhoods and the order in which error is handed on are here.

use crate::color::Color;
use crate::framebuffer::{
    lemma_index_has_a_pixel, lemma_index_in_plane, lemma_index_is_injective, Framebuffer, Raster,
};
use crate::single::Single;
use crate::text::copied;
use vstd::arithmetic::power2::pow2;
use vstd::prelude::*;

verus! {

/// The size of an ordered threshold matrix.
#[derive(Clone, Copy, Debug, PartialEq, Eq, Structural)]
pub enum BayerSize {
    /// A 2×2 matrix (4 tone levels).
    Two,
    /// A 4×4 matrix (16 tone levels). A good default for Braille.
    Four,
    /// An 8×8 matrix (64 tone levels).
    Eight,
    /// A 16×16 matrix (256 tone levels).
    Sixteen,
}

impl BayerSize {
    /// The matrix side length.
    pub open spec fn side(self) -> nat {
        match self {
            BayerSize::Two => 2,
            BayerSize::Four => 4,
            BayerSize::Eight => 8,
            BayerSize::Sixteen => 16,
        }
    }

    /// The matrix side length `n`.
    pub fn n(self) -> (n: usize)
        ensures
            n == self.side(),
    {
        match self {
            BayerSize::Two => 2,
            BayerSize::Four => 4,
            BayerSize::Eight => 8,
            BayerSize::Sixteen => 16,
        }
    }
}

impl Default for BayerSize {
    fn default() -> (s: BayerSize)
        ensures
            s == BayerSize::Four,
    {
        BayerSize::Four
    }
}

/// The dithering algorithm applied on the luma/threshold path.
///
/// Every variant but [`Dither::Off`] reduces the framebuffer to pure black/white pixels (alpha
/// preserved) so a grayscale encoder produces good 1-bit output.
#[derive(Clone, Copy, Debug, PartialEq, Eq, Structural)]
pub enum Dither {
    /// No dithering: tone/sharpen still apply, but color is left untouched.
    Off,
    /// Threshold each pixel's luma at the configured threshold (no diffusion).
    ThresholdOnly,
    /// Floyd–Steinberg error diffusion: the classic serpentine-free 7/3/5/1 kernel.
    FloydSteinberg,
    /// Atkinson error diffusion: lighter diffusion (6/8 of the error), higher contrast.
    Atkinson,
    /// Ordered (Bayer) dithering with a matrix of the given size. Deterministic.
    Bayer(BayerSize),
}

impl Default for Dither {
    fn default() -> (d: Dither)
        ensures
            d == Dither::Off,
    {
        Dither::Off
    }
}

/// Per-channel tone controls, applied before dithering.
#[derive(Clone, Copy, Debug, PartialEq, Eq, Structural)]
pub struct Tone {
    /// Gamma exponent (one is the identity).
    pub gamma: Single,
    /// Contrast multiplier about mid-grey (one is the identity).
    pub contrast: Single,
    /// Additive brightness offset applied after contrast (zero is the identity).
    pub brightness: Single,
    /// Optional unsharp-mask amount; `None` disables the pass.
    pub sharpen: Option<Single>,
}

impl Tone {
    /// The identity tone transform (no change).
    #[verifier::allow_in_spec]
    pub fn identity() -> Tone
        returns
            (Tone {
                gamma: Single::one(),
                contrast: Single::one(),
                brightness: Single::zero(),
                sharpen: None,
            }),
    {
        Tone {
            gamma: Single::one(),
            contrast: Single::one(),
            brightness: Single::zero(),
            sharpen: None,
        }
    }

    /// Whether the levels leave every channel as it is.
    pub open spec fn levels_are_neutral(self) -> bool {
        &&& self.gamma.same_value(Single::one())
        &&& self.contrast.same_value(Single::one())
        &&& self.brightness.same_value(Single::zero())
    }

    /// Whether the gamma/contrast/brightness channel pass would change any value.
    pub fn needs_levels(&self) -> (b: bool)
        ensures
            b == !self.levels_are_neutral(),
    {
        !(self.gamma.equals(Single::one()) && self.contrast.equals(Single::one())
            && self.brightness.equals(Single::zero()))
    }
}

impl Default for Tone {
    fn default() -> (t: Tone)
        ensures
            t == Tone::identity(),
    {
        Tone::identity()
    }
}

/// The image-quality options threaded through the render path.
#[derive(Clone, Copy, Debug, PartialEq, Eq, Structural)]
pub struct Preprocess {
    /// Tone (gamma/contrast/brightness) and optional sharpen.
    pub tone: Tone,
    /// The dithering algorithm applied to the luma/threshold path.
    pub dither: Dither,
    /// The luma threshold used by threshold-only and error-diffusion dithering to decide lit vs
    /// unlit. One half is the neutral midpoint.
    pub threshold: Single,
}

/// Which stages of a preprocess run, in their order.
#[derive(Clone, Copy, Debug, PartialEq, Eq, Structural)]
pub struct Stages {
    /// Whether the levels run.
    pub levels: bool,
    /// The amount by which the sharpen runs, if it does.
    pub sharpen: Option<Single>,
    /// The dithering that runs.
    pub dither: Dither,
}

impl Preprocess {
    /// The identity preprocess (no tone change, no dithering).
    #[verifier::allow_in_spec]
    pub fn identity() -> Preprocess
        returns
            (Preprocess {
                tone: Tone::identity(),
                dither: Dither::Off,
                threshold: Single::half(),
            }),
    {
        Preprocess { tone: Tone::identity(), dither: Dither::Off, threshold: Single::half() }
    }

    /// Whether nothing is adjusted.
    pub open spec fn changes_nothing(self) -> bool {
        self.dither == Dither::Off && self.tone.levels_are_neutral() && self.tone.sharpen is None
    }

    /// Whether applying this would leave the framebuffer unchanged.
    pub fn is_identity(&self) -> (b: bool)
        ensures
            b == self.changes_nothing(),
    {
        self.dither == Dither::Off && !self.tone.needs_levels() && self.tone.sharpen.is_none()
    }

    /// The stages that run on a framebuffer: none on an empty one, or where nothing is adjusted.
    pub fn stages(&self, empty: bool) -> (s: Stages)
        ensures
            s == (if empty {
                Stages { levels: false, sharpen: None, dither: Dither::Off }
            } else {
                Stages {
                    levels: !self.tone.levels_are_neutral(),
                    sharpen: self.tone.sharpen,
                    dither: self.dither,
                }
            }),
            self.changes_nothing() ==> s == (Stages {
                levels: false,
                sharpen: None,
                dither: Dither::Off,
            }),
    {
        if empty || self.is_identity() {
            return Stages { levels: false, sharpen: None, dither: Dither::Off };
        }
        Stages {
            levels: self.tone.needs_levels(),
            sharpen: self.tone.sharpen,
            dither: self.dither,
        }
    }
}

impl Default for Preprocess {
    fn default() -> (p: Preprocess)
        ensures
            p == Preprocess::identity(),
    {
        Preprocess::identity()
    }
}

/// White where `lit`, else black, with the alpha of `c`.
pub open spec fn mono(c: Color, lit: bool) -> Color {
    let v = if lit {
        Single::one()
    } else {
        Single::zero()
    };
    Color { r: v, g: v, b: v, a: c.a }
}

/// Makes a pixel white or black while preserving its alpha.
pub fn set_mono(fb: &mut Framebuffer, x: usize, y: usize, lit: bool)
    requires
        old(fb).wf(),
        old(fb)@.contains(x as int, y as int),
    ensures
        final(fb).wf(),
        final(fb)@ == old(fb)@.with_pixel(
            x as int,
            y as int,
            mono(old(fb)@.pixel(x as int, y as int), lit),
        ),
{
    let a = fb.get(x, y).a;
    let v: Single = if lit {
        Single::one()
    } else {
        Single::zero()
    };
    fb.set(x, y, Color { r: v, g: v, b: v, a });
}

/// Whether `after` is `before` in black and white: white exactly where `lit` says so.
pub open spec fn dithered(before: Raster, after: Raster, lit: spec_fn(int) -> bool) -> bool {
    &&& after.wf()
    &&& after.same_shape(before)
    &&& forall|i: int|
        0 <= i < before.color.len() ==> #[trigger] after.color[i] == mono(before.color[i], lit(i))
}

/// Thresholds every pixel's luma to pure black or white; `luma` has the luminance of each pixel,
/// row by row.
pub fn threshold_only(fb: &mut Framebuffer, luma: &[Single], threshold: Single)
    requires
        old(fb).wf(),
        luma@.len() == old(fb)@.color.len(),
    ensures
        dithered(old(fb)@, final(fb)@, |i: int| threshold.spec_le(luma@[i])),
{
    let ghost before = fb@;
    let ghost lit = |i: int| threshold.spec_le(luma@[i]);
    let n: usize = fb.len();
    let w: usize = fb.width();
    let mut i: usize = 0;
    while i < n
        invariant
            before == old(fb)@,
            before.wf(),
            fb.wf(),
            fb@.same_shape(before),
            n == before.color.len(),
            w == before.width,
            luma@.len() == n,
            i <= n,
            lit == (|i: int| threshold.spec_le(luma@[i])),
            forall|k: int|
                0 <= k < i ==> #[trigger] fb@.color[k] == mono(before.color[k], lit(k)),
            forall|k: int| i <= k < n ==> #[trigger] fb@.color[k] == before.color[k],
        decreases n - i,
    {
        proof {
            lemma_index_has_a_pixel(i as int, w as int, before.height as int);
        }
        set_mono(fb, i % w, i / w, threshold.le(luma[i]));
        i = i + 1;
    }
}

/// The quarter of a matrix that a cell lies in, numbered in the order in which quarters are lit.
pub open spec fn quadrant(i: int, j: int) -> int {
    if i == 0 && j == 0 {
        0
    } else if i == 0 {
        2
    } else if j == 0 {
        3
    } else {
        1
    }
}

/// The rank of the cell in row `i` and column `j` of the threshold matrix of that size: four times
/// its rank in the matrix of half the size, plus its quarter.
pub open spec fn bayer_rank(size: nat, i: int, j: int) -> int
    decreases size,
{
    if size <= 1 {
        0
    } else {
        let half = (size / 2) as int;
        4 * bayer_rank(size / 2, i % half, j % half) + quadrant(i / half, j / half)
    }
}

/// Whether `n` is one doubled some number of times, and not too large for a matrix.
pub open spec fn is_doubled(n: nat) -> bool
    decreases n,
{
    n == 1 || (n > 1 && n % 2 == 0 && is_doubled(n / 2))
}

/// The ranks in a threshold matrix of side `n` are the numbers below `n * n`, each exactly once.
pub proof fn law_bayer_ranks_are_distinct(n: nat, i: int, j: int, u: int, v: int)
    requires
        is_doubled(n),
        0 <= i < n,
        0 <= j < n,
        0 <= u < n,
        0 <= v < n,
    ensures
        0 <= bayer_rank(n, i, j) < n * n,
        bayer_rank(n, i, j) == bayer_rank(n, u, v) <==> (i == u && j == v),
    decreases n,
{
    if n > 1 {
        let half = n / 2;
        let h = half as int;
        assert(n == 2 * half);
        assert(0 <= i % h < h && 0 <= j % h < h && 0 <= u % h < h && 0 <= v % h < h);
        law_bayer_ranks_are_distinct(half, i % h, j % h, u % h, v % h);
        assert(i / h == if i < h { 0int } else { 1 }) by {
            lemma_halves(i, h);
        }
        lemma_halves(i, h);
        lemma_halves(j, h);
        lemma_halves(u, h);
        lemma_halves(v, h);
        assert(n * n == 4 * (half * half)) by (nonlinear_arith)
            requires
                n == 2 * half,
        ;
    }
}

proof fn lemma_halves(i: int, h: int)
    requires
        0 < h,
        0 <= i < 2 * h,
    ensures
        i / h == if i < h {
            0int
        } else {
            1
        },
        i % h == if i < h {
            i
        } else {
            i - h
        },
{
    if i < h {
        vstd::arithmetic::div_mod::lemma_fundamental_div_mod_converse(i, h, 0, i);
    } else {
        vstd::arithmetic::div_mod::lemma_fundamental_div_mod_converse(i, h, 1, i - h);
    }
}

/// Whether `m` is the threshold matrix of that size, row by row.
pub open spec fn is_bayer_matrix(m: Seq<u32>, size: nat) -> bool {
    &&& m.len() == size * size
    &&& forall|i: int, j: int|
        #![trigger bayer_rank(size, i, j)]
        0 <= i < size && 0 <= j < size ==> m[i * size + j] == bayer_rank(size, i, j)
}

/// A power of two is reached from one by doubling, through each smaller one.
proof fn lemma_doubling_reaches(size: nat, n: nat)
    requires
        is_doubled(size),
        is_doubled(n),
        size < n,
    ensures
        2 * size <= n,
        is_doubled(2 * size),
    decreases n,
{
    if size > 1 {
        lemma_doubling_reaches(size / 2, n / 2);
    } else {
        assert(n / 2 >= 1);
    }
}

/// Builds the `n × n` Bayer threshold matrix (values below `n * n`) by recursive doubling from the
/// 1×1 base. `n` is a power of two, which every [`BayerSize`] guarantees.
pub fn bayer_matrix(n: usize) -> (m: Vec<u32>)
    requires
        is_doubled(n as nat),
        n <= 0x8000,
        n * n <= usize::MAX,
    ensures
        is_bayer_matrix(m@, n as nat),
{
    let mut m: Vec<u32> = vec![0u32];
    let mut size: usize = 1;
    assert(1nat * 1nat == 1) by (nonlinear_arith);
    while size < n
        invariant
            is_doubled(n as nat),
            is_doubled(size as nat),
            n <= 0x8000,
            n * n <= usize::MAX,
            size <= n,
            is_bayer_matrix(m@, size as nat),
        decreases n - size,
    {
        proof {
            lemma_doubling_reaches(size as nat, n as nat);
        }
        let ns: usize = size * 2;
        assert(ns * ns <= n * n && ns * ns <= 0x4000_0000) by (nonlinear_arith)
            requires
                ns <= n,
                n <= 0x8000,
                0 <= ns,
        ;
        assert(0 <= ns * ns) by (nonlinear_arith);
        let mut next: Vec<u32> = vec![0u32; ns * ns];
        let mut i: usize = 0;
        while i < ns
            invariant
                is_doubled(size as nat),
                ns == 2 * size,
                0 < size,
                ns <= 0x8000,
                ns * ns <= usize::MAX,
                ns * ns <= 0x4000_0000,
                is_bayer_matrix(m@, size as nat),
                next@.len() == ns * ns,
                i <= ns,
                forall|a: int, b: int|
                    #![trigger bayer_rank(ns as nat, a, b)]
                    0 <= a < i && 0 <= b < ns ==> next@[a * ns + b] == bayer_rank(ns as nat, a, b),
            decreases ns - i,
        {
            let mut j: usize = 0;
            while j < ns
                invariant
                    is_doubled(size as nat),
                    ns == 2 * size,
                    0 < size,
                    ns <= 0x8000,
                    ns * ns <= usize::MAX,
                    ns * ns <= 0x4000_0000,
                    is_bayer_matrix(m@, size as nat),
                    next@.len() == ns * ns,
                    i < ns,
                    j <= ns,
                    forall|a: int, b: int|
                        #![trigger bayer_rank(ns as nat, a, b)]
                        0 <= a < i && 0 <= b < ns ==> next@[a * ns + b] == bayer_rank(
                            ns as nat,
                            a,
                            b,
                        ),
                    forall|b: int|
                        #![trigger bayer_rank(ns as nat, i as int, b)]
                        0 <= b < j ==> next@[i * ns + b] == bayer_rank(ns as nat, i as int, b),
                decreases ns - j,
            {
                let ghost before = next@;
                proof {
                    lemma_halves(i as int, size as int);
                    lemma_halves(j as int, size as int);
                    lemma_index_in_plane(
                        j as int % size as int,
                        i as int % size as int,
                        size as int,
                        size as int,
                    );
                    lemma_index_in_plane(j as int, i as int, ns as int, ns as int);
                    assert(size * size <= ns * ns) by (nonlinear_arith)
                        requires
                            ns == 2 * size,
                            0 < size,
                    ;
                    law_bayer_ranks_are_distinct(
                        size as nat,
                        i as int % size as int,
                        j as int % size as int,
                        0,
                        0,
                    );
                    assert(4 * (size * size) == ns * ns) by (nonlinear_arith)
                        requires
                            ns == 2 * size,
                    ;
                }
                let base: u32 = 4 * m[(i % size) * size + (j % size)];
                let quadrant: u32 = match (i / size, j / size) {
                    (0, 0) => 0,
                    (0, 1) => 2,
                    (1, 0) => 3,
                    _ => 1,
                };
                next.set(i * ns + j, base + quadrant);
                proof {
                    assert(ns as nat / 2 == size);
                    assert(bayer_rank(ns as nat, i as int, j as int) == base + quadrant);
                    assert forall|a: int, b: int|
                        #![trigger bayer_rank(ns as nat, a, b)]
                        0 <= a < i && 0 <= b < ns implies next@[a * ns + b] == bayer_rank(
                        ns as nat,
                        a,
                        b,
                    ) by {
                        lemma_index_in_plane(b, a, ns as int, ns as int);
                        lemma_index_is_injective(b, a, j as int, i as int, ns as int);
                    }
                    assert forall|b: int|
                        #![trigger bayer_rank(ns as nat, i as int, b)]
                        0 <= b < j + 1 implies next@[i * ns + b] == bayer_rank(
                        ns as nat,
                        i as int,
                        b,
                    ) by {
                        lemma_index_in_plane(b, i as int, ns as int, ns as int);
                        lemma_index_is_injective(b, i as int, j as int, i as int, ns as int);
                    }
                }
                j = j + 1;
            }
            i = i + 1;
        }
        m = next;
        size = ns;
    }
    m
}

/// The number of times that the side of a threshold matrix was doubled.
pub open spec fn doublings(size: BayerSize) -> nat {
    match size {
        BayerSize::Two => 1,
        BayerSize::Four => 2,
        BayerSize::Eight => 3,
        BayerSize::Sixteen => 4,
    }
}

/// Whether the pixel at `(x, y)` of that luminance is lit: the luminance is at least the middle of
/// its cell's step, `(rank + 1/2) / n²`, of the matrix tiled over the picture.
pub open spec fn bayer_lit(size: BayerSize, luma: Single, x: int, y: int) -> bool {
    let n = size.side() as int;
    at_least_fraction(
        luma,
        2 * bayer_rank(size.side(), y % n, x % n) + 1,
        (2 * doublings(size) + 1) as nat,
    )
}

/// Whether `v` is at least `numerator / 2^scale`.
pub open spec fn at_least_fraction(v: Single, numerator: int, scale: nat) -> bool {
    if v.is_finite() {
        v.units() * pow2(scale) >= numerator * pow2(149)
    } else {
        !v.is_nan() && !v.is_negative()
    }
}

/// Whether `v` is at least `numerator / 2^scale`.
fn reaches_fraction(v: Single, numerator: u32, scale: u32) -> (b: bool)
    requires
        0 < numerator < 0x100_0000,
        scale <= 100,
    ensures
        b == at_least_fraction(v, numerator as int, scale as nat),
{
    let t = Single::dyadic(numerator, scale);
    proof {
        vstd::arithmetic::power2::lemma_pow2_adds(scale as nat, (149 - scale) as nat);
        vstd::arithmetic::power2::lemma_pow2_pos(scale as nat);
        vstd::arithmetic::power2::lemma_pow2_pos((149 - scale) as nat);
        let s = pow2(scale as nat) as int;
        let r = pow2((149 - scale) as nat) as int;
        assert(numerator * pow2(149) == t.units() * s) by (nonlinear_arith)
            requires
                pow2(149) == s * r,
                t.units() == numerator * r,
        ;
        assert(t.units() > 0) by (nonlinear_arith)
            requires
                t.units() == numerator * r,
                numerator > 0,
                r > 0,
        ;
        if v.is_finite() {
            crate::single::law_order_is_the_order_of_values(t, v);
            if t.units() <= v.units() {
                assert(t.units() * s <= v.units() * s) by (nonlinear_arith)
                    requires
                        t.units() <= v.units(),
                        s > 0,
                ;
            } else {
                assert(t.units() * s > v.units() * s) by (nonlinear_arith)
                    requires
                        t.units() > v.units(),
                        s > 0,
                ;
            }
        }
    }
    t.le(v)
}

/// Ordered (Bayer) dithering with a matrix of the requested size; `luma` has the luminance of each
/// pixel, row by row.
pub fn bayer(fb: &mut Framebuffer, luma: &[Single], size: BayerSize)
    requires
        old(fb).wf(),
        luma@.len() == old(fb)@.color.len(),
    ensures
        dithered(
            old(fb)@,
            final(fb)@,
            |i: int|
                bayer_lit(
                    size,
                    luma@[i],
                    i % old(fb)@.width as int,
                    i / old(fb)@.width as int,
                ),
        ),
{
    let ghost before = fb@;
    let ghost lit = |i: int|
        bayer_lit(size, luma@[i], i % before.width as int, i / before.width as int);
    let n: usize = size.n();
    proof {
        reveal_with_fuel(is_doubled, 6);
        assert(n * n <= 256) by (nonlinear_arith)
            requires
                0 <= n <= 16,
        ;
    }
    let matrix = bayer_matrix(n);
    let scale: u32 = match size {
        BayerSize::Two => 3,
        BayerSize::Four => 5,
        BayerSize::Eight => 7,
        BayerSize::Sixteen => 9,
    };
    let len: usize = fb.len();
    let w: usize = fb.width();
    let mut i: usize = 0;
    while i < len
        invariant
            before == old(fb)@,
            before.wf(),
            fb.wf(),
            fb@.same_shape(before),
            len == before.color.len(),
            w == before.width,
            luma@.len() == len,
            n == size.side(),
            0 < n <= 16,
            n * n <= 256,
            is_doubled(n as nat),
            is_bayer_matrix(matrix@, n as nat),
            scale == 2 * doublings(size) + 1,
            i <= len,
            lit == (|i: int|
                bayer_lit(size, luma@[i], i % before.width as int, i / before.width as int)),
            forall|k: int|
                0 <= k < i ==> #[trigger] fb@.color[k] == mono(before.color[k], lit(k)),
            forall|k: int| i <= k < len ==> #[trigger] fb@.color[k] == before.color[k],
        decreases len - i,
    {
        proof {
            lemma_index_has_a_pixel(i as int, w as int, before.height as int);
        }
        let x: usize = i % w;
        let y: usize = i / w;
        proof {
            lemma_index_in_plane(x as int % n as int, y as int % n as int, n as int, n as int);
            law_bayer_ranks_are_distinct(n as nat, y as int % n as int, x as int % n as int, 0, 0);
        }
        let rank: u32 = matrix[(y % n) * n + (x % n)];
        assert(rank == bayer_rank(n as nat, y as int % n as int, x as int % n as int));
        let on: bool = reaches_fraction(luma[i], 2 * rank + 1, scale);
        set_mono(fb, x, y, on);
        i = i + 1;
    }
}

/// One tap of an error-diffusion kernel: an offset and its weight.
#[derive(Clone, Copy, Debug, PartialEq, Eq, Structural)]
pub struct Tap {
    /// The columns to the right.
    pub dx: i64,
    /// The rows down.
    pub dy: i64,
    /// The share of the error, over the kernel's divisor.
    pub weight: u32,
}

/// Which pixels an error-diffusion kernel hands a pixel's error on to.
#[derive(Clone, Copy, Debug, PartialEq, Eq, Structural)]
pub enum Kernel {
    /// Floyd–Steinberg (7/3/5/1 over 16).
    FloydSteinberg,
    /// Atkinson (1/8 to each of six neighbours; 6/8 of the error propagates).
    Atkinson,
}

impl Kernel {
    /// The taps of the kernel, in the order in which they are applied.
    pub open spec fn spec_taps(self) -> Seq<Tap> {
        match self {
            Kernel::FloydSteinberg => seq![
                Tap { dx: 1, dy: 0, weight: 7 },
                Tap { dx: (-1) as i64, dy: 1, weight: 3 },
                Tap { dx: 0, dy: 1, weight: 5 },
                Tap { dx: 1, dy: 1, weight: 1 },
            ],
            Kernel::Atkinson => seq![
                Tap { dx: 1, dy: 0, weight: 1 },
                Tap { dx: 2, dy: 0, weight: 1 },
                Tap { dx: (-1) as i64, dy: 1, weight: 1 },
                Tap { dx: 0, dy: 1, weight: 1 },
                Tap { dx: 1, dy: 1, weight: 1 },
                Tap { dx: 0, dy: 2, weight: 1 },
            ],
        }
    }

    /// What the weights are shares of.
    pub open spec fn spec_divisor(self) -> u32 {
        match self {
            Kernel::FloydSteinberg => 16,
            Kernel::Atkinson => 8,
        }
    }

    /// What the weights are shares of.
    pub fn divisor(self) -> (d: u32)
        ensures
            d == self.spec_divisor(),
    {
        match self {
            Kernel::FloydSteinberg => 16,
            Kernel::Atkinson => 8,
        }
    }

    /// The taps of the kernel, in the order in which they are applied.
    pub fn taps(self) -> (taps: Vec<Tap>)
        ensures
            taps@ == self.spec_taps(),
    {
        let taps: Vec<Tap> = match self {
            Kernel::FloydSteinberg => vec![
                Tap { dx: 1, dy: 0, weight: 7 },
                Tap { dx: -1, dy: 1, weight: 3 },
                Tap { dx: 0, dy: 1, weight: 5 },
                Tap { dx: 1, dy: 1, weight: 1 },
            ],
            Kernel::Atkinson => vec![
                Tap { dx: 1, dy: 0, weight: 1 },
                Tap { dx: 2, dy: 0, weight: 1 },
                Tap { dx: -1, dy: 1, weight: 1 },
                Tap { dx: 0, dy: 1, weight: 1 },
                Tap { dx: 1, dy: 1, weight: 1 },
                Tap { dx: 0, dy: 2, weight: 1 },
            ],
        };
        assert(taps@ =~= self.spec_taps());
        taps
    }
}

/// The sum of the weights of the first `n` taps.
pub open spec fn weight_sum(taps: Seq<Tap>, n: nat) -> nat
    decreases n,
{
    if n == 0 {
        0
    } else {
        weight_sum(taps, (n - 1) as nat) + taps[n - 1].weight as nat
    }
}

/// Every tap points to a pixel that comes later in reading order, so a pixel is settled when it is
/// reached; Floyd–Steinberg hands on the whole error and Atkinson six eighths of it.
pub proof fn law_error_is_handed_forward(kernel: Kernel, k: int)
    requires
        0 <= k < kernel.spec_taps().len(),
    ensures
        kernel.spec_taps()[k].dy > 0 || (kernel.spec_taps()[k].dy == 0 && kernel.spec_taps()[k].dx
            > 0),
        weight_sum(Kernel::FloydSteinberg.spec_taps(), 4) == 16,
        weight_sum(Kernel::Atkinson.spec_taps(), 6) == 6,
{
    reveal_with_fuel(weight_sum, 7);
}

/// Where the tap of the pixel `(x, y)` lies, where that is inside the picture.
pub open spec fn tap_target(tap: Tap, x: int, y: int, w: int, h: int) -> Option<int> {
    if 0 <= x + tap.dx < w && 0 <= y + tap.dy < h {
        Some((y + tap.dy) * w + x + tap.dx)
    } else {
        None
    }
}

/// The place of the pixel that a tap of the pixel `(x, y)` hands error on to, or `None` where that
/// is outside the picture.
pub fn diffusion_target(tap: Tap, x: usize, y: usize, w: usize, h: usize) -> (r: Option<usize>)
    requires
        x < w,
        y < h,
        w * h <= usize::MAX,
        -2 <= tap.dx <= 2,
        0 <= tap.dy <= 2,
    ensures
        match r {
            Some(i) => tap_target(tap, x as int, y as int, w as int, h as int) == Some(i as int)
                && i < w * h,
            None => tap_target(tap, x as int, y as int, w as int, h as int) is None,
        },
{
    let nx: i128 = x as i128 + tap.dx as i128;
    let ny: i128 = y as i128 + tap.dy as i128;
    if nx >= 0 && nx < w as i128 && ny >= 0 && ny < h as i128 {
        let cx: usize = nx as usize;
        let cy: usize = ny as usize;
        proof {
            lemma_index_in_plane(cx as int, cy as int, w as int, h as int);
        }
        Some(cy * w + cx)
    } else {
        None
    }
}

/// The place nearest to `at` on an axis of `size` places.
pub open spec fn within(at: int, size: int) -> int {
    if at < 0 {
        0
    } else if at >= size {
        size - 1
    } else {
        at
    }
}

/// The neighbour of `at` one step before it, at it, or one step behind it, on an axis of `size`
/// places whose ends repeat.
pub fn clamped_neighbour(at: usize, step: i64, size: usize) -> (n: usize)
    requires
        at < size,
        -1 <= step <= 1,
    ensures
        n == within(at + step, size as int),
{
    if step < 0 {
        if at == 0 {
            0
        } else {
            at - 1
        }
    } else if step > 0 && at + 1 < size {
        at + 1
    } else {
        at
    }
}

/// A sum on channel values.
#[derive(Clone, Copy, Debug, PartialEq, Eq, Structural)]
pub enum PixelSum {
    /// The luminance of a color.
    Luma(Color),
    /// A channel value once gamma, contrast and brightness were applied to it.
    Tone(Single, Tone),
    /// The first value plus the second.
    Plus(Single, Single),
    /// A channel value sharpened by an amount, given the sum of the values around and at it.
    Sharpen {
        /// The channel value.
        value: Single,
        /// The sum of the nine values around and at it.
        sum: Single,
        /// The amount.
        amount: Single,
    },
    /// A luminance once it has taken its share of another pixel's error.
    Diffuse {
        /// The luminance.
        into: Single,
        /// The luminance of the other pixel.
        from: Single,
        /// Whether the other pixel is lit.
        lit: bool,
        /// The share of the error, over the divisor.
        weight: u32,
        /// What the weight is a share of.
        divisor: u32,
    },
}

/// Whether `math` can be asked for every sum.
pub open spec fn answers<M: Fn(PixelSum) -> Single>(math: M) -> bool {
    forall|s: PixelSum| #[trigger] call_requires(math, (s,))
}

/// Whether `math` works sums out as `f` says.
pub open spec fn works_out<M: Fn(PixelSum) -> Single>(
    math: M,
    f: spec_fn(PixelSum) -> Single,
) -> bool {
    forall|s: PixelSum, v: Single| #[trigger] call_ensures(math, (s,), v) ==> v == f(s)
}

/// The luminance of each color.
pub open spec fn lumas(colors: Seq<Color>, f: spec_fn(PixelSum) -> Single) -> Seq<Single> {
    Seq::new(colors.len(), |i: int| f(PixelSum::Luma(colors[i])))
}

/// The color once the levels were applied to it.
pub open spec fn toned(c: Color, tone: Tone, f: spec_fn(PixelSum) -> Single) -> Color {
    Color {
        r: f(PixelSum::Tone(c.r, tone)),
        g: f(PixelSum::Tone(c.g, tone)),
        b: f(PixelSum::Tone(c.b, tone)),
        a: c.a,
    }
}

/// The neighbour number `k` of nine of the pixel at index `i`, row by row, where the borders repeat.
pub open spec fn neighbour(colors: Seq<Color>, w: int, h: int, i: int, k: int) -> Color {
    colors[within(i / w + (k / 3 - 1), h) * w + within(i % w + (k % 3 - 1), w)]
}

/// A channel of a color.
#[derive(Clone, Copy, Debug, PartialEq, Eq, Structural)]
pub enum Channel {
    /// The red channel.
    Red,
    /// The green channel.
    Green,
    /// The blue channel.
    Blue,
}

impl Channel {
    /// The channel's value in a color.
    pub open spec fn of(self, c: Color) -> Single {
        match self {
            Channel::Red => c.r,
            Channel::Green => c.g,
            Channel::Blue => c.b,
        }
    }

    fn pick(self, c: Color) -> (v: Single)
        ensures
            v == self.of(c),
    {
        match self {
            Channel::Red => c.r,
            Channel::Green => c.g,
            Channel::Blue => c.b,
        }
    }
}

/// The sum of the first `n` of the nine channel values around the pixel at index `i`.
pub open spec fn box_sum(
    colors: Seq<Color>,
    w: int,
    h: int,
    i: int,
    channel: Channel,
    f: spec_fn(PixelSum) -> Single,
    n: nat,
) -> Single
    decreases n,
{
    if n == 0 {
        Single::zero()
    } else {
        f(
            PixelSum::Plus(
                box_sum(colors, w, h, i, channel, f, (n - 1) as nat),
                channel.of(neighbour(colors, w, h, i, n - 1)),
            ),
        )
    }
}

/// The channel value of the pixel at index `i` once it was sharpened.
pub open spec fn sharpened_channel(
    colors: Seq<Color>,
    w: int,
    h: int,
    i: int,
    channel: Channel,
    amount: Single,
    f: spec_fn(PixelSum) -> Single,
) -> Single {
    f(
        PixelSum::Sharpen {
            value: channel.of(colors[i]),
            sum: box_sum(colors, w, h, i, channel, f, 9),
            amount,
        },
    )
}

/// The pixel at index `i` once it was sharpened.
pub open spec fn sharpened(
    colors: Seq<Color>,
    w: int,
    h: int,
    i: int,
    amount: Single,
    f: spec_fn(PixelSum) -> Single,
) -> Color {
    Color {
        r: sharpened_channel(colors, w, h, i, Channel::Red, amount, f),
        g: sharpened_channel(colors, w, h, i, Channel::Green, amount, f),
        b: sharpened_channel(colors, w, h, i, Channel::Blue, amount, f),
        a: colors[i].a,
    }
}

/// The luminances once the pixel at index `i` has handed its error on by the first `n` taps.
pub open spec fn spread(
    luma: Seq<Single>,
    kernel: Kernel,
    w: int,
    h: int,
    i: int,
    lit: bool,
    f: spec_fn(PixelSum) -> Single,
    n: nat,
) -> Seq<Single>
    decreases n,
{
    if n == 0 {
        luma
    } else {
        let before = spread(luma, kernel, w, h, i, lit, f, (n - 1) as nat);
        let tap = kernel.spec_taps()[n - 1];
        match tap_target(tap, i % w, i / w, w, h) {
            Some(to) => before.update(
                to,
                f(
                    PixelSum::Diffuse {
                        into: before[to],
                        from: luma[i],
                        lit,
                        weight: tap.weight,
                        divisor: kernel.spec_divisor(),
                    },
                ),
            ),
            None => before,
        }
    }
}

/// The luminances once the first `n` pixels have handed their error on, in reading order.
pub open spec fn diffused(
    luma: Seq<Single>,
    kernel: Kernel,
    w: int,
    h: int,
    threshold: Single,
    f: spec_fn(PixelSum) -> Single,
    n: nat,
) -> Seq<Single>
    decreases n,
{
    if n == 0 {
        luma
    } else {
        let before = diffused(luma, kernel, w, h, threshold, f, (n - 1) as nat);
        spread(
            before,
            kernel,
            w,
            h,
            n - 1,
            threshold.spec_le(before[n - 1]),
            f,
            kernel.spec_taps().len(),
        )
    }
}

/// Whether the pixel at index `i` is lit once the pixels before it have handed their error on.
pub open spec fn diffusion_lights(
    luma: Seq<Single>,
    kernel: Kernel,
    w: int,
    h: int,
    threshold: Single,
    f: spec_fn(PixelSum) -> Single,
    i: int,
) -> bool {
    threshold.spec_le(diffused(luma, kernel, w, h, threshold, f, i as nat)[i])
}

/// Whether every pixel of `after` is black or white, with the alpha of that of `before`.
pub open spec fn two_toned(before: Raster, after: Raster) -> bool {
    forall|i: int|
        0 <= i < before.color.len() ==> #[trigger] after.color[i] == mono(before.color[i], true)
            || after.color[i] == mono(before.color[i], false)
}

/// The luminance of each pixel.
fn luma_plane<M: Fn(PixelSum) -> Single>(fb: &Framebuffer, math: &M) -> (luma: Vec<Single>)
    requires
        fb.wf(),
        answers(*math),
    ensures
        luma@.len() == fb@.color.len(),
        forall|f: spec_fn(PixelSum) -> Single| #[trigger]
            works_out(*math, f) ==> luma@ == lumas(fb@.color, f),
{
    let colors = fb.color();
    let mut luma: Vec<Single> = Vec::with_capacity(colors.len());
    let mut i: usize = 0;
    while i < colors.len()
        invariant
            answers(*math),
            i <= colors@.len(),
            luma@.len() == i,
            forall|f: spec_fn(PixelSum) -> Single, k: int|
                #![trigger works_out(*math, f), luma@[k]]
                works_out(*math, f) && 0 <= k < i ==> luma@[k] == f(PixelSum::Luma(colors@[k])),
        decreases colors@.len() - i,
    {
        luma.push(math(PixelSum::Luma(colors[i])));
        i = i + 1;
    }
    assert forall|f: spec_fn(PixelSum) -> Single| #[trigger] works_out(*math, f) implies luma@
        == lumas(fb@.color, f) by {
        assert forall|k: int| 0 <= k < luma@.len() implies luma@[k] == lumas(fb@.color, f)[k] by {
            assert(luma@[k] == f(PixelSum::Luma(colors@[k])));
        }
        assert(luma@ =~= lumas(fb@.color, f));
    }
    luma
}

/// Applies gamma, contrast, then brightness to every pixel.
fn adjust_levels<M: Fn(PixelSum) -> Single>(fb: &mut Framebuffer, tone: Tone, math: &M)
    requires
        old(fb).wf(),
        answers(*math),
    ensures
        final(fb).wf(),
        final(fb)@.same_shape(old(fb)@),
        forall|i: int|
            0 <= i < old(fb)@.color.len() ==> (#[trigger] final(fb)@.color[i]).a == old(
                fb,
            )@.color[i].a,
        forall|f: spec_fn(PixelSum) -> Single| #[trigger]
            works_out(*math, f) ==> final(fb)@.color == Seq::new(
                old(fb)@.color.len(),
                |i: int| toned(old(fb)@.color[i], tone, f),
            ),
{
    let ghost before = fb@;
    let n: usize = fb.len();
    let w: usize = fb.width();
    let mut i: usize = 0;
    while i < n
        invariant
            before.wf(),
            fb.wf(),
            fb@.same_shape(before),
            answers(*math),
            n == before.color.len(),
            w == before.width,
            i <= n,
            forall|k: int|
                0 <= k < n ==> (#[trigger] fb@.color[k]).a == before.color[k].a,
            forall|k: int| i <= k < n ==> #[trigger] fb@.color[k] == before.color[k],
            forall|f: spec_fn(PixelSum) -> Single, k: int|
                #![trigger works_out(*math, f), fb@.color[k]]
                works_out(*math, f) && 0 <= k < i ==> fb@.color[k] == toned(
                    before.color[k],
                    tone,
                    f,
                ),
        decreases n - i,
    {
        proof {
            lemma_index_has_a_pixel(i as int, w as int, before.height as int);
        }
        let c = fb.get(i % w, i / w);
        let adjusted = Color {
            r: math(PixelSum::Tone(c.r, tone)),
            g: math(PixelSum::Tone(c.g, tone)),
            b: math(PixelSum::Tone(c.b, tone)),
            a: c.a,
        };
        fb.set(i % w, i / w, adjusted);
        i = i + 1;
    }
    assert forall|f: spec_fn(PixelSum) -> Single| #[trigger] works_out(*math, f) implies fb@.color
        == Seq::new(before.color.len(), |i: int| toned(before.color[i], tone, f)) by {
        assert(fb@.color =~= Seq::new(
            before.color.len(),
            |i: int| toned(before.color[i], tone, f),
        ));
    }
}

/// Sharpens one channel of the pixel at index `i`.
fn sharpen_channel<M: Fn(PixelSum) -> Single>(
    colors: &[Color],
    w: usize,
    h: usize,
    i: usize,
    channel: Channel,
    amount: Single,
    math: &M,
) -> (v: Single)
    requires
        colors@.len() == w * h,
        i < colors@.len(),
        answers(*math),
    ensures
        forall|f: spec_fn(PixelSum) -> Single| #[trigger]
            works_out(*math, f) ==> v == sharpened_channel(
                colors@,
                w as int,
                h as int,
                i as int,
                channel,
                amount,
                f,
            ),
{
    proof {
        lemma_index_has_a_pixel(i as int, w as int, h as int);
    }
    let x: usize = i % w;
    let y: usize = i / w;
    let size: usize = colors.len();
    let mut sum: Single = Single::zero();
    let mut k: i64 = 0;
    while k < 9
        invariant
            0 <= k <= 9,
            colors@.len() == w * h,
            colors@.len() == size,
            x < w,
            y < h,
            x == i as int % w as int,
            y == i as int / w as int,
            answers(*math),
            forall|f: spec_fn(PixelSum) -> Single| #[trigger]
                works_out(*math, f) ==> sum == box_sum(
                    colors@,
                    w as int,
                    h as int,
                    i as int,
                    channel,
                    f,
                    k as nat,
                ),
        decreases 9 - k,
    {
        let nx: usize = clamped_neighbour(x, k % 3 - 1, w);
        let ny: usize = clamped_neighbour(y, k / 3 - 1, h);
        proof {
            lemma_index_in_plane(nx as int, ny as int, w as int, h as int);
        }
        let c = colors[ny * w + nx];
        assert(c == neighbour(colors@, w as int, h as int, i as int, k as int));
        sum = math(PixelSum::Plus(sum, channel.pick(c)));
        k = k + 1;
    }
    math(PixelSum::Sharpen { value: channel.pick(colors[i]), sum, amount })
}

/// Sharpens every pixel by its difference to the nine pixels around and at it, where the borders
/// repeat.
fn sharpen<M: Fn(PixelSum) -> Single>(fb: &mut Framebuffer, amount: Single, math: &M)
    requires
        old(fb).wf(),
        answers(*math),
    ensures
        final(fb).wf(),
        final(fb)@.same_shape(old(fb)@),
        forall|i: int|
            0 <= i < old(fb)@.color.len() ==> (#[trigger] final(fb)@.color[i]).a == old(
                fb,
            )@.color[i].a,
        forall|f: spec_fn(PixelSum) -> Single| #[trigger]
            works_out(*math, f) ==> final(fb)@.color == Seq::new(
                old(fb)@.color.len(),
                |i: int|
                    sharpened(
                        old(fb)@.color,
                        old(fb)@.width as int,
                        old(fb)@.height as int,
                        i,
                        amount,
                        f,
                    ),
            ),
{
    let ghost before = fb@;
    let n: usize = fb.len();
    let w: usize = fb.width();
    let h: usize = fb.height();
    // Neighbours are read as they were before.
    let source = copied(fb.color());
    let mut i: usize = 0;
    while i < n
        invariant
            before.wf(),
            fb.wf(),
            fb@.same_shape(before),
            answers(*math),
            n == before.color.len(),
            w == before.width,
            h == before.height,
            source@ == before.color,
            i <= n,
            forall|k: int|
                0 <= k < n ==> (#[trigger] fb@.color[k]).a == before.color[k].a,
            forall|f: spec_fn(PixelSum) -> Single, k: int|
                #![trigger works_out(*math, f), fb@.color[k]]
                works_out(*math, f) && 0 <= k < i ==> fb@.color[k] == sharpened(
                    before.color,
                    w as int,
                    h as int,
                    k,
                    amount,
                    f,
                ),
        decreases n - i,
    {
        proof {
            lemma_index_has_a_pixel(i as int, w as int, h as int);
        }
        let colors = source.as_slice();
        let c = Color {
            r: sharpen_channel(colors, w, h, i, Channel::Red, amount, math),
            g: sharpen_channel(colors, w, h, i, Channel::Green, amount, math),
            b: sharpen_channel(colors, w, h, i, Channel::Blue, amount, math),
            a: colors[i].a,
        };
        fb.set(i % w, i / w, c);
        i = i + 1;
    }
    assert forall|f: spec_fn(PixelSum) -> Single| #[trigger] works_out(*math, f) implies fb@.color
        == Seq::new(
        before.color.len(),
        |i: int| sharpened(before.color, before.width as int, before.height as int, i, amount, f),
    ) by {
        assert(fb@.color =~= Seq::new(
            before.color.len(),
            |i: int|
                sharpened(before.color, before.width as int, before.height as int, i, amount, f),
        ));
    }
}

/// Hands the error of the pixel at index `i` on to the pixels that come later.
fn hand_on<M: Fn(PixelSum) -> Single>(
    luma: &mut Vec<Single>,
    kernel: Kernel,
    w: usize,
    h: usize,
    i: usize,
    lit: bool,
    math: &M,
)
    requires
        old(luma)@.len() == w * h,
        i < old(luma)@.len(),
        answers(*math),
    ensures
        final(luma)@.len() == old(luma)@.len(),
        forall|f: spec_fn(PixelSum) -> Single| #[trigger]
            works_out(*math, f) ==> final(luma)@ == spread(
                old(luma)@,
                kernel,
                w as int,
                h as int,
                i as int,
                lit,
                f,
                kernel.spec_taps().len(),
            ),
{
    proof {
        lemma_index_has_a_pixel(i as int, w as int, h as int);
    }
    let ghost before = luma@;
    let size: usize = luma.len();
    let from: Single = luma[i];
    let taps = kernel.taps();
    let divisor: u32 = kernel.divisor();
    let mut k: usize = 0;
    while k < taps.len()
        invariant
            before.len() == w * h,
            before.len() == size,
            i < before.len(),
            (i as int % w as int) < w,
            (i as int / w as int) < h,
            0 < w,
            from == before[i as int],
            taps@ == kernel.spec_taps(),
            divisor == kernel.spec_divisor(),
            answers(*math),
            k <= taps@.len(),
            luma@.len() == before.len(),
            forall|f: spec_fn(PixelSum) -> Single| #[trigger]
                works_out(*math, f) ==> luma@ == spread(
                    before,
                    kernel,
                    w as int,
                    h as int,
                    i as int,
                    lit,
                    f,
                    k as nat,
                ),
        decreases taps@.len() - k,
    {
        let tap = taps[k];
        if let Some(to) = diffusion_target(tap, i % w, i / w, w, h) {
            let into = luma[to];
            let v = math(PixelSum::Diffuse { into, from, lit, weight: tap.weight, divisor });
            luma.set(to, v);
        }
        k = k + 1;
    }
}

/// Error-diffusion dithering over a scratch plane of luminances.
fn error_diffuse<M: Fn(PixelSum) -> Single>(
    fb: &mut Framebuffer,
    threshold: Single,
    kernel: Kernel,
    math: &M,
)
    requires
        old(fb).wf(),
        answers(*math),
    ensures
        final(fb).wf(),
        final(fb)@.same_shape(old(fb)@),
        two_toned(old(fb)@, final(fb)@),
        forall|f: spec_fn(PixelSum) -> Single| #[trigger]
            works_out(*math, f) ==> dithered(
                old(fb)@,
                final(fb)@,
                |i: int|
                    diffusion_lights(
                        lumas(old(fb)@.color, f),
                        kernel,
                        old(fb)@.width as int,
                        old(fb)@.height as int,
                        threshold,
                        f,
                        i,
                    ),
            ),
{
    let ghost before = fb@;
    let n: usize = fb.len();
    let w: usize = fb.width();
    let h: usize = fb.height();
    let mut luma = luma_plane(fb, math);
    let mut i: usize = 0;
    while i < n
        invariant
            before.wf(),
            fb.wf(),
            fb@.same_shape(before),
            answers(*math),
            n == before.color.len(),
            w == before.width,
            h == before.height,
            luma@.len() == n,
            i <= n,
            forall|k: int| i <= k < n ==> #[trigger] fb@.color[k] == before.color[k],
            forall|k: int|
                0 <= k < i ==> #[trigger] fb@.color[k] == mono(before.color[k], true)
                    || fb@.color[k] == mono(before.color[k], false),
            forall|f: spec_fn(PixelSum) -> Single| #[trigger]
                works_out(*math, f) ==> luma@ == diffused(
                    lumas(before.color, f),
                    kernel,
                    w as int,
                    h as int,
                    threshold,
                    f,
                    i as nat,
                ),
            forall|f: spec_fn(PixelSum) -> Single, k: int|
                #![trigger works_out(*math, f), fb@.color[k]]
                works_out(*math, f) && 0 <= k < i ==> fb@.color[k] == mono(
                    before.color[k],
                    diffusion_lights(
                        lumas(before.color, f),
                        kernel,
                        w as int,
                        h as int,
                        threshold,
                        f,
                        k,
                    ),
                ),
        decreases n - i,
    {
        proof {
            lemma_index_has_a_pixel(i as int, w as int, h as int);
        }
        let lit: bool = threshold.le(luma[i]);
        hand_on(&mut luma, kernel, w, h, i, lit, math);
        set_mono(fb, i % w, i / w, lit);
        i = i + 1;
    }
}

impl Preprocess {
    /// The colors of a raster once every stage that runs was applied to them, in their order.
    pub open spec fn applied(self, before: Raster, f: spec_fn(PixelSum) -> Single) -> Seq<Color> {
        let n = before.color.len();
        let w = before.width as int;
        let h = before.height as int;
        let levelled = if self.tone.levels_are_neutral() {
            before.color
        } else {
            Seq::new(n, |i: int| toned(before.color[i], self.tone, f))
        };
        let sharp = match self.tone.sharpen {
            Some(amount) => Seq::new(n, |i: int| sharpened(levelled, w, h, i, amount, f)),
            None => levelled,
        };
        let luma = lumas(sharp, f);
        match self.dither {
            Dither::Off => sharp,
            Dither::ThresholdOnly => Seq::new(
                n,
                |i: int| mono(sharp[i], self.threshold.spec_le(luma[i])),
            ),
            Dither::FloydSteinberg => Seq::new(
                n,
                |i: int|
                    mono(
                        sharp[i],
                        diffusion_lights(luma, Kernel::FloydSteinberg, w, h, self.threshold, f, i),
                    ),
            ),
            Dither::Atkinson => Seq::new(
                n,
                |i: int|
                    mono(
                        sharp[i],
                        diffusion_lights(luma, Kernel::Atkinson, w, h, self.threshold, f, i),
                    ),
            ),
            Dither::Bayer(size) => Seq::new(
                n,
                |i: int| mono(sharp[i], bayer_lit(size, luma[i], i % w, i / w)),
            ),
        }
    }

    /// Whether `after` is `before` once the stages were applied, with sums worked out by `math`:
    /// the size, the depth and every alpha stay; dithering leaves black and white; and where nothing
    /// is adjusted nothing changes.
    pub open spec fn adjusts<M: Fn(PixelSum) -> Single>(
        self,
        before: Raster,
        after: Raster,
        math: M,
    ) -> bool {
        &&& after.wf()
        &&& after.same_shape(before)
        &&& forall|i: int|
            0 <= i < before.color.len() ==> (#[trigger] after.color[i]).a == before.color[i].a
        &&& self.dither != Dither::Off ==> two_toned(before, after)
        &&& self.changes_nothing() ==> after == before
        &&& forall|f: spec_fn(PixelSum) -> Single| #[trigger]
            works_out(math, f) ==> after.color == self.applied(before, f)
    }

    /// Applies tone, then sharpen, then dithering to `fb` in place. Sums on channels are worked out
    /// by `math`.
    pub fn apply<M: Fn(PixelSum) -> Single>(&self, fb: &mut Framebuffer, math: &M)
        requires
            old(fb).wf(),
            answers(*math),
        ensures
            self.adjusts(old(fb)@, final(fb)@, *math),
    {
        let stages = self.stages(fb.is_empty());
        let ghost before = fb@;
        if stages.levels {
            adjust_levels(fb, self.tone, math);
        }
        let ghost levelled = fb@;
        if let Some(amount) = stages.sharpen {
            sharpen(fb, amount, math);
        }
        let ghost sharp = fb@;
        match stages.dither {
            Dither::Off => {},
            Dither::ThresholdOnly => {
                let luma = luma_plane(fb, math);
                threshold_only(fb, luma.as_slice(), self.threshold);
            },
            Dither::FloydSteinberg => {
                error_diffuse(fb, self.threshold, Kernel::FloydSteinberg, math);
            },
            Dither::Atkinson => {
                error_diffuse(fb, self.threshold, Kernel::Atkinson, math);
            },
            Dither::Bayer(size) => {
                let luma = luma_plane(fb, math);
                bayer(fb, luma.as_slice(), size);
            },
        }
        proof {
            assert forall|f: spec_fn(PixelSum) -> Single| #[trigger] works_out(*math, f) implies
                fb@.color == self.applied(before, f) by {
                assert(fb@.color =~= self.applied(before, f));
            }
        }
    }
}

/// The levels keep the channels apart: each channel afterwards follows from that channel before alone, by
/// the same rule for all three, and alpha stays. Where that rule leaves every value as it is, so do the
/// levels leave the picture.
pub proof fn law_levels_keep_channels_apart(
    p: Preprocess,
    one: Raster,
    two: Raster,
    f: spec_fn(PixelSum) -> Single,
    i: int,
)
    requires
        p.dither == Dither::Off,
        p.tone.sharpen is None,
        one.color.len() == two.color.len(),
        0 <= i < one.color.len(),
    ensures
        p.applied(one, f).len() == one.color.len(),
        one.color[i].r == two.color[i].r ==> p.applied(one, f)[i].r == p.applied(two, f)[i].r,
        one.color[i].g == two.color[i].g ==> p.applied(one, f)[i].g == p.applied(two, f)[i].g,
        one.color[i].b == two.color[i].b ==> p.applied(one, f)[i].b == p.applied(two, f)[i].b,
        one.color[i].r == two.color[i].g ==> p.applied(one, f)[i].r == p.applied(two, f)[i].g,
        one.color[i].g == two.color[i].b ==> p.applied(one, f)[i].g == p.applied(two, f)[i].b,
        p.applied(one, f)[i].a == one.color[i].a,
        (forall|v: Single| #[trigger] f(PixelSum::Tone(v, p.tone)) == v) ==> p.applied(one, f)
            == one.color,
        !p.tone.levels_are_neutral() ==> p.applied(one, f)[i].r == f(
            PixelSum::Tone(one.color[i].r, p.tone),
        ),
        p.tone.levels_are_neutral() ==> p.applied(one, f) == one.color,
{
    if forall|v: Single| #[trigger] f(PixelSum::Tone(v, p.tone)) == v {
        assert(p.applied(one, f) =~= one.color);
    }
}

/// Two pictures of the same size that agree in a channel agree in that channel once they were sharpened.
pub proof fn law_sharpening_keeps_channels_apart(
    p: Preprocess,
    one: Raster,
    two: Raster,
    f: spec_fn(PixelSum) -> Single,
    channel: Channel,
    i: int,
)
    requires
        p.dither == Dither::Off,
        one.wf(),
        two.wf(),
        one.width == two.width,
        one.height == two.height,
        forall|k: int|
            0 <= k < one.color.len() ==> match channel {
                Channel::Red => (#[trigger] one.color[k]).r == two.color[k].r,
                Channel::Green => one.color[k].g == two.color[k].g,
                Channel::Blue => one.color[k].b == two.color[k].b,
            },
        0 <= i < one.color.len(),
    ensures
        match channel {
            Channel::Red => p.applied(one, f)[i].r == p.applied(two, f)[i].r,
            Channel::Green => p.applied(one, f)[i].g == p.applied(two, f)[i].g,
            Channel::Blue => p.applied(one, f)[i].b == p.applied(two, f)[i].b,
        },
        p.applied(one, f)[i].a == one.color[i].a,
{
    let (w, h) = (one.width as int, one.height as int);
    let n = one.color.len();
    let a = if p.tone.levels_are_neutral() {
        one.color
    } else {
        Seq::new(n, |k: int| toned(one.color[k], p.tone, f))
    };
    let b = if p.tone.levels_are_neutral() {
        two.color
    } else {
        Seq::new(n, |k: int| toned(two.color[k], p.tone, f))
    };
    assert forall|k: int| 0 <= k < n implies channel.of(#[trigger] a[k]) == channel.of(b[k]) by {
        let c = one.color[k];
    }
    lemma_box_sums_agree(a, b, w, h, i, channel, f, 9);
}

proof fn lemma_box_sums_agree(
    a: Seq<Color>,
    b: Seq<Color>,
    w: int,
    h: int,
    i: int,
    channel: Channel,
    f: spec_fn(PixelSum) -> Single,
    n: nat,
)
    requires
        0 <= i < w * h,
        0 <= w,
        0 <= h,
        a.len() == w * h,
        b.len() == w * h,
        n <= 9,
        forall|k: int| 0 <= k < a.len() ==> channel.of(#[trigger] a[k]) == channel.of(b[k]),
    ensures
        box_sum(a, w, h, i, channel, f, n) == box_sum(b, w, h, i, channel, f, n),
    decreases n,
{
    if n > 0 {
        lemma_box_sums_agree(a, b, w, h, i, channel, f, (n - 1) as nat);
        lemma_neighbour_is_there(w, h, i, n - 1);
        let c = neighbour(a, w, h, i, n - 1);
    }
}

proof fn lemma_neighbour_is_there(w: int, h: int, i: int, k: int)
    requires
        0 <= i < w * h,
        0 <= w,
        0 <= h,
        0 <= k < 9,
    ensures
        0 <= within(i / w + (k / 3 - 1), h) * w + within(i % w + (k % 3 - 1), w) < w * h,
        0 <= within(i / w + (k / 3 - 1), h) < h,
        0 <= within(i % w + (k % 3 - 1), w) < w,
{
    lemma_index_has_a_pixel(i, w, h);
    lemma_index_in_plane(within(i % w + (k % 3 - 1), w), within(i / w + (k / 3 - 1), h), w, h);
}

/// A pixel away from the border is sharpened against the nine pixels around and at it: those of the row
/// above, of its own row, and of the row below, from the left to the right, summed up one by one.
pub proof fn law_sharpening_looks_at_the_pixels_around(
    p: Preprocess,
    before: Raster,
    f: spec_fn(PixelSum) -> Single,
    amount: Single,
    x: int,
    y: int,
)
    requires
        before.wf(),
        p.dither == Dither::Off,
        p.tone.levels_are_neutral(),
        p.tone.sharpen == Some(amount),
        0 < x,
        x + 1 < before.width,
        0 < y,
        y + 1 < before.height,
    ensures
        ({
            let w = before.width as int;
            let c = before.color;
            let out = p.applied(before, f)[y * w + x];
            let plus = |a: Single, b: Single| f(PixelSum::Plus(a, b));
            let nine = |v: spec_fn(Color) -> Single|
                {
                    let above = plus(
                        plus(
                            plus(Single::zero(), v(c[(y - 1) * w + x - 1])),
                            v(c[(y - 1) * w + x]),
                        ),
                        v(c[(y - 1) * w + x + 1]),
                    );
                    let own = plus(
                        plus(plus(above, v(c[y * w + x - 1])), v(c[y * w + x])),
                        v(c[y * w + x + 1]),
                    );
                    plus(
                        plus(plus(own, v(c[(y + 1) * w + x - 1])), v(c[(y + 1) * w + x])),
                        v(c[(y + 1) * w + x + 1]),
                    )
                };
            &&& out.r == f(
                PixelSum::Sharpen { value: c[y * w + x].r, sum: nine(|k: Color| k.r), amount },
            )
            &&& out.g == f(
                PixelSum::Sharpen { value: c[y * w + x].g, sum: nine(|k: Color| k.g), amount },
            )
            &&& out.b == f(
                PixelSum::Sharpen { value: c[y * w + x].b, sum: nine(|k: Color| k.b), amount },
            )
            &&& out.a == c[y * w + x].a
        }),
{
    let w = before.width as int;
    let h = before.height as int;
    let i = y * w + x;
    lemma_index_in_plane(x, y, w, h);
    vstd::arithmetic::div_mod::lemma_fundamental_div_mod_converse(i, w, y, x);
    reveal_with_fuel(box_sum, 10);
    assert(i / w == y && i % w == x);
}

/// At the border the pixels beyond it are taken to be like those on it.
pub proof fn law_sharpening_repeats_the_border(w: int, h: int, i: int, k: int, colors: Seq<Color>)
    requires
        0 <= i < w * h,
        0 < w,
        0 < h,
        0 <= k < 9,
        colors.len() == w * h,
    ensures
        ({
            let (x, y) = (i % w, i / w);
            let (u, v) = (x + k % 3 - 1, y + k / 3 - 1);
            exists|cx: int, cy: int|
                #![trigger colors[cy * w + cx]]
                {
                    &&& 0 <= cx < w
                    &&& 0 <= cy < h
                    &&& 0 <= u < w ==> cx == u
                    &&& u < 0 ==> cx == 0
                    &&& u >= w ==> cx == w - 1
                    &&& 0 <= v < h ==> cy == v
                    &&& v < 0 ==> cy == 0
                    &&& v >= h ==> cy == h - 1
                    &&& neighbour(colors, w, h, i, k) == colors[cy * w + cx]
                }
        }),
{
    lemma_neighbour_is_there(w, h, i, k);
    let cx = within(i % w + (k % 3 - 1), w);
    let cy = within(i / w + (k / 3 - 1), h);
    let c = colors[cy * w + cx];
}

/// Every dithering leaves each pixel white or black, with the alpha that it had, whatever ran before it.
pub proof fn law_dithering_leaves_two_colors(
    p: Preprocess,
    before: Raster,
    f: spec_fn(PixelSum) -> Single,
    i: int,
)
    requires
        p.dither != Dither::Off,
        0 <= i < before.color.len(),
    ensures
        p.applied(before, f).len() == before.color.len(),
        p.applied(before, f)[i].a == before.color[i].a,
        p.applied(before, f)[i].r == p.applied(before, f)[i].g,
        p.applied(before, f)[i].g == p.applied(before, f)[i].b,
        p.applied(before, f)[i].r == Single::one() || p.applied(before, f)[i].r == Single::zero(),
{
}

/// Thresholding lights exactly the pixels whose own luminance reaches the threshold.
pub proof fn law_threshold_lights_the_bright(
    p: Preprocess,
    before: Raster,
    f: spec_fn(PixelSum) -> Single,
    i: int,
)
    requires
        p.dither == Dither::ThresholdOnly,
        p.tone.levels_are_neutral(),
        p.tone.sharpen is None,
        0 <= i < before.color.len(),
    ensures
        p.threshold.spec_le(f(PixelSum::Luma(before.color[i]))) ==> p.applied(before, f)[i].r
            == Single::one(),
        !p.threshold.spec_le(f(PixelSum::Luma(before.color[i]))) ==> p.applied(before, f)[i].r
            == Single::zero(),
{
}

/// Ordered dithering compares each pixel's luminance with the step of its place in a pattern that repeats
/// in both directions. In the smallest pattern the steps are one eighth and five eighths along even rows
/// and seven and three eighths along odd ones.
pub proof fn law_ordered_dithering_follows_the_pattern(
    p: Preprocess,
    before: Raster,
    f: spec_fn(PixelSum) -> Single,
    size: BayerSize,
    x: int,
    y: int,
)
    requires
        before.wf(),
        before.contains(x, y),
        p.dither == Dither::Bayer(size),
        p.tone.levels_are_neutral(),
        p.tone.sharpen is None,
        f(PixelSum::Luma(before.color[y * before.width + x])).is_finite(),
    ensures
        ({
            let i = y * before.width + x;
            let units = f(PixelSum::Luma(before.color[i])).units();
            let lit = p.applied(before, f)[i].r == Single::one();
            &&& !lit ==> p.applied(before, f)[i].r == Single::zero()
            &&& size == BayerSize::Two ==> {
                let eighths: int = if x % 2 == 0 && y % 2 == 0 {
                    1
                } else if y % 2 == 0 {
                    5
                } else if x % 2 == 0 {
                    7
                } else {
                    3
                };
                lit <==> units * 8 >= eighths * pow2(149)
            }
            &&& size == BayerSize::Four ==> (lit <==> units * 32 >= (2 * bayer_rank(
                4,
                y % 4,
                x % 4,
            ) + 1) * pow2(149))
            &&& size == BayerSize::Eight ==> (lit <==> units * 128 >= (2 * bayer_rank(
                8,
                y % 8,
                x % 8,
            ) + 1) * pow2(149))
            &&& size == BayerSize::Sixteen ==> (lit <==> units * 512 >= (2 * bayer_rank(
                16,
                y % 16,
                x % 16,
            ) + 1) * pow2(149))
        }),
{
    let w = before.width as int;
    let i = y * w + x;
    lemma_index_in_plane(x, y, w, before.height as int);
    vstd::arithmetic::div_mod::lemma_fundamental_div_mod_converse(i, w, y, x);
    vstd::arithmetic::power2::lemma2_to64();
    assert(pow2(3) == 8 && pow2(5) == 32 && pow2(7) == 128 && pow2(9) == 512);
    reveal_with_fuel(bayer_rank, 3);
    if size == BayerSize::Two {
        assert((x % 2) / 1 == x % 2 && (y % 2) / 1 == y % 2);
    }
}

/// A pattern of twice the side puts four steps where the smaller pattern has one: first the top left
/// quarter, then the bottom right, the top right and the bottom left.
pub proof fn law_pattern_is_refined_by_quarters(n: nat, row: int, col: int)
    requires
        0 < n,
        0 <= row < n,
        0 <= col < n,
    ensures
        bayer_rank(1, 0, 0) == 0,
        bayer_rank(2 * n, row, col) == 4 * bayer_rank(n, row, col),
        bayer_rank(2 * n, row + n, col + n) == 4 * bayer_rank(n, row, col) + 1,
        bayer_rank(2 * n, row, col + n) == 4 * bayer_rank(n, row, col) + 2,
        bayer_rank(2 * n, row + n, col) == 4 * bayer_rank(n, row, col) + 3,
{
    let m = n as int;
    assert((2 * n) / 2 == n);
    lemma_halves(row, m);
    lemma_halves(col, m);
    lemma_halves(row + m, m);
    lemma_halves(col + m, m);
}

/// Handing error on keeps the number of luminances.
proof fn lemma_spread_keeps_len(
    luma: Seq<Single>,
    kernel: Kernel,
    w: int,
    h: int,
    i: int,
    lit: bool,
    f: spec_fn(PixelSum) -> Single,
    n: nat,
)
    requires
        luma.len() == w * h,
        0 <= i < w * h,
        0 <= w,
        0 <= h,
    ensures
        spread(luma, kernel, w, h, i, lit, f, n).len() == luma.len(),
    decreases n,
{
    if n > 0 {
        lemma_spread_keeps_len(luma, kernel, w, h, i, lit, f, (n - 1) as nat);
        lemma_tap_lands(kernel.spec_taps()[n - 1], i, i, w, h);
    }
}

/// What handing error on by one more tap does to the pixel at index `i`.
proof fn lemma_spread_step(
    luma: Seq<Single>,
    kernel: Kernel,
    w: int,
    h: int,
    m: int,
    i: int,
    lit: bool,
    f: spec_fn(PixelSum) -> Single,
    n: nat,
)
    requires
        luma.len() == w * h,
        0 <= m < w * h,
        0 <= i < w * h,
        0 <= w,
        0 <= h,
        0 < n,
    ensures
        ({
            let before = spread(luma, kernel, w, h, m, lit, f, (n - 1) as nat);
            let tap = kernel.spec_taps()[n - 1];
            spread(luma, kernel, w, h, m, lit, f, n)[i] == if i % w == m % w + tap.dx && i / w == m
                / w + tap.dy {
                f(
                    PixelSum::Diffuse {
                        into: before[i],
                        from: luma[m],
                        lit,
                        weight: tap.weight,
                        divisor: kernel.spec_divisor(),
                    },
                )
            } else {
                before[i]
            }
        }),
{
    lemma_spread_keeps_len(luma, kernel, w, h, m, lit, f, (n - 1) as nat);
    lemma_tap_lands(kernel.spec_taps()[n - 1], m, i, w, h);
}

proof fn lemma_diffused_keeps_len(
    luma: Seq<Single>,
    kernel: Kernel,
    w: int,
    h: int,
    threshold: Single,
    f: spec_fn(PixelSum) -> Single,
    n: nat,
)
    requires
        luma.len() == w * h,
        n <= luma.len(),
        0 <= w,
        0 <= h,
    ensures
        diffused(luma, kernel, w, h, threshold, f, n).len() == luma.len(),
    decreases n,
{
    if n > 0 {
        lemma_diffused_keeps_len(luma, kernel, w, h, threshold, f, (n - 1) as nat);
        let before = diffused(luma, kernel, w, h, threshold, f, (n - 1) as nat);
        lemma_spread_keeps_len(
            before,
            kernel,
            w,
            h,
            n - 1,
            threshold.spec_le(before[n - 1]),
            f,
            kernel.spec_taps().len(),
        );
    }
}

/// A tap of the pixel at index `m` lands at index `i` exactly where the columns and rows say so.
proof fn lemma_tap_lands(tap: Tap, m: int, i: int, w: int, h: int)
    requires
        0 <= m < w * h,
        0 <= i < w * h,
        0 <= w,
        0 <= h,
    ensures
        tap_target(tap, m % w, m / w, w, h) == Some(i) <==> (i % w == m % w + tap.dx && i / w == m / w
            + tap.dy),
        tap_target(tap, m % w, m / w, w, h) is Some ==> 0 <= tap_target(tap, m % w, m / w, w, h)->0
            < w * h,
{
    lemma_index_has_a_pixel(m, w, h);
    lemma_index_has_a_pixel(i, w, h);
    let (x, y) = (m % w + tap.dx, m / w + tap.dy);
    if 0 <= x < w && 0 <= y < h {
        lemma_index_in_plane(x, y, w, h);
        lemma_index_is_injective(x, y, i % w, i / w, w);
    }
}

/// Floyd–Steinberg dithering settles the pixels row by row, from the left to the right. Each is lit where its
/// luminance has come to reach the threshold, and then its error is handed on: seven sixteenths to the pixel
/// on its right, and three, five and one to those below it, from the left to the right. No other changes.
pub proof fn law_floyd_steinberg_hands_its_error_on(
    p: Preprocess,
    before: Raster,
    f: spec_fn(PixelSum) -> Single,
) -> (states: Seq<Seq<Single>>)
    requires
        before.wf(),
        p.tone.levels_are_neutral(),
        p.tone.sharpen is None,
        p.dither == Dither::FloydSteinberg,
    ensures
        ({
            let w = before.width as int;
            let n = before.color.len() as int;
            {
                    &&& states.len() == n + 1
                    &&& states[0].len() == n
                    &&& forall|i: int|
                        0 <= i < n ==> #[trigger] states[0][i] == f(PixelSum::Luma(before.color[i]))
                    &&& forall|m: int, i: int|
                        #![trigger states[m + 1][i]]
                        0 <= m < n && 0 <= i < n ==> {
                            let weight: u32 = if i % w == m % w + 1 && i / w == m / w {
                    7
                } else if i % w == m % w - 1 && i / w == m / w + 1 {
                    3
                } else if i % w == m % w && i / w == m / w + 1 {
                    5
                } else if i % w == m % w + 1 && i / w == m / w + 1 {
                    1
                } else {
                    0
                };
                            states[m + 1][i] == if weight > 0 {
                                f(
                                    PixelSum::Diffuse {
                                        into: states[m][i],
                                        from: states[m][m],
                                        lit: p.threshold.spec_le(states[m][m]),
                                        weight,
                                        divisor: 16,
                                    },
                                )
                            } else {
                                states[m][i]
                            }
                        }
                    &&& forall|i: int|
                        0 <= i < n ==> #[trigger] p.applied(before, f)[i] == mono(
                            before.color[i],
                            p.threshold.spec_le(states[i][i]),
                        )
                }
        }),
{
    let (w, h) = (before.width as int, before.height as int);
    let n = before.color.len() as int;
    let kernel = Kernel::FloydSteinberg;
    let luma = lumas(before.color, f);
    let states = Seq::new(
        (n + 1) as nat,
        |m: int| diffused(luma, kernel, w, h, p.threshold, f, m as nat),
    );
    assert forall|m: int, i: int|
        #![trigger states[m + 1][i]]
        0 <= m < n && 0 <= i < n implies {
        let weight: u32 = if i % w == m % w + 1 && i / w == m / w {
                    7
                } else if i % w == m % w - 1 && i / w == m / w + 1 {
                    3
                } else if i % w == m % w && i / w == m / w + 1 {
                    5
                } else if i % w == m % w + 1 && i / w == m / w + 1 {
                    1
                } else {
                    0
                };
        states[m + 1][i] == if weight > 0 {
            f(
                PixelSum::Diffuse {
                    into: states[m][i],
                    from: states[m][m],
                    lit: p.threshold.spec_le(states[m][m]),
                    weight,
                    divisor: 16,
                },
            )
        } else {
            states[m][i]
        }
    } by {
        lemma_diffused_keeps_len(luma, kernel, w, h, p.threshold, f, m as nat);
        let now = states[m];
        assert(now.len() == w * h);
        lemma_index_has_a_pixel(m, w, h);
        lemma_index_has_a_pixel(i, w, h);
        let lit = p.threshold.spec_le(now[m]);
        assert(spread(now, kernel, w, h, m, lit, f, 0) == now);
        lemma_spread_step(now, kernel, w, h, m, i, lit, f, 1);
        lemma_spread_step(now, kernel, w, h, m, i, lit, f, 2);
        lemma_spread_step(now, kernel, w, h, m, i, lit, f, 3);
        lemma_spread_step(now, kernel, w, h, m, i, lit, f, 4);
        assert(states[m + 1] == spread(now, kernel, w, h, m, lit, f, kernel.spec_taps().len()));
    }
    assert forall|i: int| 0 <= i < n implies #[trigger] p.applied(before, f)[i] == mono(
        before.color[i],
        p.threshold.spec_le(states[i][i]),
    ) by {}
    states
}

/// Atkinson dithering settles the pixels row by row, from the left to the right, and hands an eighth of the
/// error on to each of six: the next two on the right, the three below, and the one two rows below.
pub proof fn law_atkinson_hands_its_error_on(
    p: Preprocess,
    before: Raster,
    f: spec_fn(PixelSum) -> Single,
) -> (states: Seq<Seq<Single>>)
    requires
        before.wf(),
        p.tone.levels_are_neutral(),
        p.tone.sharpen is None,
        p.dither == Dither::Atkinson,
    ensures
        ({
            let w = before.width as int;
            let n = before.color.len() as int;
            {
                    &&& states.len() == n + 1
                    &&& states[0].len() == n
                    &&& forall|i: int|
                        0 <= i < n ==> #[trigger] states[0][i] == f(PixelSum::Luma(before.color[i]))
                    &&& forall|m: int, i: int|
                        #![trigger states[m + 1][i]]
                        0 <= m < n && 0 <= i < n ==> {
                            let weight: u32 = if i % w == m % w + 1 && i / w == m / w {
                    1
                } else if i % w == m % w + 2 && i / w == m / w {
                    1
                } else if i % w == m % w - 1 && i / w == m / w + 1 {
                    1
                } else if i % w == m % w && i / w == m / w + 1 {
                    1
                } else if i % w == m % w + 1 && i / w == m / w + 1 {
                    1
                } else if i % w == m % w && i / w == m / w + 2 {
                    1
                } else {
                    0
                };
                            states[m + 1][i] == if weight > 0 {
                                f(
                                    PixelSum::Diffuse {
                                        into: states[m][i],
                                        from: states[m][m],
                                        lit: p.threshold.spec_le(states[m][m]),
                                        weight,
                                        divisor: 8,
                                    },
                                )
                            } else {
                                states[m][i]
                            }
                        }
                    &&& forall|i: int|
                        0 <= i < n ==> #[trigger] p.applied(before, f)[i] == mono(
                            before.color[i],
                            p.threshold.spec_le(states[i][i]),
                        )
                }
        }),
{
    let (w, h) = (before.width as int, before.height as int);
    let n = before.color.len() as int;
    let kernel = Kernel::Atkinson;
    let luma = lumas(before.color, f);
    let states = Seq::new(
        (n + 1) as nat,
        |m: int| diffused(luma, kernel, w, h, p.threshold, f, m as nat),
    );
    assert forall|m: int, i: int|
        #![trigger states[m + 1][i]]
        0 <= m < n && 0 <= i < n implies {
        let weight: u32 = if i % w == m % w + 1 && i / w == m / w {
                    1
                } else if i % w == m % w + 2 && i / w == m / w {
                    1
                } else if i % w == m % w - 1 && i / w == m / w + 1 {
                    1
                } else if i % w == m % w && i / w == m / w + 1 {
                    1
                } else if i % w == m % w + 1 && i / w == m / w + 1 {
                    1
                } else if i % w == m % w && i / w == m / w + 2 {
                    1
                } else {
                    0
                };
        states[m + 1][i] == if weight > 0 {
            f(
                PixelSum::Diffuse {
                    into: states[m][i],
                    from: states[m][m],
                    lit: p.threshold.spec_le(states[m][m]),
                    weight,
                    divisor: 8,
                },
            )
        } else {
            states[m][i]
        }
    } by {
        lemma_diffused_keeps_len(luma, kernel, w, h, p.threshold, f, m as nat);
        let now = states[m];
        assert(now.len() == w * h);
        lemma_index_has_a_pixel(m, w, h);
        lemma_index_has_a_pixel(i, w, h);
        let lit = p.threshold.spec_le(now[m]);
        assert(spread(now, kernel, w, h, m, lit, f, 0) == now);
        lemma_spread_step(now, kernel, w, h, m, i, lit, f, 1);
        lemma_spread_step(now, kernel, w, h, m, i, lit, f, 2);
        lemma_spread_step(now, kernel, w, h, m, i, lit, f, 3);
        lemma_spread_step(now, kernel, w, h, m, i, lit, f, 4);
        lemma_spread_step(now, kernel, w, h, m, i, lit, f, 5);
        lemma_spread_step(now, kernel, w, h, m, i, lit, f, 6);
        assert(states[m + 1] == spread(now, kernel, w, h, m, lit, f, kernel.spec_taps().len()));
    }
    assert forall|i: int| 0 <= i < n implies #[trigger] p.applied(before, f)[i] == mono(
        before.color[i],
        p.threshold.spec_le(states[i][i]),
    ) by {}
    states
}

/// The stages run one after the other, each on what the one before it has left: first the levels, then
/// the sharpen, and then the dithering. The levels are taken not to look at the amount of the sharpen.
pub proof fn law_stages_run_in_order(p: Preprocess, before: Raster, f: spec_fn(PixelSum) -> Single)
    requires
        forall|v: Single| #[trigger]
            f(PixelSum::Tone(v, p.tone)) == f(
                PixelSum::Tone(v, Tone { sharpen: None, ..p.tone }),
            ),
    ensures
        ({
            let levels = Preprocess {
                tone: Tone { sharpen: None, ..p.tone },
                dither: Dither::Off,
                ..p
            };
            let sharpen = Preprocess {
                tone: Tone { sharpen: p.tone.sharpen, ..Tone::identity() },
                dither: Dither::Off,
                ..p
            };
            let dither = Preprocess { tone: Tone::identity(), ..p };
            let levelled = Raster { color: levels.applied(before, f), ..before };
            let sharp = Raster { color: sharpen.applied(levelled, f), ..before };
            p.applied(before, f) == dither.applied(sharp, f)
        }),
{
    let levels = Preprocess { tone: Tone { sharpen: None, ..p.tone }, dither: Dither::Off, ..p };
    let sharpen = Preprocess {
        tone: Tone { sharpen: p.tone.sharpen, ..Tone::identity() },
        dither: Dither::Off,
        ..p
    };
    let dither = Preprocess { tone: Tone::identity(), ..p };
    let levelled = Raster { color: levels.applied(before, f), ..before };
    let sharp = Raster { color: sharpen.applied(levelled, f), ..before };
    assert(Tone::identity().levels_are_neutral());
    let n = before.color.len();
    let (w, h) = (before.width as int, before.height as int);
    let toned_colors = if p.tone.levels_are_neutral() {
        before.color
    } else {
        Seq::new(n, |i: int| toned(before.color[i], p.tone, f))
    };
    assert(levelled.color =~= toned_colors) by {
        assert forall|i: int| 0 <= i < n implies #[trigger] levelled.color[i] == toned_colors[i] by {
            let c = before.color[i];
            assert(f(PixelSum::Tone(c.r, p.tone)) == f(PixelSum::Tone(c.r, levels.tone)));
            assert(f(PixelSum::Tone(c.g, p.tone)) == f(PixelSum::Tone(c.g, levels.tone)));
            assert(f(PixelSum::Tone(c.b, p.tone)) == f(PixelSum::Tone(c.b, levels.tone)));
        }
    }
    assert(sharp.color =~= match p.tone.sharpen {
        Some(amount) => Seq::new(n, |i: int| sharpened(toned_colors, w, h, i, amount, f)),
        None => toned_colors,
    });
    assert(p.applied(before, f) =~= dither.applied(sharp, f));
}

} // verus!
