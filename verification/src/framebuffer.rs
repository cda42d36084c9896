//! The CPU render target that every media source converges onto.

use crate::color::Color;
use crate::single::Single;
use vstd::prelude::*;

verus! {

/// What a framebuffer holds: its size, and its color and depth planes, row by row.
pub ghost struct Raster {
    /// The width in pixels.
    pub width: nat,
    /// The height in pixels.
    pub height: nat,
    /// The color plane: the pixel at `(x, y)` is at index `y * width + x`.
    pub color: Seq<Color>,
    /// The depth plane, in the same order.
    pub depth: Seq<Single>,
}

impl Raster {
    /// Whether both planes hold exactly one entry per pixel, and every index fits the machine.
    pub open spec fn wf(self) -> bool {
        &&& self.width <= usize::MAX
        &&& self.height <= usize::MAX
        &&& self.width * self.height <= usize::MAX
        &&& self.color.len() == self.width * self.height
        &&& self.depth.len() == self.width * self.height
    }

    /// Whether `(x, y)` is a pixel of this raster.
    pub open spec fn contains(self, x: int, y: int) -> bool {
        0 <= x < self.width && 0 <= y < self.height
    }

    /// The color at `(x, y)`.
    pub open spec fn pixel(self, x: int, y: int) -> Color {
        self.color[y * self.width + x]
    }

    /// This raster with the color at `(x, y)` replaced.
    pub open spec fn with_pixel(self, x: int, y: int, c: Color) -> Raster {
        Raster { color: self.color.update(y * self.width + x, c), ..self }
    }

    /// Whether `other` has the same size and the same depth plane.
    pub open spec fn same_shape(self, other: Raster) -> bool {
        self.width == other.width && self.height == other.height && self.depth == other.depth
    }
}

/// The depth value a cleared framebuffer is initialized to (the far plane).
#[verifier::allow_in_spec]
pub fn depth_far() -> Single
    returns
        Single::one(),
{
    Single::one()
}

/// A CPU render target holding a contiguous color buffer and a matching depth buffer.
///
/// Storage is row-major: the pixel at `(x, y)` lives at index `y * width + x`. Color and depth
/// are separate contiguous `Vec`s so the 3D rasterizer can depth-test without touching color and
/// the encoders can read color without touching depth.
#[derive(Clone, Debug)]
pub struct Framebuffer {
    width: usize,
    height: usize,
    color: Vec<Color>,
    depth: Vec<Single>,
}

/// Where `(x, y)` lives in a plane of `width * height` entries.
pub proof fn lemma_index_in_plane(x: int, y: int, width: int, height: int)
    requires
        0 <= x < width,
        0 <= y < height,
    ensures
        0 <= y * width + x < width * height,
        0 <= y * width,
        y * width <= width * height - width,
{
    assert(y * width + width <= width * height && 0 <= y * width) by (nonlinear_arith)
        requires
            0 <= y < height,
            0 <= width,
    ;
}

/// Different pixels live at different indexes.
pub proof fn lemma_index_is_injective(x: int, y: int, u: int, v: int, width: int)
    requires
        0 <= x < width,
        0 <= u < width,
    ensures
        y * width + x == v * width + u <==> (x == u && y == v),
{
    if y < v {
        assert(y * width + width <= v * width) by (nonlinear_arith)
            requires
                y < v,
                0 <= width,
        ;
    }
    if v < y {
        assert(v * width + width <= y * width) by (nonlinear_arith)
            requires
                v < y,
                0 <= width,
        ;
    }
}

/// Every index of a plane is the place of exactly one pixel.
pub proof fn lemma_index_has_a_pixel(i: int, width: int, height: int)
    requires
        0 <= i < width * height,
        0 <= width,
        0 <= height,
    ensures
        0 < width,
        0 <= i % width < width,
        0 <= i / width < height,
        (i / width) * width + i % width == i,
{
    assert(0 < width) by (nonlinear_arith)
        requires
            0 <= i < width * height,
            0 <= width,
            0 <= height,
    ;
    vstd::arithmetic::div_mod::lemma_fundamental_div_mod(i, width);
    vstd::arithmetic::div_mod::lemma_multiply_divide_lt(i, width, height);
    vstd::arithmetic::div_mod::lemma_div_pos_is_pos(i, width);
    vstd::arithmetic::mul::lemma_mul_is_commutative(width, i / width);
    vstd::arithmetic::mul::lemma_mul_is_commutative(width, height);
}

/// The same share of another length lies within it.
pub proof fn lemma_share_in_range(x: int, from: int, to: int)
    requires
        0 <= x < from,
        0 < to,
    ensures
        0 <= x * to / from < to,
        0 <= x * to <= to * from,
{
    assert(0 <= x * to && x * to < from * to && from * to == to * from) by (nonlinear_arith)
        requires
            0 <= x < from,
            0 < to,
    ;
    vstd::arithmetic::div_mod::lemma_div_pos_is_pos(x * to, from);
    vstd::arithmetic::div_mod::lemma_multiply_divide_lt(x * to, from, to);
}

impl View for Framebuffer {
    type V = Raster;

    closed spec fn view(&self) -> Raster {
        Raster {
            width: self.width as nat,
            height: self.height as nat,
            color: self.color@,
            depth: self.depth@,
        }
    }
}

impl Framebuffer {
    /// Whether the planes match the size.
    pub open spec fn wf(&self) -> bool {
        self@.wf()
    }

    /// Creates a framebuffer of `width` × `height` pixels, cleared to transparent with depth at
    /// the far plane. A `0`-sized dimension is allowed and yields an empty buffer.
    pub fn new(width: usize, height: usize) -> (fb: Framebuffer)
        requires
            width * height <= usize::MAX,
        ensures
            fb.wf(),
            fb@.width == width,
            fb@.height == height,
            fb@.color == Seq::new((width * height) as nat, |i: int| Color::transparent()),
            fb@.depth == Seq::new((width * height) as nat, |i: int| depth_far()),
    {
        assert(0 <= width * height) by (nonlinear_arith);
        let len: usize = width * height;
        let fb = Framebuffer {
            width,
            height,
            color: vec![Color::transparent(); len],
            depth: vec![depth_far(); len],
        };
        assert(fb@.color =~= Seq::new((width * height) as nat, |i: int| Color::transparent()));
        assert(fb@.depth =~= Seq::new((width * height) as nat, |i: int| depth_far()));
        fb
    }

    /// The width in pixels.
    pub fn width(&self) -> (n: usize)
        ensures
            n == self@.width,
    {
        self.width
    }

    /// The height in pixels.
    pub fn height(&self) -> (n: usize)
        ensures
            n == self@.height,
    {
        self.height
    }

    /// The number of pixels.
    pub fn len(&self) -> (n: usize)
        ensures
            n == self@.color.len(),
    {
        self.color.len()
    }

    /// Whether the framebuffer has zero pixels.
    pub fn is_empty(&self) -> (b: bool)
        ensures
            b == (self@.color.len() == 0),
    {
        self.color.len() == 0
    }

    /// Resizes the framebuffer, reusing the existing allocation when it is large enough.
    ///
    /// Both planes keep their leading entries and are cut or padded at the end; the pixels are
    /// not moved to where the new size puts them, so call [`Framebuffer::clear`] before rendering.
    pub fn resize(&mut self, width: usize, height: usize)
        requires
            width * height <= usize::MAX,
        ensures
            final(self).wf(),
            final(self)@.width == width,
            final(self)@.height == height,
            final(self)@.color == resized(
                old(self)@.color,
                (width * height) as nat,
                Color::transparent(),
            ),
            final(self)@.depth == resized(old(self)@.depth, (width * height) as nat, depth_far()),
    {
        assert(0 <= width * height) by (nonlinear_arith);
        let ghost before = self@;
        self.width = width;
        self.height = height;
        let len: usize = width * height;
        self.color.resize(len, Color::transparent());
        self.depth.resize(len, depth_far());
        proof {
            lemma_resized(before.color, self.color@, len as nat, Color::transparent());
            lemma_resized(before.depth, self.depth@, len as nat, depth_far());
        }
    }

    /// Clears the color buffer to `color` and resets depth to the far plane.
    pub fn clear(&mut self, color: Color)
        requires
            old(self).wf(),
        ensures
            final(self).wf(),
            final(self)@ == (Raster {
                color: Seq::new(old(self)@.color.len(), |i: int| color),
                depth: Seq::new(old(self)@.depth.len(), |i: int| depth_far()),
                ..old(self)@
            }),
    {
        let mut i: usize = 0;
        while i < self.color.len()
            invariant
                i <= self.color.len(),
                self.color.len() == old(self)@.color.len(),
                self.depth.len() == self.color.len(),
                self.width == old(self)@.width,
                self.height == old(self)@.height,
                forall|j: int| 0 <= j < i ==> self.color@[j] == color,
                forall|j: int| 0 <= j < i ==> self.depth@[j] == depth_far(),
            decreases self.color.len() - i,
        {
            self.color.set(i, color);
            self.depth.set(i, depth_far());
            i = i + 1;
        }
        assert(self@.color =~= Seq::new(old(self)@.color.len(), |i: int| color));
        assert(self@.depth =~= Seq::new(old(self)@.depth.len(), |i: int| depth_far()));
    }

    /// Where `(x, y)` lives in both planes.
    fn index(&self, x: usize, y: usize) -> (i: usize)
        requires
            self.wf(),
            self@.contains(x as int, y as int),
        ensures
            i == y * self@.width + x,
            i < self@.color.len(),
    {
        proof {
            lemma_index_in_plane(x as int, y as int, self.width as int, self.height as int);
        }
        y * self.width + x
    }

    /// Whether `(x, y)` is inside the framebuffer.
    pub fn in_bounds(&self, x: usize, y: usize) -> (b: bool)
        ensures
            b == self@.contains(x as int, y as int),
    {
        x < self.width && y < self.height
    }

    /// The color at `(x, y)`.
    pub fn get(&self, x: usize, y: usize) -> (c: Color)
        requires
            self.wf(),
            self@.contains(x as int, y as int),
        ensures
            c == self@.pixel(x as int, y as int),
    {
        self.color[self.index(x, y)]
    }

    /// Sets the color at `(x, y)`.
    pub fn set(&mut self, x: usize, y: usize, c: Color)
        requires
            old(self).wf(),
            old(self)@.contains(x as int, y as int),
        ensures
            final(self).wf(),
            final(self)@ == old(self)@.with_pixel(x as int, y as int, c),
    {
        let i: usize = self.index(x, y);
        self.color.set(i, c);
    }

    /// The full color buffer as a slice, row-major.
    pub fn color(&self) -> (s: &[Color])
        ensures
            s@ == self@.color,
    {
        self.color.as_slice()
    }

    /// The full color buffer as a mutable slice, row-major.
    pub fn color_mut(&mut self) -> (s: &mut [Color])
        ensures
            s@ == old(self)@.color,
            final(self)@ == (Raster { color: final(s)@, ..old(self)@ }),
    {
        self.color.as_mut_slice()
    }

    /// The full depth buffer as a slice, row-major.
    pub fn depth(&self) -> (s: &[Single])
        ensures
            s@ == self@.depth,
    {
        self.depth.as_slice()
    }

    /// The full depth buffer as a mutable slice, row-major.
    pub fn depth_mut(&mut self) -> (s: &mut [Single])
        ensures
            s@ == old(self)@.depth,
            final(self)@ == (Raster { depth: final(s)@, ..old(self)@ }),
    {
        self.depth.as_mut_slice()
    }

    /// A copy of this framebuffer.
    pub fn duplicate(&self) -> (fb: Framebuffer)
        ensures
            fb@ == self@,
    {
        let mut color: Vec<Color> = Vec::with_capacity(self.color.len());
        for i in 0..self.color.len()
            invariant
                color@ == self.color@.take(i as int),
        {
            color.push(self.color[i]);
            assert(color@ =~= self.color@.take(i + 1));
        }
        let mut depth: Vec<Single> = Vec::with_capacity(self.depth.len());
        for i in 0..self.depth.len()
            invariant
                depth@ == self.depth@.take(i as int),
        {
            depth.push(self.depth[i]);
            assert(depth@ =~= self.depth@.take(i + 1));
        }
        assert(color@ =~= self.color@);
        assert(depth@ =~= self.depth@);
        Framebuffer { width: self.width, height: self.height, color, depth }
    }
}

/// `entries`, cut to `len` entries or padded to it with `fill`.
pub open spec fn resized<T>(entries: Seq<T>, len: nat, fill: T) -> Seq<T> {
    Seq::new(
        len,
        |i: int|
            if i < entries.len() {
                entries[i]
            } else {
                fill
            },
    )
}

proof fn lemma_resized<T>(before: Seq<T>, after: Seq<T>, len: nat, fill: T)
    requires
        after.len() == len,
        len <= before.len() ==> after == before.subrange(0, len as int),
        len > before.len() ==> {
            &&& after.subrange(0, before.len() as int) == before
            &&& forall|i: int| before.len() <= i < len ==> after[i] == fill
        },
    ensures
        after == resized(before, len, fill),
{
    if len > before.len() {
        assert forall|i: int| 0 <= i < before.len() implies after[i] == before[i] by {
            assert(after.subrange(0, before.len() as int)[i] == after[i]);
        }
    }
    assert(after =~= resized(before, len, fill));
}

/// The share of a length that a whole division gives is the place whose span of the other length
/// holds `x`.
pub proof fn lemma_share_spans(x: int, from: int, to: int)
    requires
        0 <= x < from,
        0 < to,
    ensures
        0 <= x * to / from < to,
        (x * to / from) * from <= x * to < (x * to / from + 1) * from,
{
    let q = x * to / from;
    lemma_share_in_range(x, from, to);
    vstd::arithmetic::div_mod::lemma_fundamental_div_mod(x * to, from);
    vstd::arithmetic::div_mod::lemma_mod_bound(x * to, from);
    vstd::arithmetic::mul::lemma_mul_is_commutative(from, q);
    vstd::arithmetic::mul::lemma_mul_is_distributive_add_other_way(from, q, 1);
}

/// At the same length, the share of `x` is `x` itself.
pub proof fn lemma_share_of_same_length(x: int, size: int)
    requires
        0 <= x < size,
    ensures
        x * size / size == x,
{
    vstd::arithmetic::div_mod::lemma_div_multiples_vanish(x, size);
    vstd::arithmetic::mul::lemma_mul_is_commutative(x, size);
}

/// A picture is stored row by row: one step to the right is the next entry, one step down is a whole
/// width further, and the first entry is the top left.
pub proof fn law_pixels_are_stored_row_by_row(r: Raster, x: int, y: int, c: Color)
    requires
        r.wf(),
        r.contains(x, y),
    ensures
        r.pixel(x, y) == r.color[y * r.width + x],
        0 <= y * r.width + x < r.color.len(),
        r.with_pixel(x, y, c).pixel(x, y) == c,
        r.with_pixel(x, y, c).color[y * r.width + x] == c,
        forall|u: int, v: int|
            #![trigger r.with_pixel(x, y, c).pixel(u, v)]
            r.contains(u, v) && (u != x || v != y) ==> r.with_pixel(x, y, c).pixel(u, v) == r.pixel(
                u,
                v,
            ),
        r.with_pixel(x, y, c).depth == r.depth,
{
    lemma_index_in_plane(x, y, r.width as int, r.height as int);
    assert forall|u: int, v: int|
        #![trigger r.with_pixel(x, y, c).pixel(u, v)]
        r.contains(u, v) && (u != x || v != y) implies r.with_pixel(x, y, c).pixel(u, v) == r.pixel(
        u,
        v,
    ) by {
        lemma_index_in_plane(u, v, r.width as int, r.height as int);
        lemma_index_is_injective(u, v, x, y, r.width as int);
    }
}

} // verus!
