use vstd::prelude::*;
use crate::color::Color;

verus! {

/// A software framebuffer: `width * height` pixels stored row by row, a
/// background colour used by `clear`, and the current drawing colour.
pub struct Framebuffer {
    width: u32,
    height: u32,
    color_buffer: Vec<Color>,
    background_color: Color,
    current_color: Color,
}

/// A shape painted in one colour.
pub type Layer = (spec_fn(int, int) -> bool, Color);

/// The colour that a stack of layers gives a point: the colour of the last
/// layer whose shape holds the point, or `base` where none does.
pub open spec fn shade(layers: Seq<(spec_fn(int, int) -> bool, Color)>, x: int, y: int, base: Color) -> Color
    decreases layers.len(),
{
    if layers.len() == 0 {
        base
    } else if (layers.last().0)(x, y) {
        layers.last().1
    } else {
        shade(layers.drop_last(), x, y, base)
    }
}

/// `new` is `old` with the same size and background, still well formed.
pub open spec fn frame_kept(old: Framebuffer, new: Framebuffer) -> bool {
    &&& new.wf()
    &&& new.w() == old.w()
    &&& new.h() == old.h()
    &&& new.background() == old.background()
}

/// `new` is `old` with every visible point of `shape` painted in colour `c`
/// and every other pixel unchanged.
pub open spec fn painted(old: Framebuffer, new: Framebuffer, shape: spec_fn(int, int) -> bool, c: Color) -> bool {
    &&& frame_kept(old, new)
    &&& forall|x: int, y: int|
        new.in_bounds(x, y) ==> #[trigger] new.pixel(x, y) == (if shape(x, y) {
            c
        } else {
            old.pixel(x, y)
        })
}

/// `new` is `old` with the layers painted over it in order.
pub open spec fn layered(old: Framebuffer, new: Framebuffer, layers: Seq<(spec_fn(int, int) -> bool, Color)>) -> bool {
    &&& frame_kept(old, new)
    &&& forall|x: int, y: int|
        new.in_bounds(x, y) ==> #[trigger] new.pixel(x, y) == shade(layers, x, y, old.pixel(x, y))
}

/// The axis-aligned rectangle `[x, x + w) x [y, y + h)`.
pub open spec fn rect(x: int, y: int, w: int, h: int) -> spec_fn(int, int) -> bool {
    |px: int, py: int| x <= px < x + w && y <= py < y + h
}

proof fn lemma_index_in_range(w: int, h: int, x: int, y: int)
    by (nonlinear_arith)
    requires
        0 <= x < w,
        0 <= y < h,
    ensures
        0 <= y * w + x < w * h,
{
}

proof fn lemma_index_injective(w: int, x1: int, y1: int, x2: int, y2: int)
    by (nonlinear_arith)
    requires
        0 <= x1 < w,
        0 <= x2 < w,
        0 <= y1,
        0 <= y2,
        y1 * w + x1 == y2 * w + x2,
    ensures
        x1 == x2,
        y1 == y2,
{
}

/// Painting two shapes in the same colour, one after the other, paints their union.
pub proof fn lemma_painted_compose(
    a: Framebuffer,
    b: Framebuffer,
    d: Framebuffer,
    s: spec_fn(int, int) -> bool,
    t: spec_fn(int, int) -> bool,
    c: Color,
)
    requires
        painted(a, b, s, c),
        painted(b, d, t, c),
    ensures
        painted(a, d, |x: int, y: int| s(x, y) || t(x, y), c),
{
    assert forall|x: int, y: int| d.in_bounds(x, y) implies #[trigger] d.pixel(x, y) == (if s(x, y) || t(x, y) {
        c
    } else {
        a.pixel(x, y)
    }) by {
        assert(d.pixel(x, y) == (if t(x, y) { c } else { b.pixel(x, y) }));
        assert(b.pixel(x, y) == (if s(x, y) { c } else { a.pixel(x, y) }));
    }
}

/// Painting is determined by which points the shape holds, not by how it is written.
pub proof fn lemma_painted_same_shape(
    a: Framebuffer,
    b: Framebuffer,
    s: spec_fn(int, int) -> bool,
    t: spec_fn(int, int) -> bool,
    c: Color,
)
    requires
        painted(a, b, s, c),
        forall|x: int, y: int| #[trigger] t(x, y) == s(x, y),
    ensures
        painted(a, b, t, c),
{
    assert forall|x: int, y: int| b.in_bounds(x, y) implies #[trigger] b.pixel(x, y) == (if t(x, y) {
        c
    } else {
        a.pixel(x, y)
    }) by {
        assert(t(x, y) == s(x, y));
    }
}

/// A framebuffer is itself with no layers painted.
pub proof fn lemma_layered_empty(a: Framebuffer)
    requires
        a.wf(),
    ensures
        layered(a, a, Seq::empty()),
{
}

/// Painting a shape on top of a stack of layers adds it as the top layer.
pub proof fn lemma_layered_push(
    a: Framebuffer,
    b: Framebuffer,
    d: Framebuffer,
    layers: Seq<(spec_fn(int, int) -> bool, Color)>,
    s: spec_fn(int, int) -> bool,
    c: Color,
)
    requires
        layered(a, b, layers),
        painted(b, d, s, c),
    ensures
        layered(a, d, layers.push((s, c))),
{
    assert(layers.push((s, c)).drop_last() =~= layers);
    assert forall|x: int, y: int| d.in_bounds(x, y) implies #[trigger] d.pixel(x, y) == shade(
        layers.push((s, c)),
        x,
        y,
        a.pixel(x, y),
    ) by {
        assert(d.pixel(x, y) == (if s(x, y) { c } else { b.pixel(x, y) }));
        assert(b.pixel(x, y) == shade(layers, x, y, a.pixel(x, y)));
    }
}

/// Setting the colour and then painting a shape in it adds the shape as the top layer.
pub proof fn lemma_layered_push_colored(
    a: Framebuffer,
    b: Framebuffer,
    b2: Framebuffer,
    d: Framebuffer,
    layers: Seq<(spec_fn(int, int) -> bool, Color)>,
    s: spec_fn(int, int) -> bool,
    c: Color,
)
    requires
        layered(a, b, layers),
        painted(b, b2, |x: int, y: int| false, c),
        painted(b2, d, s, c),
    ensures
        layered(a, d, layers.push((s, c))),
{
    lemma_painted_compose(b, b2, d, |x: int, y: int| false, s, c);
    lemma_painted_same_shape(b, d, |x: int, y: int| false || s(x, y), s, c);
    lemma_layered_push(a, b, d, layers, s, c);
}

/// Two stacks of layers painted one after the other make one stack.
pub proof fn lemma_layered_concat(
    a: Framebuffer,
    b: Framebuffer,
    d: Framebuffer,
    l1: Seq<(spec_fn(int, int) -> bool, Color)>,
    l2: Seq<(spec_fn(int, int) -> bool, Color)>,
)
    requires
        layered(a, b, l1),
        layered(b, d, l2),
    ensures
        layered(a, d, l1 + l2),
{
    assert forall|x: int, y: int| d.in_bounds(x, y) implies #[trigger] d.pixel(x, y) == shade(l1 + l2, x, y, a.pixel(x, y)) by {
        assert(b.pixel(x, y) == shade(l1, x, y, a.pixel(x, y)));
        lemma_shade_concat(l1, l2, x, y, a.pixel(x, y));
    }
}

/// Shading by two stacks is shading by the second over what the first gives.
pub proof fn lemma_shade_concat(
    l1: Seq<(spec_fn(int, int) -> bool, Color)>,
    l2: Seq<(spec_fn(int, int) -> bool, Color)>,
    x: int,
    y: int,
    base: Color,
)
    ensures
        shade(l1 + l2, x, y, base) == shade(l2, x, y, shade(l1, x, y, base)),
    decreases l2.len(),
{
    if l2.len() == 0 {
        assert(l1 + l2 =~= l1);
    } else {
        assert((l1 + l2).drop_last() =~= l1 + l2.drop_last());
        assert((l1 + l2).last() == l2.last());
        lemma_shade_concat(l1, l2.drop_last(), x, y, base);
    }
}

/// A layer put on top decides the colour of the points it covers and leaves
/// the others as the stack below gives them.
pub proof fn lemma_shade_push(
    layers: Seq<(spec_fn(int, int) -> bool, Color)>,
    layer: (spec_fn(int, int) -> bool, Color),
    x: int,
    y: int,
    base: Color,
)
    ensures
        shade(layers.push(layer), x, y, base) == (if (layer.0)(x, y) {
            layer.1
        } else {
            shade(layers, x, y, base)
        }),
{
    assert(layers.push(layer).drop_last() =~= layers);
}

/// Layers that do not cover a point leave it as it was.
pub proof fn lemma_shade_uncovered(layers: Seq<(spec_fn(int, int) -> bool, Color)>, x: int, y: int, base: Color)
    requires
        forall|i: int| 0 <= i < layers.len() ==> !(#[trigger] layers[i].0)(x, y),
    ensures
        shade(layers, x, y, base) == base,
    decreases layers.len(),
{
    if layers.len() > 0 {
        assert(!(layers[layers.len() - 1].0)(x, y));
        lemma_shade_uncovered(layers.drop_last(), x, y, base);
    }
}

impl Framebuffer {
    /// The buffer holds exactly one colour per pixel.
    pub closed spec fn wf(&self) -> bool {
        self.color_buffer@.len() == self.width as int * self.height as int
    }

    /// Width in pixels.
    pub closed spec fn w(&self) -> int {
        self.width as int
    }

    /// Height in pixels.
    pub closed spec fn h(&self) -> int {
        self.height as int
    }

    /// The colour that `clear` fills the buffer with.
    pub closed spec fn background(&self) -> Color {
        self.background_color
    }

    /// The colour that drawing uses.
    pub closed spec fn current(&self) -> Color {
        self.current_color
    }

    /// The colour of pixel `(x, y)`.
    pub closed spec fn pixel(&self, x: int, y: int) -> Color {
        self.color_buffer@[y * self.width + x]
    }

    /// `(x, y)` lies on the screen.
    pub open spec fn in_bounds(&self, x: int, y: int) -> bool {
        0 <= x < self.w() && 0 <= y < self.h()
    }

    /// A `width x height` framebuffer filled with `background_color`, drawing in white.
    pub fn new(width: u32, height: u32, background_color: Color) -> (fb: Framebuffer)
        requires
            width * height <= usize::MAX,
        ensures
            fb.wf(),
            fb.w() == width,
            fb.h() == height,
            fb.background() == background_color,
            fb.current() == Color::white(),
            forall|x: int, y: int| fb.in_bounds(x, y) ==> #[trigger] fb.pixel(x, y) == background_color,
    {
        let n: usize = (width as usize) * (height as usize);
        let color_buffer = vec![background_color; n];
        let fb = Framebuffer {
            width,
            height,
            color_buffer,
            background_color,
            current_color: Color::white(),
        };
        assert forall|x: int, y: int| fb.in_bounds(x, y) implies #[trigger] fb.pixel(x, y) == background_color by {
            lemma_index_in_range(width as int, height as int, x, y);
        }
        fb
    }

    /// Width in pixels.
    pub fn width(&self) -> (r: u32)
        ensures
            r == self.w(),
    {
        self.width
    }

    /// Height in pixels.
    pub fn height(&self) -> (r: u32)
        ensures
            r == self.h(),
    {
        self.height
    }

    /// The current drawing colour.
    pub fn current_color(&self) -> (c: Color)
        ensures
            c == self.current(),
    {
        self.current_color
    }

    /// The pixels, row by row.
    pub fn color_buffer(&self) -> (buf: &Vec<Color>)
        requires
            self.wf(),
        ensures
            buf@.len() == self.w() * self.h(),
            forall|x: int, y: int| self.in_bounds(x, y) ==> #[trigger] self.pixel(x, y) == buf@[y * self.w() + x],
    {
        &self.color_buffer
    }

    /// The colour of pixel `(x, y)`.
    pub fn get_pixel(&self, x: u32, y: u32) -> (c: Color)
        requires
            self.wf(),
            self.in_bounds(x as int, y as int),
        ensures
            c == self.pixel(x as int, y as int),
    {
        let n: usize = self.color_buffer.len();
        proof {
            lemma_index_in_range(self.width as int, self.height as int, x as int, y as int);
        }
        self.color_buffer[(y as usize) * (self.width as usize) + (x as usize)]
    }

    /// Fills the whole buffer with the background colour.
    pub fn clear(&mut self)
        requires
            old(self).wf(),
        ensures
            painted(*old(self), *final(self), |x: int, y: int| true, old(self).background()),
            final(self).current() == old(self).current(),
    {
        let n: usize = self.color_buffer.len();
        self.color_buffer = vec![self.background_color; n];
        assert forall|x: int, y: int| self.in_bounds(x, y) implies #[trigger] self.pixel(x, y) == self.background_color by {
            lemma_index_in_range(self.width as int, self.height as int, x, y);
        }
    }

    /// Paints pixel `(x, y)` in the current colour when it lies on the screen.
    pub fn set_pixel(&mut self, x: i32, y: i32)
        requires
            old(self).wf(),
        ensures
            painted(*old(self), *final(self), |px: int, py: int| px == x && py == y, old(self).current()),
            final(self).current() == old(self).current(),
    {
        if x >= 0 && y >= 0 && (x as u32) < self.width && (y as u32) < self.height {
            let n: usize = self.color_buffer.len();
            proof {
                lemma_index_in_range(self.width as int, self.height as int, x as int, y as int);
            }
            let idx: usize = (y as usize) * (self.width as usize) + (x as usize);
            let c = self.current_color;
            self.color_buffer.set(idx, c);
            proof {
                assert forall|px: int, py: int| self.in_bounds(px, py) && !(px == x && py == y) implies
                    #[trigger] self.pixel(px, py) == old(self).pixel(px, py) by {
                    lemma_index_in_range(self.width as int, self.height as int, px, py);
                    if py * self.width + px == idx as int {
                        lemma_index_injective(self.width as int, px, py, x as int, y as int);
                    }
                }
            }
        }
    }

    /// Sets the colour used by `clear`.
    pub fn set_background_color(&mut self, color: Color)
        requires
            old(self).wf(),
        ensures
            final(self).wf(),
            final(self).w() == old(self).w(),
            final(self).h() == old(self).h(),
            final(self).background() == color,
            final(self).current() == old(self).current(),
            forall|x: int, y: int| final(self).in_bounds(x, y) ==> #[trigger] final(self).pixel(x, y) == old(self).pixel(x, y),
    {
        self.background_color = color;
    }

    /// Sets the drawing colour.
    pub fn set_current_color(&mut self, color: Color)
        requires
            old(self).wf(),
        ensures
            painted(*old(self), *final(self), |x: int, y: int| false, color),
            final(self).current() == color,
    {
        self.current_color = color;
    }

    /// Paints the rectangle `[x, x + w) x [y, y + h)` in the current colour
    /// (nothing when `w` or `h` is not positive).
    pub fn fill_rect(&mut self, x: i32, y: i32, w: i32, h: i32)
        requires
            old(self).wf(),
            x + w <= i32::MAX + 1,
            y + h <= i32::MAX + 1,
        ensures
            painted(*old(self), *final(self), rect(x as int, y as int, w as int, h as int), old(self).current()),
            final(self).current() == old(self).current(),
    {
        let ghost c = self.current();
        let mut dx: i32 = 0;
        while dx < w
            invariant
                0 <= dx,
                dx <= w || dx == 0,
                x + w <= i32::MAX + 1,
                y + h <= i32::MAX + 1,
                c == old(self).current(),
                self.current() == c,
                painted(*old(self), *self, rect(x as int, y as int, dx as int, h as int), c),
            decreases w - dx,
        {
            let mut dy: i32 = 0;
            while dy < h
                invariant
                    0 <= dx < w,
                    0 <= dy,
                    dy <= h || dy == 0,
                    x + w <= i32::MAX + 1,
                    y + h <= i32::MAX + 1,
                    c == old(self).current(),
                    self.current() == c,
                    painted(
                        *old(self),
                        *self,
                        |px: int, py: int|
                            rect(x as int, y as int, dx as int, h as int)(px, py) || (px == x + dx && y <= py < y + dy),
                        c,
                    ),
                decreases h - dy,
            {
                let ghost prev = *self;
                self.set_pixel(x + dx, y + dy);
                proof {
                    let ghost s = |px: int, py: int|
                        rect(x as int, y as int, dx as int, h as int)(px, py) || (px == x + dx && y <= py < y + dy);
                    lemma_painted_compose(*old(self), prev, *self, s, |px: int, py: int| px == x + dx && py == y + dy, c);
                }
                dy += 1;
            }
            dx += 1;
        }
    }
}

} // verus!
