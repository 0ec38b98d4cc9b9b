use vstd::prelude::*;

verus! {

/// A packed `0xRRGGBB` pixel buffer with a current drawing color.
pub struct Framebuffer {
    pub width: usize,
    pub height: usize,
    pub buffer: Vec<u32>,
    pub current_color: u32,
}

impl Framebuffer {
    /// Buffer length matches the dimensions.
    pub open spec fn wf(&self) -> bool {
        self.buffer@.len() == self.width * self.height
    }

    /// The color stored at pixel `(x, y)`.
    pub open spec fn pixel(&self, x: int, y: int) -> u32 {
        self.buffer@[y * self.width + x]
    }

    /// Same size and current color as `other`.
    pub open spec fn same_shape(&self, other: &Framebuffer) -> bool {
        &&& self.width == other.width
        &&& self.height == other.height
        &&& self.buffer@.len() == other.buffer@.len()
    }

    /// A `width` by `height` buffer filled with, and drawing in, `background`.
    pub fn new(width: usize, height: usize, background: u32) -> (r: Framebuffer)
        requires
            width * height <= usize::MAX,
        ensures
            r.wf(),
            r.width == width,
            r.height == height,
            r.current_color == background,
            forall|x: int, y: int|
                0 <= x < width && 0 <= y < height ==> #[trigger] r.pixel(x, y) == background,
    {
        let n: usize = width * height;
        let buffer: Vec<u32> = vec![background; n];
        let r = Framebuffer { width, height, buffer, current_color: background };
        assert forall|x: int, y: int|
            0 <= x < width && 0 <= y < height implies #[trigger] r.pixel(x, y) == background by {
            lemma_index_in_bounds(width as int, height as int, x, y);
        }
        r
    }

    /// Sets the color that later points are plotted in.
    pub fn set_current_color(&mut self, color: u32)
        ensures
            final(self).current_color == color,
            final(self).width == old(self).width,
            final(self).height == old(self).height,
            final(self).buffer@ == old(self).buffer@,
            forall|a: int, b: int| #[trigger] final(self).pixel(a, b) == old(self).pixel(a, b),
    {
        self.current_color = color;
    }

    /// Plots the current color at `(x, y)`; a point outside the buffer is ignored.
    pub fn point(&mut self, x: usize, y: usize)
        requires
            old(self).wf(),
        ensures
            final(self).wf(),
            final(self).same_shape(old(self)),
            final(self).current_color == old(self).current_color,
            forall|a: int, b: int|
                0 <= a < old(self).width && 0 <= b < old(self).height ==> #[trigger] final(self).pixel(a, b) == if a == x && b == y {
                    old(self).current_color
                } else {
                    old(self).pixel(a, b)
                },
    {
        let _count: usize = self.buffer.len();
        if x < self.width && y < self.height {
            proof {
                lemma_index_in_bounds(self.width as int, self.height as int, x as int, y as int);
            }
            let k: usize = y * self.width + x;
            self.buffer.set(k, self.current_color);
            proof {
                assert forall|a: int, b: int|
                    0 <= a < old(self).width && 0 <= b < old(self).height implies #[trigger] self.pixel(a, b)
                    == if a == x && b == y {
                    old(self).current_color
                } else {
                    old(self).pixel(a, b)
                } by {
                    lemma_index_in_bounds(self.width as int, self.height as int, a, b);
                    if a != x || b != y {
                        lemma_index_distinct(self.width as int, a, b, x as int, y as int);
                    }
                }
            }
        }
    }
}

/// A pixel inside a `w` by `h` buffer has a row-major index below `w * h`.
pub proof fn lemma_index_in_bounds(w: int, h: int, x: int, y: int)
    requires
        0 <= x < w,
        0 <= y < h,
    ensures
        0 <= y * w + x < w * h,
{
    assert(y * w + x < w * h) by (nonlinear_arith)
        requires
            0 <= x < w,
            0 <= y < h,
    ;
    assert(0 <= y * w) by (nonlinear_arith)
        requires
            0 <= y,
            0 <= w,
    ;
}

/// Distinct pixels of one row width have distinct row-major indices.
pub proof fn lemma_index_distinct(w: int, a: int, b: int, x: int, y: int)
    requires
        0 <= a < w,
        0 <= x < w,
        0 <= b,
        0 <= y,
        a != x || b != y,
    ensures
        b * w + a != y * w + x,
{
    if b == y {
    } else if b < y {
        assert(b * w + a < y * w + x) by (nonlinear_arith)
            requires
                0 <= a < w,
                0 <= x,
                b < y,
        ;
    } else {
        assert(y * w + x < b * w + a) by (nonlinear_arith)
            requires
                0 <= x < w,
                0 <= a,
                y < b,
        ;
    }
}

} // verus!
