use vstd::prelude::*;

use crate::util::Rgb;

verus! {

/// A fixed-size grid of pixels stored row by row.
pub struct Raster {
    pub width: u32,
    pub height: u32,
    pub pixels: Vec<Rgb>,
}

/// Position of pixel (x, y) in a row-major grid `w` pixels wide.
pub open spec fn index_of(w: int, x: int, y: int) -> int {
    y * w + x
}

pub proof fn lemma_index_in_bounds(w: int, h: int, x: int, y: int)
    requires
        0 <= x < w,
        0 <= y < h,
    ensures
        0 <= y * w <= index_of(w, x, y) < w * h,
{
    assert(0 <= y * w <= y * w + x < w * h) by (nonlinear_arith)
        requires
            0 <= x < w,
            0 <= y < h,
    ;
}

pub proof fn lemma_index_injective(w: int, x1: int, y1: int, x2: int, y2: int)
    requires
        0 <= x1 < w,
        0 <= x2 < w,
        0 <= y1,
        0 <= y2,
        index_of(w, x1, y1) == index_of(w, x2, y2),
    ensures
        x1 == x2,
        y1 == y2,
{
    if y1 < y2 {
        assert(y1 * w + x1 < y2 * w + x2) by (nonlinear_arith)
            requires
                0 <= x1 < w,
                0 <= x2,
                y1 < y2,
        ;
    } else if y2 < y1 {
        assert(y2 * w + x2 < y1 * w + x1) by (nonlinear_arith)
            requires
                0 <= x2 < w,
                0 <= x1,
                y2 < y1,
        ;
    }
}

impl Raster {
    /// The pixel buffer holds exactly one pixel per grid position.
    pub open spec fn wf(&self) -> bool {
        self.pixels@.len() == self.width * self.height
    }

    pub open spec fn in_bounds(&self, x: int, y: int) -> bool {
        0 <= x < self.width && 0 <= y < self.height
    }

    /// The pixel at column `x`, row `y`.
    pub open spec fn pixel(&self, x: int, y: int) -> Rgb {
        self.pixels@[index_of(self.width as int, x, y)]
    }

    /// The pixels of the `w` by `h` rectangle at (x, y), column by column,
    /// each column from top to bottom.
    pub open spec fn rect(&self, x: int, y: int, w: int, h: int) -> Seq<Rgb>
        decreases w,
    {
        if w <= 0 {
            Seq::empty()
        } else {
            self.rect(x, y, w - 1, h) + Seq::new(h as nat, |j: int| self.pixel(x + w - 1, y + j))
        }
    }

    pub proof fn lemma_rect_len(&self, x: int, y: int, w: int, h: int)
        requires
            w >= 0,
            h >= 0,
        ensures
            self.rect(x, y, w, h).len() == w * h,
        decreases w,
    {
        if w > 0 {
            self.lemma_rect_len(x, y, w - 1, h);
            let col = Seq::new(h as nat, |j: int| self.pixel(x + w - 1, y + j));
            assert(self.rect(x, y, w, h) == self.rect(x, y, w - 1, h) + col);
            assert(col.len() == h);
            assert((w - 1) * h + h == w * h) by (nonlinear_arith);
        } else {
            assert(0 * h == 0);
        }
    }

    /// Every pixel of a rectangle is one of the grid's pixels inside it.
    pub proof fn lemma_rect_elements(&self, x: int, y: int, w: int, h: int, k: int)
        requires
            w >= 0,
            h >= 0,
            0 <= k < self.rect(x, y, w, h).len(),
        ensures
            exists|px: int, py: int|
                x <= px < x + w && y <= py < y + h && self.rect(x, y, w, h)[k] == self.pixel(
                    px,
                    py,
                ),
        decreases w,
    {
        self.lemma_rect_len(x, y, w - 1, h);
        if k < self.rect(x, y, w - 1, h).len() {
            self.lemma_rect_elements(x, y, w - 1, h, k);
        } else {
            let j = k - self.rect(x, y, w - 1, h).len();
            assert(self.rect(x, y, w, h)[k] == self.pixel(x + w - 1, y + j));
        }
    }

    /// A `width` by `height` raster filled with the zero color.
    pub fn new(width: u32, height: u32) -> (r: Raster)
        requires
            width * height <= usize::MAX,
        ensures
            r.wf(),
            r.width == width,
            r.height == height,
            forall|x: int, y: int|
                r.in_bounds(x, y) ==> #[trigger] r.pixel(x, y) == (Rgb { r: 0, g: 0, b: 0 }),
    {
        let n: usize = (width as usize) * (height as usize);
        let mut pixels: Vec<Rgb> = Vec::new();
        let mut i: usize = 0;
        while i < n
            invariant
                i <= n,
                pixels@.len() == i,
                forall|k: int| 0 <= k < i ==> #[trigger] pixels@[k] == (Rgb { r: 0, g: 0, b: 0 }),
            decreases n - i,
        {
            pixels.push(Rgb { r: 0, g: 0, b: 0 });
            i = i + 1;
        }
        let r = Raster { width, height, pixels };
        assert forall|x: int, y: int| r.in_bounds(x, y) implies #[trigger] r.pixel(x, y) == (Rgb {
            r: 0,
            g: 0,
            b: 0,
        }) by {
            lemma_index_in_bounds(width as int, height as int, x, y);
        }
        r
    }

    /// A raster over the given row-major pixels; `None` when their number is
    /// not `width * height`.
    pub fn from_pixels(width: u32, height: u32, pixels: Vec<Rgb>) -> (r: Option<Raster>)
        ensures
            r is Some <==> pixels@.len() == width * height,
            r is Some ==> r->0.wf() && r->0.width == width && r->0.height == height
                && r->0.pixels@ == pixels@,
    {
        let w: u64 = width as u64;
        let h: u64 = height as u64;
        assert(w * h <= u64::MAX) by (nonlinear_arith)
            requires
                w <= u32::MAX,
                h <= u32::MAX,
        ;
        if pixels.len() as u64 == w * h {
            Some(Raster { width, height, pixels })
        } else {
            None
        }
    }

    pub fn get_pixel(&self, x: u32, y: u32) -> (r: Rgb)
        requires
            self.wf(),
            self.in_bounds(x as int, y as int),
        ensures
            r == self.pixel(x as int, y as int),
    {
        // The buffer's length, a usize, bounds the index arithmetic below.
        let _len: usize = self.pixels.len();
        proof {
            lemma_index_in_bounds(self.width as int, self.height as int, x as int, y as int);
        }
        self.pixels[(y as usize) * (self.width as usize) + (x as usize)]
    }

    pub fn put_pixel(&mut self, x: u32, y: u32, p: Rgb)
        requires
            old(self).wf(),
            old(self).in_bounds(x as int, y as int),
        ensures
            final(self).wf(),
            final(self).width == old(self).width,
            final(self).height == old(self).height,
            forall|px: int, py: int|
                #![trigger final(self).pixel(px, py)]
                final(self).in_bounds(px, py) ==> final(self).pixel(px, py) == if px == x && py
                    == y {
                    p
                } else {
                    old(self).pixel(px, py)
                },
    {
        // The buffer's length, a usize, bounds the index arithmetic below.
        let _len: usize = self.pixels.len();
        proof {
            lemma_index_in_bounds(self.width as int, self.height as int, x as int, y as int);
        }
        let i: usize = (y as usize) * (self.width as usize) + (x as usize);
        self.pixels.set(i, p);
        assert forall|px: int, py: int|
            #![trigger self.pixel(px, py)]
            self.in_bounds(px, py) implies self.pixel(px, py) == if px == x && py == y {
                p
            } else {
                old(self).pixel(px, py)
            } by {
            lemma_index_in_bounds(self.width as int, self.height as int, px, py);
            if index_of(self.width as int, px, py) == i {
                lemma_index_injective(self.width as int, px, py, x as int, y as int);
            }
        }
    }
}

} // verus!
