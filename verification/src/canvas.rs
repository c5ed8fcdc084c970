//! A rectangular grid of pixels, row-major with x as the fast axis.

use vstd::prelude::*;

use crate::color::{colorv_wf, Color, Colorv};
use crate::rat::zero_v;

verus! {

/// A canvas of pixels: a `width` by `height` grid of colors, stored
/// row-major and indexed by `(x, y)` with x varying fastest.
#[derive(Clone, Debug)]
pub struct Canvas {
    pub width: usize,
    pub height: usize,
    pixels: Vec<Color>,
}

impl View for Canvas {
    type V = Seq<Colorv>;

    closed spec fn view(&self) -> Seq<Colorv> {
        self.pixels@.map(|i: int, c: Color| c@)
    }
}

impl Canvas {
    /// The recorded width, for contracts.
    pub closed spec fn spec_width(&self) -> int {
        self.width as int
    }

    /// The recorded height, for contracts.
    pub closed spec fn spec_height(&self) -> int {
        self.height as int
    }

    /// The grid holds exactly one well-formed color per cell.
    pub closed spec fn wf(self) -> bool {
        &&& self@.len() == self.width * self.height
        &&& forall|k: int|
            0 <= k < self@.len() ==> colorv_wf(#[trigger] self@[k])
    }

    /// A canvas of the given size with every pixel black.
    pub fn new(width: usize, height: usize) -> (c: Canvas)
        requires
            width * height <= usize::MAX,
        ensures
            c.wf(),
            c.spec_width() == width as int,
            c.spec_height() == height as int,
            c@.len() == width * height,
            forall|k: int|
                0 <= k < c@.len() ==> #[trigger] c@[k] == (Colorv {
                    r: zero_v(),
                    g: zero_v(),
                    b: zero_v(),
                }),
    {
        let n = width * height;
        let mut pixels: Vec<Color> = Vec::new();
        let mut k: usize = 0;
        while k < n
            invariant
                k <= n,
                pixels@.len() == k,
                forall|a: int|
                    0 <= a < k ==> (#[trigger] pixels@[a])@ == (Colorv {
                        r: zero_v(),
                        g: zero_v(),
                        b: zero_v(),
                    }),
            decreases n - k,
        {
            pixels.push(Color::default());
            k += 1;
        }
        let c = Canvas { width, height, pixels };
        proof {
            assert forall|a: int| 0 <= a < c@.len() implies #[trigger] c@[a] == (Colorv {
                r: zero_v(),
                g: zero_v(),
                b: zero_v(),
            }) by {
                assert(c@[a] == c.pixels@[a]@);
            }
        }
        c
    }

    /// The pixel at `(x, y)`.
    pub fn pixel_at(&self, x: usize, y: usize) -> (c: Color)
        requires
            self.wf(),
            (x as int) < self.spec_width(),
            (y as int) < self.spec_height(),
        ensures
            c@ == self@[y as int * self.spec_width() + x as int],
            c.wf(),
    {
        let n = self.pixels.len();
        proof {
            lemma_grid_index(self.width as int, self.height as int, x as int, y as int);
            assert(y * self.spec_width() + x < n);
        }
        let c = self.pixels[y * self.width + x];
        proof {
            assert(self@[(y * self.width + x) as int] == self.pixels@[(y * self.width
                + x) as int]@);
            assert(colorv_wf(self@[y as int * self.spec_width() + x as int]));
        }
        c
    }

    /// Overwrites the pixel at `(x, y)`.
    pub fn set_pixel(&mut self, x: usize, y: usize, c: Color)
        requires
            old(self).wf(),
            (x as int) < old(self).spec_width(),
            (y as int) < old(self).spec_height(),
            c.wf(),
        ensures
            final(self).wf(),
            final(self).spec_width() == old(self).spec_width(),
            final(self).spec_height() == old(self).spec_height(),
            final(self)@ == old(self)@.update(y as int * old(self).spec_width() + x as int, c@),
    {
        let n = self.pixels.len();
        proof {
            lemma_grid_index(self.width as int, self.height as int, x as int, y as int);
            assert(y * self.spec_width() + x < n);
        }
        let idx = y * self.width + x;
        self.pixels.set(idx, c);
        proof {
            assert(self@ =~= old(self)@.update(idx as int, c@));
        }
    }

    /// All pixels in row-major order, as a fresh vector.
    pub fn iter_pixels(&self) -> (v: Vec<Color>)
        requires
            self.wf(),
        ensures
            v@.map(|i: int, c: Color| c@) == self@,
    {
        let n = self.pixels.len();
        let mut out: Vec<Color> = Vec::new();
        let mut k: usize = 0;
        while k < n
            invariant
                k <= n,
                n == self.pixels@.len(),
                out@.len() == k,
                forall|a: int| 0 <= a < k ==> (#[trigger] out@[a])@ == self@[a],
            decreases n - k,
        {
            proof {
                assert(self@[k as int] == self.pixels@[k as int]@);
            }
            out.push(self.pixels[k]);
            k += 1;
        }
        proof {
            assert forall|a: int| 0 <= a < n implies out@.map(|i: int, c: Color| c@)[a]
                == self@[a] by {
                assert(out@.map(|i: int, c: Color| c@)[a] == out@[a]@);
            }
            assert(out@.map(|i: int, c: Color| c@) =~= self@);
        }
        out
    }
}

/// Row-major indexing stays within a `w` by `h` grid.
proof fn lemma_grid_index(w: int, h: int, x: int, y: int)
    requires
        0 <= x < w,
        0 <= y < h,
    ensures
        0 <= y * w + x < w * h,
{
    assert(y * w + x < w * h) by (nonlinear_arith)
        requires
            0 <= x < w,
            0 <= y < h,
    ;
    assert(y * w >= 0) by (nonlinear_arith)
        requires
            y >= 0,
            w > 0,
    ;
}

} // verus!
