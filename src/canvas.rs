//! A rectangular buffer of pixels, stored row by row.
use vstd::prelude::*;

verus! {

/// A `width` by `height` image whose pixel `(x, y)` is at place
/// `y * width + x`.
pub struct Canvas<T> {
    width: usize,
    height: usize,
    data: Vec<T>,
}

proof fn lemma_cell(w: int, h: int, x: int, y: int)
    requires
        0 <= x < w,
        0 <= y < h,
    ensures
        0 <= y * w <= y * w + x < w * h,
{
    assert(0 <= y * w <= y * w + x < w * h) by (nonlinear_arith)
        requires 0 <= x < w, 0 <= y < h;
}

impl<T: Copy> Canvas<T> {
    pub closed spec fn spec_width(&self) -> nat {
        self.width as nat
    }

    pub closed spec fn spec_height(&self) -> nat {
        self.height as nat
    }

    /// The pixels, row by row.
    pub closed spec fn pixels(&self) -> Seq<T> {
        self.data@
    }

    /// The pixels are exactly the cells of the image, and their count fits
    /// in `usize`.
    pub open spec fn wf(&self) -> bool {
        &&& self.pixels().len() == self.spec_width() * self.spec_height()
        &&& self.spec_width() * self.spec_height() <= usize::MAX
    }

    /// Place of pixel `(x, y)` among the pixels.
    pub open spec fn cell(&self, x: int, y: int) -> int {
        y * self.spec_width() + x
    }

    /// A canvas with every pixel set to `fill`.
    pub fn new(width: usize, height: usize, fill: T) -> (r: Canvas<T>)
        requires
            width * height <= usize::MAX,
        ensures
            r.wf(),
            r.spec_width() == width,
            r.spec_height() == height,
            r.pixels() == Seq::new((width * height) as nat, |i: int| fill),
    {
        let n = width * height;
        let mut data: Vec<T> = Vec::new();
        let mut i: usize = 0;
        while i < n
            invariant
                i <= n,
                data@ == Seq::new(i as nat, |j: int| fill),
            decreases n - i,
        {
            data.push(fill);
            i = i + 1;
            assert(data@ =~= Seq::new(i as nat, |j: int| fill));
        }
        Canvas { width, height, data }
    }

    pub fn width(&self) -> (r: usize)
        ensures
            r == self.spec_width(),
    {
        self.width
    }

    pub fn height(&self) -> (r: usize)
        ensures
            r == self.spec_height(),
    {
        self.height
    }

    /// The pixel at `(x, y)`.
    pub fn get(&self, x: usize, y: usize) -> (r: T)
        requires
            self.wf(),
            x < self.spec_width(),
            y < self.spec_height(),
        ensures
            r == self.pixels()[self.cell(x as int, y as int)],
    {
        proof {
            lemma_cell(self.width as int, self.height as int, x as int, y as int);
        }
        self.data[y * self.width + x]
    }

    /// The pixel at `(x, y)`, to change in place.
    pub fn get_mut(&mut self, x: usize, y: usize) -> (r: &mut T)
        requires
            old(self).wf(),
            x < old(self).spec_width(),
            y < old(self).spec_height(),
        ensures
            *r == old(self).pixels()[old(self).cell(x as int, y as int)],
            final(self).wf(),
            final(self).spec_width() == old(self).spec_width(),
            final(self).spec_height() == old(self).spec_height(),
            final(self).pixels() == old(self).pixels().update(old(self).cell(x as int, y as int), *final(r)),
    {
        proof {
            lemma_cell(self.width as int, self.height as int, x as int, y as int);
        }
        let i = y * self.width + x;
        &mut self.data[i]
    }

    /// Sets the pixel at `(x, y)`.
    pub fn set(&mut self, x: usize, y: usize, color: T)
        requires
            old(self).wf(),
            x < old(self).spec_width(),
            y < old(self).spec_height(),
        ensures
            final(self).wf(),
            final(self).spec_width() == old(self).spec_width(),
            final(self).spec_height() == old(self).spec_height(),
            final(self).pixels() == old(self).pixels().update(old(self).cell(x as int, y as int), color),
    {
        proof {
            lemma_cell(self.width as int, self.height as int, x as int, y as int);
        }
        let i = y * self.width + x;
        self.data.set(i, color);
    }
}

} // verus!
