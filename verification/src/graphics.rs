//! The pixel buffer.
//!
//! An [`Image`] stores its pixels row by row and is generic in the pixel type,
//! so that a renderer can fill it with unclamped radiance while an encoder
//! works on quantised colours.

use vstd::prelude::*;

verus! {

/// Row `y` of a `width` by `height` grid lies inside the row-major buffer.
proof fn lemma_row_in_bounds(width: int, height: int, y: int)
    requires
        0 <= width,
        0 <= y < height,
    ensures
        0 <= y * width,
        y * width + width <= width * height,
{
    assert(0 <= y * width && y * width + width <= width * height) by (nonlinear_arith)
        requires
            0 <= width,
            0 <= y,
            y + 1 <= height,
    ;
}

/// Two cells of a grid share a place in the row-major buffer only if they are
/// the same cell.
proof fn lemma_cell_distinct(width: int, x1: int, y1: int, x2: int, y2: int)
    requires
        0 <= x1 < width,
        0 <= x2 < width,
        y1 != y2,
    ensures
        y1 * width + x1 != y2 * width + x2,
{
    assert(y1 * width + x1 != y2 * width + x2) by (nonlinear_arith)
        requires
            0 <= x1 < width,
            0 <= x2 < width,
            y1 != y2,
    ;
}

/// Cuts a row-major buffer into `height` rows of `width` pixels.
spec fn rows_of<P>(width: int, height: int, pixels: Seq<P>) -> Seq<Seq<P>> {
    Seq::new(height as nat, |y: int| pixels.subrange(y * width, y * width + width))
}

/// Changing one place of a row-major buffer changes one pixel of one row.
proof fn lemma_rows_of_update<P>(
    width: int,
    height: int,
    pixels: Seq<P>,
    x: int,
    y: int,
    value: P,
)
    requires
        pixels.len() == width * height,
        0 <= x < width,
        0 <= y < height,
    ensures
        rows_of(width, height, pixels.update(y * width + x, value)) == rows_of(
            width,
            height,
            pixels,
        ).update(y, rows_of(width, height, pixels)[y].update(x, value)),
{
    lemma_row_in_bounds(width, height, y);
    let before = rows_of(width, height, pixels);
    let after = rows_of(width, height, pixels.update(y * width + x, value));
    assert(before[y].len() == width);
    let target = before.update(y, before[y].update(x, value));
    assert forall|r: int| 0 <= r < height implies #[trigger] after[r] == target[r] by {
        lemma_row_in_bounds(width, height, r);
        assert(target[r].len() == width);
        assert forall|c: int| 0 <= c < width implies after[r][c] == target[r][c] by {
            if r != y {
                lemma_cell_distinct(width, c, r, x, y);
            }
        }
        assert(after[r] =~= target[r]);
    }
    assert(after =~= target);
}

/// A rectangular pixel buffer, stored row by row.
pub struct Image<P> {
    width: usize,
    height: usize,
    pixels: Vec<P>,
}

impl<P> View for Image<P> {
    type V = Seq<Seq<P>>;

    /// The rows of the image, top row first; `self@[y][x]` is the pixel in
    /// column `x` of row `y`.
    closed spec fn view(&self) -> Seq<Seq<P>> {
        rows_of(self.width as int, self.height as int, self.pixels@)
    }
}

impl<P> Image<P> {
    /// The buffer holds exactly `width * height` pixels.
    #[verifier::type_invariant]
    spec fn inv(&self) -> bool {
        self.pixels@.len() == self.width * self.height
    }

    pub closed spec fn spec_width(&self) -> usize {
        self.width
    }

    pub closed spec fn spec_height(&self) -> usize {
        self.height
    }

    /// The number of pixels in a row.
    #[verifier::when_used_as_spec(spec_width)]
    pub fn width(&self) -> (width: usize)
        ensures
            width == self.spec_width(),
            self.wf(),
    {
        proof {
            use_type_invariant(self);
            self.lemma_shape();
        }
        self.width
    }

    /// The number of rows.
    #[verifier::when_used_as_spec(spec_height)]
    pub fn height(&self) -> (height: usize)
        ensures
            height == self.spec_height(),
            self.wf(),
    {
        proof {
            use_type_invariant(self);
            self.lemma_shape();
        }
        self.height
    }

    /// The image is a grid: `height` rows of `width` pixels each.
    pub open spec fn wf(&self) -> bool {
        &&& self@.len() == self.height()
        &&& forall|y: int| 0 <= y < self.height() ==> (#[trigger] self@[y]).len() == self.width()
    }

    proof fn lemma_shape(&self)
        requires
            self.inv(),
        ensures
            self.wf(),
    {
        assert forall|y: int| 0 <= y < self.height implies (#[trigger] self@[y]).len()
            == self.width by {
            lemma_row_in_bounds(self.width as int, self.height as int, y);
        }
    }

    /// An image of the given size with every pixel set to `fill`.
    pub fn new(width: usize, height: usize, fill: P) -> (image: Self) where P: Copy
        requires
            width * height <= usize::MAX,
        ensures
            image.wf(),
            image.width() == width,
            image.height() == height,
            image@ == Seq::new(height as nat, |y: int| Seq::new(width as nat, |x: int| fill)),
    {
        let count: usize = width * height;
        let mut pixels: Vec<P> = Vec::new();
        while pixels.len() < count
            invariant
                pixels@.len() <= count,
                forall|i: int| 0 <= i < pixels@.len() ==> pixels@[i] == fill,
            decreases count - pixels@.len(),
        {
            pixels.push(fill);
        }
        let image = Image { width, height, pixels };
        proof {
            image.lemma_shape();
            let blank = Seq::new(height as nat, |y: int| Seq::new(width as nat, |x: int| fill));
            assert forall|y: int| 0 <= y < height implies #[trigger] image@[y] == blank[y] by {
                lemma_row_in_bounds(width as int, height as int, y);
                assert(image@[y] =~= blank[y]);
            }
            assert(image@ =~= blank);
        }
        image
    }

    /// The pixel in column `x` of row `y`.
    pub fn get(&self, x: usize, y: usize) -> (pixel: &P)
        requires
            x < self.width(),
            y < self.height(),
        ensures
            *pixel == self@[y as int][x as int],
    {
        let _ = self.pixels.len();
        proof {
            use_type_invariant(self);
            lemma_row_in_bounds(self.width as int, self.height as int, y as int);
        }
        &self.pixels[y * self.width + x]
    }

    /// A handle on the pixel in column `x` of row `y`; what is written through
    /// it becomes that pixel, and no other pixel changes.
    pub fn at(&mut self, x: usize, y: usize) -> (pixel: &mut P)
        requires
            x < old(self).width(),
            y < old(self).height(),
        ensures
            *pixel == old(self)@[y as int][x as int],
            final(self).wf(),
            final(self).width() == old(self).width(),
            final(self).height() == old(self).height(),
            final(self)@ == old(self)@.update(
                y as int,
                old(self)@[y as int].update(x as int, *final(pixel)),
            ),
    {
        let _ = self.pixels.len();
        proof {
            use_type_invariant(&*self);
            lemma_row_in_bounds(self.width as int, self.height as int, y as int);
            let width = self.width as int;
            let height = self.height as int;
            let pixels = self.pixels@;
            assert forall|value: P| #[trigger]
                rows_of(width, height, pixels.update(y * width + x, value)) == rows_of(
                    width,
                    height,
                    pixels,
                ).update(y as int, rows_of(width, height, pixels)[y as int].update(x as int, value))
                && rows_of(width, height, pixels.update(y * width + x, value)).len() == height
                && (forall|r: int|
                    0 <= r < height ==> (#[trigger] rows_of(
                        width,
                        height,
                        pixels.update(y * width + x, value),
                    )[r]).len() == width) by {
                lemma_rows_of_update(width, height, pixels, x as int, y as int, value);
                assert forall|r: int| 0 <= r < height implies (#[trigger] rows_of(
                    width,
                    height,
                    pixels.update(y * width + x, value),
                )[r]).len() == width by {
                    lemma_row_in_bounds(width, height, r);
                }
            }
        }
        &mut self.pixels[y * self.width + x]
    }

    /// Replaces row `y` by `line` and leaves every other row as it was.
    pub fn set_line(&mut self, line: Vec<P>, y: usize) where P: Copy
        requires
            y < old(self).height(),
            line@.len() == old(self).width(),
        ensures
            final(self).wf(),
            final(self).width() == old(self).width(),
            final(self).height() == old(self).height(),
            final(self)@ == old(self)@.update(y as int, line@),
        no_unwind
    {
        let width = self.width;
        let ghost before = self.pixels@;
        let _ = self.pixels.len();
        proof {
            use_type_invariant(&*self);
            lemma_row_in_bounds(width as int, self.height as int, y as int);
        }
        let start: usize = y * width;
        let mut x: usize = 0;
        while x < width
            invariant
                x <= width,
                width == self.width,
                self.height == old(self).height,
                self.width == old(self).width,
                start == y * width,
                start + width <= before.len(),
                line@.len() == width,
                self.pixels@.len() == before.len(),
                before.len() == self.width * self.height,
                before.len() <= usize::MAX,
                forall|i: int|
                    0 <= i < before.len() && !(start <= i < start + x) ==> self.pixels@[i]
                        == before[i],
                forall|i: int| 0 <= i < x ==> self.pixels@[start + i] == line@[i],
            decreases width - x,
        {
            self.pixels[start + x] = line[x];
            x = x + 1;
        }
        proof {
            self.lemma_shape();
            old(self).lemma_shape();
            let target = old(self)@.update(y as int, line@);
            assert forall|r: int| 0 <= r < self.height implies #[trigger] self@[r] == target[r] by {
                lemma_row_in_bounds(width as int, self.height as int, r);
                assert(target[r].len() == width);
                assert forall|c: int| 0 <= c < width implies self@[r][c] == target[r][c] by {
                    if r != y {
                        let d = r * width + c - start;
                        if 0 <= d < width {
                            lemma_cell_distinct(width as int, c, r, d, y as int);
                        }
                    }
                }
                assert(self@[r] =~= target[r]);
            }
            assert(self@ =~= target);
        }
    }
}

} // verus!
