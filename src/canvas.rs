use vstd::prelude::*;

verus! {

/// A `width` by `height` grid of pixels, stored row by row.
#[derive(Clone, Debug)]
pub struct Canvas<P> {
    width: usize,
    pixels: Vec<Vec<P>>,
}

impl<P> View for Canvas<P> {
    /// The rows of the canvas, top to bottom; row `y` holds the pixels
    /// `(0, y)`, `(1, y)`, ... from left to right.
    type V = Seq<Seq<P>>;

    closed spec fn view(&self) -> Seq<Seq<P>> {
        self.pixels@.map_values(|row: Vec<P>| row@)
    }
}

impl<P: Copy> Canvas<P> {
    /// Number of pixels in every row.
    pub closed spec fn spec_width(&self) -> nat {
        self.width as nat
    }

    /// Number of rows.
    pub open spec fn spec_height(&self) -> nat {
        self@.len()
    }

    /// Every row holds exactly `spec_width()` pixels.
    pub open spec fn inv(&self) -> bool {
        forall|y: int| 0 <= y < self@.len() ==> #[trigger] self@[y].len() == self.spec_width()
    }

    /// The pixel in column `x` of row `y`.
    pub open spec fn spec_pixel(&self, x: int, y: int) -> P {
        self@[y][x]
    }

    /// A canvas of the given size with every pixel set to `background`.
    pub fn new(width: usize, height: usize, background: P) -> (r: Canvas<P>)
        ensures
            r.inv(),
            r.spec_width() == width,
            r.spec_height() == height,
            forall|x: int, y: int|
                0 <= x < width && 0 <= y < height ==> #[trigger] r.spec_pixel(x, y) == background,
    {
        let mut pixels: Vec<Vec<P>> = Vec::with_capacity(height);
        let mut y: usize = 0;
        while y < height
            invariant
                y <= height,
                pixels@.len() == y,
                forall|j: int| 0 <= j < y ==> #[trigger] pixels@[j]@ == Seq::new(width as nat, |i: int| background),
            decreases height - y,
        {
            let mut row: Vec<P> = Vec::with_capacity(width);
            let mut x: usize = 0;
            while x < width
                invariant
                    x <= width,
                    row@ == Seq::new(x as nat, |i: int| background),
                decreases width - x,
            {
                row.push(background);
                x = x + 1;
                assert(row@ =~= Seq::new(x as nat, |i: int| background));
            }
            pixels.push(row);
            y = y + 1;
        }
        let r = Canvas { width, pixels };
        assert(r@.len() == height);
        r
    }

    /// A canvas made of `rows`, top to bottom; `None` when a row does not
    /// hold exactly `width` pixels.
    pub fn from_rows(width: usize, rows: Vec<Vec<P>>) -> (r: Option<Canvas<P>>)
        ensures
            (forall|y: int| 0 <= y < rows@.len() ==> #[trigger] rows@[y]@.len() == width) <==> r is Some,
            r matches Some(c) ==> c.inv() && c.spec_width() == width
                && c@ == rows@.map_values(|row: Vec<P>| row@),
    {
        let mut y: usize = 0;
        while y < rows.len()
            invariant
                y <= rows@.len(),
                forall|j: int| 0 <= j < y ==> #[trigger] rows@[j]@.len() == width,
            decreases rows@.len() - y,
        {
            if rows[y].len() != width {
                return None;
            }
            y = y + 1;
        }
        Some(Canvas { width, pixels: rows })
    }

    /// Number of pixels in every row.
    pub fn width(&self) -> (r: usize)
        ensures
            r == self.spec_width(),
    {
        self.width
    }

    /// Number of rows.
    pub fn height(&self) -> (r: usize)
        ensures
            r == self.spec_height(),
    {
        self.pixels.len()
    }

    /// Sets pixel `(x, y)` to `color` and returns `Some(color)`; returns
    /// `None` and leaves the canvas as it was when `(x, y)` lies outside it.
    pub fn write_pixel(&mut self, x: usize, y: usize, color: P) -> (r: Option<P>)
        requires
            old(self).inv(),
        ensures
            final(self).inv(),
            final(self).spec_width() == old(self).spec_width(),
            (x < old(self).spec_width() && y < old(self).spec_height()) ==> r == Some(color)
                && final(self)@ == old(self)@.update(y as int, old(self)@[y as int].update(x as int, color)),
            !(x < old(self).spec_width() && y < old(self).spec_height()) ==> r is None
                && final(self)@ == old(self)@,
    {
        if y >= self.pixels.len() || x >= self.width {
            return None;
        }
        let ghost before = self@;
        assert(self@[y as int].len() == self.spec_width());
        self.pixels[y].set(x, color);
        assert(self@ =~= before.update(y as int, before[y as int].update(x as int, color)));
        Some(color)
    }

    /// Row `y`, left to right.
    pub fn row(&self, y: usize) -> (r: &Vec<P>)
        requires
            y < self.spec_height(),
        ensures
            r@ == self@[y as int],
    {
        &self.pixels[y]
    }

    /// The pixel in column `x` of row `y`.
    pub fn pixel_at(&self, x: i32, y: i32) -> (r: P)
        requires
            self.inv(),
            0 <= x < self.spec_width(),
            0 <= y < self.spec_height(),
        ensures
            r == self.spec_pixel(x as int, y as int),
    {
        assert(self@[y as int].len() == self.spec_width());
        self.pixels[y as usize][x as usize]
    }
}

} // verus!
