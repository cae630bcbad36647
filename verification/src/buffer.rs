//! The pixel buffer: a rectangular grid of samples with bounds-checked access.

use vstd::prelude::*;
use crate::color::{Color, Pixel};
use crate::error::BitmapError;
use crate::geometry::{Point, Rect, Size};

verus! {

/// What a buffer holds, as mathematics: its dimensions and its rows of
/// pixels, top row first.
pub struct PixelGrid {
    pub width: nat,
    pub height: nat,
    pub rows: Seq<Seq<Pixel>>,
}

impl PixelGrid {
    /// There are `height` rows of `width` pixels each.
    pub open spec fn wf(self) -> bool {
        &&& self.rows.len() == self.height
        &&& forall|y: int| 0 <= y < self.height ==> (#[trigger] self.rows[y]).len() == self.width
    }

    pub open spec fn pixel(self, x: int, y: int) -> Pixel {
        self.rows[y][x]
    }

    /// The colour at a position, alpha dropped.
    pub open spec fn color(self, x: int, y: int) -> Color {
        self.pixel(x, y).rgb()
    }

    /// The rectangle at `(0, 0)` that has the grid's dimensions.
    pub open spec fn bounds(self) -> Rect {
        Rect {
            origin: Point { x: 0, y: 0 },
            size: Size { width: self.width as u32, height: self.height as u32 },
        }
    }

    /// The part of the grid under `r`, with `r.origin` moved to `(0, 0)`.
    pub open spec fn crop(self, r: Rect) -> PixelGrid {
        PixelGrid {
            width: r.size.width as nat,
            height: r.size.height as nat,
            rows: Seq::new(
                r.size.height as nat,
                |y: int|
                    Seq::new(
                        r.size.width as nat,
                        |x: int| self.rows[r.origin.y + y][r.origin.x + x],
                    ),
            ),
        }
    }
}

/// Cropping a grid to its own bounds gives the same grid.
pub proof fn lemma_crop_to_bounds_is_identity(g: PixelGrid)
    requires
        g.wf(),
        g.width <= u32::MAX,
        g.height <= u32::MAX,
    ensures
        g.crop(g.bounds()) == g,
{
    let c = g.crop(g.bounds());
    assert forall|y: int| 0 <= y < g.height implies c.rows[y] =~= g.rows[y] by {}
    assert(c.rows =~= g.rows);
}

/// The sample at column `x` of row `y` in a row-major list of rows that are
/// `width` long.
pub open spec fn cell(samples: Seq<Pixel>, width: int, x: int, y: int) -> Pixel {
    samples[y * width + x]
}

/// Row-major positions are ordered as their flat indices are.
pub proof fn lemma_flat_order(w: int, x1: int, y1: int, x2: int, y2: int)
    requires
        0 <= x1 < w,
        0 <= x2 <= w,
        0 <= y1,
        y1 < y2 || (y1 == y2 && x1 < x2),
    ensures
        0 <= y1 * w + x1 < y2 * w + x2,
{
    assert(0 <= y1 * w) by (nonlinear_arith)
        requires
            0 <= y1,
            0 <= w,
    ;
    if y1 < y2 {
        assert((y1 + 1) * w <= y2 * w) by (nonlinear_arith)
            requires
                y1 + 1 <= y2,
                0 <= w,
        ;
        assert((y1 + 1) * w == y1 * w + w) by (nonlinear_arith);
    }
}

/// A position inside a `w` by `h` grid has a flat index below `w * h`.
pub proof fn lemma_flat_bound(w: int, h: int, x: int, y: int)
    requires
        0 <= x < w,
        0 <= y < h,
    ensures
        0 <= y * w + x < w * h,
{
    lemma_flat_order(w, x, y, 0, h);
    assert(h * w == w * h) by (nonlinear_arith);
}

/// The four bytes of a stored pixel: red, green, blue, alpha.
pub open spec fn pixel_bytes(p: Pixel) -> Seq<u8> {
    seq![p.r, p.g, p.b, p.a]
}

/// The bytes of the first `n` pixels of a row.
pub open spec fn row_bytes(row: Seq<Pixel>, n: int) -> Seq<u8>
    decreases n,
{
    if n <= 0 {
        Seq::empty()
    } else {
        row_bytes(row, n - 1) + pixel_bytes(row[n - 1])
    }
}

/// The bytes of the first `n` rows.
pub open spec fn rows_bytes(rows: Seq<Seq<Pixel>>, n: int) -> Seq<u8>
    decreases n,
{
    if n <= 0 {
        Seq::empty()
    } else {
        rows_bytes(rows, n - 1) + row_bytes(rows[n - 1], rows[n - 1].len() as int)
    }
}

/// A grid as raw bytes: four per pixel, row by row from the top.
pub open spec fn rgba_bytes(g: PixelGrid) -> Seq<u8> {
    rows_bytes(g.rows, g.height as int)
}

/// The pixel that starts at byte `4 * i` of raw bytes.
pub open spec fn pixel_in(raw: Seq<u8>, i: int) -> Pixel {
    Pixel { r: raw[4 * i], g: raw[4 * i + 1], b: raw[4 * i + 2], a: raw[4 * i + 3] }
}

/// The grid that raw bytes describe: four bytes per pixel, row by row from
/// the top.
pub open spec fn grid_of_rgba(width: u32, height: u32, raw: Seq<u8>) -> PixelGrid {
    PixelGrid {
        width: width as nat,
        height: height as nat,
        rows: Seq::new(
            height as nat,
            |y: int| Seq::new(width as nat, |x: int| pixel_in(raw, y * width + x)),
        ),
    }
}

/// The raw bytes of a grid number four per pixel.
pub proof fn lemma_rgba_bytes_len(g: PixelGrid)
    requires
        g.wf(),
    ensures
        rgba_bytes(g).len() == 4 * (g.width * g.height),
{
    lemma_rows_bytes_len(g, g.height as int);
    assert(4 * (g.height * g.width) == 4 * (g.width * g.height)) by (nonlinear_arith);
}

proof fn lemma_row_bytes_len(row: Seq<Pixel>, n: int)
    requires
        0 <= n,
    ensures
        row_bytes(row, n).len() == 4 * n,
    decreases n,
{
    if n > 0 {
        lemma_row_bytes_len(row, n - 1);
    }
}

proof fn lemma_rows_bytes_len(g: PixelGrid, n: int)
    requires
        g.wf(),
        0 <= n <= g.height,
    ensures
        rows_bytes(g.rows, n).len() == 4 * (n * g.width),
    decreases n,
{
    if n > 0 {
        lemma_rows_bytes_len(g, n - 1);
        lemma_row_bytes_len(g.rows[n - 1], g.width as int);
        assert(4 * (n * g.width) == 4 * ((n - 1) * g.width) + 4 * g.width) by (nonlinear_arith);
    } else {
        assert(4 * (n * g.width) == 0) by (nonlinear_arith)
            requires
                n == 0,
        ;
    }
}

proof fn lemma_row_bytes_at(row: Seq<Pixel>, n: int, x: int)
    requires
        0 <= x < n,
    ensures
        row_bytes(row, n).len() == 4 * n,
        row_bytes(row, n)[4 * x] == row[x].r,
        row_bytes(row, n)[4 * x + 1] == row[x].g,
        row_bytes(row, n)[4 * x + 2] == row[x].b,
        row_bytes(row, n)[4 * x + 3] == row[x].a,
    decreases n,
{
    lemma_row_bytes_len(row, n - 1);
    if x < n - 1 {
        lemma_row_bytes_at(row, n - 1, x);
    }
}

proof fn lemma_rows_bytes_at(g: PixelGrid, n: int, x: int, y: int)
    requires
        g.wf(),
        0 <= y < n <= g.height,
        0 <= x < g.width,
    ensures
        0 <= 4 * (y * g.width + x),
        4 * (y * g.width + x) + 3 < rows_bytes(g.rows, n).len(),
        pixel_in(rows_bytes(g.rows, n), y * g.width + x) == g.rows[y][x],
    decreases n,
{
    let w = g.width as int;
    lemma_rows_bytes_len(g, n - 1);
    lemma_rows_bytes_len(g, n);
    lemma_row_bytes_at(g.rows[n - 1], w, x);
    lemma_flat_order(w, x, y, 0, n);
    if y < n - 1 {
        lemma_rows_bytes_at(g, n - 1, x, y);
        lemma_flat_order(w, x, y, 0, n - 1);
    } else {
        let i = 4 * (y * w + x);
        assert(i == 4 * ((n - 1) * w) + 4 * x);
    }
}

/// Reading a grid back from its own raw bytes gives the same grid: writing
/// raw bytes loses nothing.
pub proof fn lemma_raw_bytes_round_trip(g: PixelGrid)
    requires
        g.wf(),
        g.width <= u32::MAX,
        g.height <= u32::MAX,
    ensures
        grid_of_rgba(g.width as u32, g.height as u32, rgba_bytes(g)) == g,
{
    let back = grid_of_rgba(g.width as u32, g.height as u32, rgba_bytes(g));
    assert forall|y: int| 0 <= y < g.height implies back.rows[y] =~= g.rows[y] by {
        assert forall|x: int| 0 <= x < g.width implies back.rows[y][x] == g.rows[y][x] by {
            lemma_rows_bytes_at(g, g.height as int, x, y);
        }
    }
    assert(back.rows =~= g.rows);
}

/// An immutable rectangular grid of pixels that owns its samples.
#[derive(Debug)]
pub struct PixelBuffer {
    width: u32,
    height: u32,
    samples: Vec<Pixel>,
}

impl View for PixelBuffer {
    type V = PixelGrid;

    closed spec fn view(&self) -> PixelGrid {
        PixelGrid {
            width: self.width as nat,
            height: self.height as nat,
            rows: Seq::new(
                self.height as nat,
                |y: int|
                    Seq::new(
                        self.width as nat,
                        |x: int| cell(self.samples@, self.width as int, x, y),
                    ),
            ),
        }
    }
}

impl PixelBuffer {
    /// The stored samples are exactly `width * height` many.
    pub closed spec fn inv(&self) -> bool {
        self.samples@.len() == self.width * self.height
    }

    /// The buffer's validity: every constructor establishes it.
    pub open spec fn wf(&self) -> bool {
        &&& self.inv()
        &&& self@.wf()
        &&& self@.width <= u32::MAX
        &&& self@.height <= u32::MAX
    }

    /// Builds a buffer from its samples in row-major order, top row first.
    /// The list must hold `width * height` samples.
    pub fn new(width: u32, height: u32, samples: Vec<Pixel>) -> (r: Result<PixelBuffer, BitmapError>)
        ensures
            match r {
                Ok(b) => {
                    &&& samples@.len() == width * height
                    &&& b.wf()
                    &&& b@.width == width
                    &&& b@.height == height
                    &&& forall|x: int, y: int|
                        0 <= x < width && 0 <= y < height ==> #[trigger] b@.pixel(x, y) == cell(
                            samples@,
                            width as int,
                            x,
                            y,
                        )
                },
                Err(e) => e == BitmapError::InvalidArgument && samples@.len() != width * height,
            },
    {
        assert(width * height <= u64::MAX) by (nonlinear_arith)
            requires
                width <= u32::MAX,
                height <= u32::MAX,
        ;
        let area: u64 = (width as u64) * (height as u64);
        if samples.len() as u64 != area {
            return Err(BitmapError::InvalidArgument);
        }
        let b = PixelBuffer { width, height, samples };
        Ok(b)
    }

    /// Builds a buffer from raw bytes, four per pixel (red, green, blue,
    /// alpha), row by row from the top. There must be `4 * width * height`
    /// bytes.
    pub fn from_rgba(width: u32, height: u32, raw: &[u8]) -> (r: Result<PixelBuffer, BitmapError>)
        ensures
            match r {
                Ok(b) => {
                    &&& raw@.len() == 4 * (width * height)
                    &&& b.wf()
                    &&& b@ == grid_of_rgba(width, height, raw@)
                },
                Err(e) => e == BitmapError::InvalidArgument && raw@.len() != 4 * (width * height),
            },
    {
        assert(width * height <= u64::MAX) by (nonlinear_arith)
            requires
                width <= u32::MAX,
                height <= u32::MAX,
        ;
        let area: u64 = (width as u64) * (height as u64);
        let n: usize = raw.len();
        if n % 4 != 0 || (n / 4) as u64 != area {
            return Err(BitmapError::InvalidArgument);
        }
        let count: usize = n / 4;
        let mut samples: Vec<Pixel> = Vec::new();
        let mut i: usize = 0;
        while i < count
            invariant
                i <= count,
                n == raw@.len(),
                n == 4 * count,
                samples@.len() == i,
                forall|j: int| 0 <= j < i ==> #[trigger] samples@[j] == pixel_in(raw@, j),
            decreases count - i,
        {
            let p = Pixel { r: raw[4 * i], g: raw[4 * i + 1], b: raw[4 * i + 2], a: raw[4 * i + 3] };
            samples.push(p);
            i = i + 1;
        }
        let b = PixelBuffer { width, height, samples };
        proof {
            let g = grid_of_rgba(width, height, raw@);
            assert forall|y: int| 0 <= y < height implies b@.rows[y] =~= g.rows[y] by {
                assert forall|x: int| 0 <= x < width implies b@.rows[y][x] == g.rows[y][x] by {
                    lemma_flat_bound(width as int, height as int, x, y);
                }
            }
            assert(b@.rows =~= g.rows);
        }
        Ok(b)
    }

    /// The buffer as raw bytes, four per pixel (red, green, blue, alpha), row
    /// by row from the top.
    pub fn to_rgba(&self) -> (out: Vec<u8>)
        requires
            self.wf(),
        ensures
            out@ == rgba_bytes(self@),
            out@.len() == 4 * (self@.width * self@.height),
    {
        proof {
            lemma_rgba_bytes_len(self@);
        }
        let mut out: Vec<u8> = Vec::new();
        let mut y: u32 = 0;
        while y < self.height
            invariant
                self.wf(),
                y <= self.height,
                out@ == rows_bytes(self@.rows, y as int),
            decreases self.height - y,
        {
            let mut x: u32 = 0;
            let ghost above = out@;
            assert(out@ =~= above + row_bytes(self@.rows[y as int], 0));
            while x < self.width
                invariant
                    self.wf(),
                    y < self.height,
                    x <= self.width,
                    above == rows_bytes(self@.rows, y as int),
                    out@ == above + row_bytes(self@.rows[y as int], x as int),
                decreases self.width - x,
            {
                let p = self.pixel_at(x, y);
                out.push(p.r);
                out.push(p.g);
                out.push(p.b);
                out.push(p.a);
                assert(out@ =~= above + row_bytes(self@.rows[y as int], x + 1));
                x = x + 1;
            }
            y = y + 1;
        }
        out
    }

    /// The number of columns.
    pub fn width(&self) -> (w: u32)
        requires
            self.wf(),
        ensures
            w == self@.width,
    {
        self.width
    }

    /// The number of rows.
    pub fn height(&self) -> (h: u32)
        requires
            self.wf(),
        ensures
            h == self@.height,
    {
        self.height
    }

    /// Width and height together.
    pub fn size(&self) -> (s: Size)
        requires
            self.wf(),
        ensures
            s == self@.bounds().size,
    {
        Size { width: self.width, height: self.height }
    }

    /// The rectangle at `(0, 0)` with the buffer's size.
    pub fn bounds(&self) -> (r: Rect)
        requires
            self.wf(),
        ensures
            r == self@.bounds(),
    {
        Rect { origin: Point { x: 0, y: 0 }, size: Size { width: self.width, height: self.height } }
    }

    /// Whether `(x, y)` is a position of the buffer. The right and bottom
    /// edges are excluded.
    pub fn point_in_bounds(&self, x: i64, y: i64) -> (b: bool)
        requires
            self.wf(),
        ensures
            b == self@.bounds().contains_point(Point { x, y }),
            b == (0 <= x < self@.width && 0 <= y < self@.height),
    {
        self.bounds().is_point_visible(Point { x, y })
    }

    /// Whether `rect` lies inside the buffer's bounds.
    pub fn rect_in_bounds(&self, rect: Rect) -> (b: bool)
        requires
            self.wf(),
        ensures
            b == self@.bounds().contains_rect(rect),
    {
        self.bounds().is_rect_visible(rect)
    }

    /// The sample at a position of the buffer.
    pub fn pixel_at(&self, x: u32, y: u32) -> (p: Pixel)
        requires
            self.wf(),
            x < self@.width,
            y < self@.height,
        ensures
            p == self@.pixel(x as int, y as int),
    {
        proof {
            lemma_flat_bound(self.width as int, self.height as int, x as int, y as int);
        }
        let n: usize = self.samples.len();
        assert(y * self.width + x < n);
        let i: usize = (y as usize) * (self.width as usize) + (x as usize);
        self.samples[i]
    }

    /// The colour at `(x, y)`, or `OutOfBounds` where that is no position of
    /// the buffer.
    pub fn get_color(&self, x: i64, y: i64) -> (r: Result<Color, BitmapError>)
        requires
            self.wf(),
        ensures
            match r {
                Ok(c) => self@.bounds().contains_point(Point { x, y }) && c == self@.color(
                    x as int,
                    y as int,
                ),
                Err(e) => e == BitmapError::OutOfBounds && !self@.bounds().contains_point(
                    Point { x, y },
                ),
            },
    {
        if !self.point_in_bounds(x, y) {
            return Err(BitmapError::OutOfBounds);
        }
        let p = self.pixel_at(x as u32, y as u32);
        Ok(p.color())
    }

    /// A new buffer that holds a copy of the pixels under `rect`, or
    /// `OutOfBounds` where `rect` is not inside the buffer's bounds.
    pub fn cropped(&self, rect: Rect) -> (r: Result<PixelBuffer, BitmapError>)
        requires
            self.wf(),
        ensures
            match r {
                Ok(b) => {
                    &&& self@.bounds().contains_rect(rect)
                    &&& b.wf()
                    &&& b@ == self@.crop(rect)
                    &&& rect == self@.bounds() ==> b@ == self@
                },
                Err(e) => e == BitmapError::OutOfBounds && !self@.bounds().contains_rect(rect),
            },
    {
        if !self.rect_in_bounds(rect) {
            return Err(BitmapError::OutOfBounds);
        }
        let w: u32 = rect.size.width;
        let h: u32 = rect.size.height;
        let ox: u32 = rect.origin.x as u32;
        let oy: u32 = rect.origin.y as u32;
        let mut out: Vec<Pixel> = Vec::new();
        let mut y: u32 = 0;
        while y < h
            invariant
                self.wf(),
                y <= h,
                ox + w <= self@.width,
                oy + h <= self@.height,
                out@.len() == y * w,
                forall|yy: int, xx: int|
                    0 <= yy < y && 0 <= xx < w ==> #[trigger] cell(out@, w as int, xx, yy)
                        == self@.pixel(ox + xx, oy + yy),
            decreases h - y,
        {
            let mut x: u32 = 0;
            while x < w
                invariant
                    self.wf(),
                    y < h,
                    x <= w,
                    ox + w <= self@.width,
                    oy + h <= self@.height,
                    out@.len() == y * w + x,
                    forall|yy: int, xx: int|
                        0 <= xx < w && (0 <= yy < y || (yy == y && xx < x)) ==> #[trigger] cell(
                            out@,
                            w as int,
                            xx,
                            yy,
                        ) == self@.pixel(ox + xx, oy + yy),
                decreases w - x,
            {
                let p = self.pixel_at(ox + x, oy + y);
                let ghost before = out@;
                out.push(p);
                proof {
                    assert forall|yy: int, xx: int|
                        0 <= xx < w && (0 <= yy < y || (yy == y && xx < x + 1)) implies #[trigger] cell(
                        out@,
                        w as int,
                        xx,
                        yy,
                    ) == self@.pixel(ox + xx, oy + yy) by {
                        if yy == y && xx == x {
                        } else {
                            lemma_flat_order(w as int, xx, yy, x as int, y as int);
                            assert(cell(before, w as int, xx, yy) == self@.pixel(ox + xx, oy + yy));
                        }
                    }
                }
                x = x + 1;
            }
            proof {
                assert((y + 1) * w == y * w + w) by (nonlinear_arith);
            }
            y = y + 1;
        }
        proof {
            assert(h * w == w * h) by (nonlinear_arith);
        }
        let b = PixelBuffer { width: w, height: h, samples: out };
        proof {
            if rect == self@.bounds() {
                lemma_crop_to_bounds_is_identity(self@);
            }
            let g = self@.crop(rect);
            assert(b@.rows.len() == g.rows.len());
            assert forall|yy: int| 0 <= yy < h implies b@.rows[yy] =~= g.rows[yy] by {
                assert forall|xx: int| 0 <= xx < w implies b@.rows[yy][xx] == g.rows[yy][xx] by {
                    assert(cell(b.samples@, w as int, xx, yy) == self@.pixel(ox + xx, oy + yy));
                }
            }
            assert(b@.rows =~= g.rows);
        }
        Ok(b)
    }
}

} // verus!
