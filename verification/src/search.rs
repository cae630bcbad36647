//! Searching a buffer for a colour or for a smaller bitmap.
//!
//! A search covers the effective region of its rectangle and skips the
//! positions that come before its start point in scan order. What it
//! reports is always given in scan order: row by row from the top, each row
//! from the left.

use vstd::prelude::*;
use crate::buffer::{lemma_flat_order, PixelBuffer, PixelGrid};
use crate::color::{colors_match, deviation_of, deviation_or_exact, Color};
use crate::error::BitmapError;
use crate::geometry::{Point, Rect};
use crate::region::{
    block_positions, effective, effective_region, first_of, hits, lemma_block_len, lemma_block_single_row,
    lemma_block_split, lemma_filter_push, lemma_first_hit, lemma_row_step, row_positions,
    scan_start, start_of_scan,
};

verus! {

/// The test that a colour search makes at a position: it is not before
/// `start`, and the colour there matches.
pub open spec fn color_hit(hay: PixelGrid, color: Color, deviation: u8, start: Point) -> spec_fn(
    Point,
) -> bool {
    |p: Point|
        p.at_or_after(start) && colors_match(hay.color(p.x as int, p.y as int), color, deviation)
}

/// Placed with its top-left pixel at `p`, the needle lies wholly inside the
/// haystack.
pub open spec fn needle_fits(hay: PixelGrid, needle: PixelGrid, p: Point) -> bool {
    0 <= p.x && p.x + needle.width <= hay.width && 0 <= p.y && p.y + needle.height <= hay.height
}

/// Every pixel of the needle matches the pixel of the haystack that it
/// covers when the needle's top-left pixel is placed at `p`. Alpha plays no
/// part.
pub open spec fn needle_matches_at(hay: PixelGrid, needle: PixelGrid, deviation: u8, p: Point) -> bool {
    forall|dx: int, dy: int|
        0 <= dx < needle.width && 0 <= dy < needle.height ==> colors_match(
            hay.color(p.x + dx, p.y + dy),
            #[trigger] needle.color(dx, dy),
            deviation,
        )
}

/// The test that a bitmap search makes at a position: it is not before
/// `start`, the needle fits there, and it matches there.
pub open spec fn bitmap_hit(hay: PixelGrid, needle: PixelGrid, deviation: u8, start: Point) -> spec_fn(
    Point,
) -> bool {
    |p: Point|
        p.at_or_after(start) && needle_fits(hay, needle, p) && needle_matches_at(
            hay,
            needle,
            deviation,
            p,
        )
}

/// Every position that a colour search reports, in scan order.
pub open spec fn color_hits(
    hay: PixelGrid,
    color: Color,
    tolerance: Option<u8>,
    rect: Option<Rect>,
    start: Option<Point>,
) -> Seq<Point> {
    let region = effective(hay.bounds(), rect);
    hits(region, color_hit(hay, color, deviation_of(tolerance), scan_start(region, start)))
}

/// The needle is wider or higher than the region.
pub open spec fn needle_exceeds(needle: PixelGrid, region: Rect) -> bool {
    needle.width > region.size.width || needle.height > region.size.height
}

/// Every position that a bitmap search reports, in scan order: none where
/// the needle is larger than the region of the search.
pub open spec fn bitmap_hits(
    hay: PixelGrid,
    needle: PixelGrid,
    tolerance: Option<u8>,
    rect: Option<Rect>,
    start: Option<Point>,
) -> Seq<Point> {
    let region = effective(hay.bounds(), rect);
    if needle_exceeds(needle, region) {
        Seq::empty()
    } else {
        hits(region, bitmap_hit(hay, needle, deviation_of(tolerance), scan_start(region, start)))
    }
}

/// A needle without pixels cannot be searched for.
pub open spec fn needle_is_empty(needle: PixelGrid) -> bool {
    needle.width == 0 || needle.height == 0
}

/// What is looked for: a colour, or a needle.
enum Target<'a> {
    Shade(Color),
    Needle(&'a PixelBuffer),
}

impl<'a> Target<'a> {
    spec fn wf(self) -> bool {
        match self {
            Target::Shade(_) => true,
            Target::Needle(n) => n.wf(),
        }
    }

    spec fn hit(self, hay: PixelGrid, deviation: u8, start: Point) -> spec_fn(Point) -> bool {
        match self {
            Target::Shade(c) => color_hit(hay, c, deviation, start),
            Target::Needle(n) => bitmap_hit(hay, n@, deviation, start),
        }
    }
}

/// Compares the needle with the haystack under it, pixel by pixel.
fn needle_matches(hay: &PixelBuffer, needle: &PixelBuffer, deviation: u8, x: u32, y: u32) -> (m:
    bool)
    requires
        hay.wf(),
        needle.wf(),
        x + needle@.width <= hay@.width,
        y + needle@.height <= hay@.height,
    ensures
        m == needle_matches_at(hay@, needle@, deviation, Point { x: x as i64, y: y as i64 }),
{
    let nw: u32 = needle.width();
    let nh: u32 = needle.height();
    let mut dy: u32 = 0;
    while dy < nh
        invariant
            hay.wf(),
            needle.wf(),
            nw == needle@.width,
            nh == needle@.height,
            x + nw <= hay@.width,
            y + nh <= hay@.height,
            dy <= nh,
            forall|ex: int, ey: int|
                0 <= ex < nw && 0 <= ey < dy ==> colors_match(
                    hay@.color(x + ex, y + ey),
                    #[trigger] needle@.color(ex, ey),
                    deviation,
                ),
        decreases nh - dy,
    {
        let mut dx: u32 = 0;
        while dx < nw
            invariant
                hay.wf(),
                needle.wf(),
                nw == needle@.width,
                nh == needle@.height,
                x + nw <= hay@.width,
                y + nh <= hay@.height,
                dy < nh,
                dx <= nw,
                forall|ex: int, ey: int|
                    0 <= ex < nw && (0 <= ey < dy || (ey == dy && ex < dx)) ==> colors_match(
                        hay@.color(x + ex, y + ey),
                        #[trigger] needle@.color(ex, ey),
                        deviation,
                    ),
            decreases nw - dx,
        {
            let h = hay.pixel_at(x + dx, y + dy).color();
            let n = needle.pixel_at(dx, dy).color();
            if !crate::color::matches(h, n, deviation) {
                proof {
                    let w = needle@.color(dx as int, dy as int);
                    assert(!colors_match(hay@.color(x + dx, y + dy), w, deviation));
                }
                return false;
            }
            dx = dx + 1;
        }
        dy = dy + 1;
    }
    true
}

/// Makes the search's test at one position of the haystack.
fn probe(hay: &PixelBuffer, target: &Target, deviation: u8, start: Point, x: u32, y: u32) -> (b:
    bool)
    requires
        hay.wf(),
        target.wf(),
        x < hay@.width,
        y < hay@.height,
    ensures
        b == (target.hit(hay@, deviation, start))(Point { x: x as i64, y: y as i64 }),
{
    let p = Point { x: x as i64, y: y as i64 };
    if !p.is_at_or_after(start) {
        return false;
    }
    match target {
        Target::Shade(c) => crate::color::matches(hay.pixel_at(x, y).color(), *c, deviation),
        Target::Needle(n) => {
            let fits = n.width() <= hay.width() - x && n.height() <= hay.height() - y;
            fits && needle_matches(hay, n, deviation, x, y)
        },
    }
}

/// Collects every hit of a region, in scan order.
fn scan_all(hay: &PixelBuffer, target: &Target, deviation: u8, region: Rect, start: Point) -> (out:
    Vec<Point>)
    requires
        hay.wf(),
        target.wf(),
        hay@.bounds().contains_rect(region),
    ensures
        out@ == hits(region, target.hit(hay@, deviation, start)),
{
    let x0: u32 = region.origin.x as u32;
    let y0: u32 = region.origin.y as u32;
    let x1: u32 = x0 + region.size.width;
    let y1: u32 = y0 + region.size.height;
    let ghost hit = target.hit(hay@, deviation, start);
    let mut out: Vec<Point> = Vec::new();
    let mut y: u32 = y0;
    proof {
        reveal(Seq::filter);
        assert(block_positions(x0 as int, x1 as int, y0 as int, y0 as int).filter(hit)
            =~= Seq::<Point>::empty());
    }
    while y < y1
        invariant
            hay.wf(),
            target.wf(),
            x0 <= x1 <= hay@.width,
            y0 <= y <= y1 <= hay@.height,
            hit == target.hit(hay@, deviation, start),
            out@ == block_positions(x0 as int, x1 as int, y0 as int, y as int).filter(hit),
        decreases y1 - y,
    {
        let mut x: u32 = x0;
        let ghost above = block_positions(x0 as int, x1 as int, y0 as int, y as int);
        proof {
            reveal(Seq::filter);
            assert(row_positions(y as int, x0 as int, x0 as int).filter(hit) =~= Seq::<
                Point,
            >::empty());
            assert(out@ =~= above.filter(hit) + row_positions(
                y as int,
                x0 as int,
                x0 as int,
            ).filter(hit));
        }
        while x < x1
            invariant
                hay.wf(),
                target.wf(),
                x0 <= x <= x1 <= hay@.width,
                y0 <= y < y1 <= hay@.height,
                hit == target.hit(hay@, deviation, start),
                above == block_positions(x0 as int, x1 as int, y0 as int, y as int),
                out@ == above.filter(hit) + row_positions(y as int, x0 as int, x as int).filter(
                    hit,
                ),
            decreases x1 - x,
        {
            let p = Point { x: x as i64, y: y as i64 };
            let found = probe(hay, target, deviation, start, x, y);
            proof {
                lemma_row_step(y as int, x0 as int, x as int);
                lemma_filter_push(row_positions(y as int, x0 as int, x as int), p, hit);
            }
            if found {
                out.push(p);
                proof {
                    assert(out@ =~= above.filter(hit) + row_positions(
                        y as int,
                        x0 as int,
                        x + 1,
                    ).filter(hit));
                }
            }
            x = x + 1;
        }
        proof {
            lemma_block_split(x0 as int, x1 as int, y0 as int, y as int, y + 1);
            lemma_block_single_row(x0 as int, x1 as int, y as int);
            Seq::filter_distributes_over_add(
                above,
                row_positions(y as int, x0 as int, x1 as int),
                hit,
            );
        }
        y = y + 1;
    }
    out
}

/// Finds the first hit of a region in scan order.
fn scan_first(hay: &PixelBuffer, target: &Target, deviation: u8, region: Rect, start: Point) -> (r:
    Option<Point>)
    requires
        hay.wf(),
        target.wf(),
        hay@.bounds().contains_rect(region),
    ensures
        r == first_of(hits(region, target.hit(hay@, deviation, start))),
{
    let x0: u32 = region.origin.x as u32;
    let y0: u32 = region.origin.y as u32;
    let x1: u32 = x0 + region.size.width;
    let y1: u32 = y0 + region.size.height;
    let ghost hit = target.hit(hay@, deviation, start);
    let mut y: u32 = y0;
    proof {
        reveal(Seq::filter);
        assert(block_positions(x0 as int, x1 as int, y0 as int, y0 as int).filter(hit)
            =~= Seq::<Point>::empty());
    }
    while y < y1
        invariant
            hay.wf(),
            target.wf(),
            x0 <= x1 <= hay@.width,
            y0 <= y <= y1 <= hay@.height,
            hit == target.hit(hay@, deviation, start),
            x0 == region.origin.x && x1 == region.max_x(),
            y0 == region.origin.y && y1 == region.max_y(),
            block_positions(x0 as int, x1 as int, y0 as int, y as int).filter(hit).len() == 0,
        decreases y1 - y,
    {
        let mut x: u32 = x0;
        proof {
            reveal(Seq::filter);
            assert(row_positions(y as int, x0 as int, x0 as int).filter(hit) =~= Seq::<
                Point,
            >::empty());
        }
        while x < x1
            invariant
                hay.wf(),
                target.wf(),
                x0 <= x <= x1 <= hay@.width,
                y0 <= y < y1 <= hay@.height,
                hit == target.hit(hay@, deviation, start),
                x0 == region.origin.x && x1 == region.max_x(),
                y0 == region.origin.y && y1 == region.max_y(),
                block_positions(x0 as int, x1 as int, y0 as int, y as int).filter(hit).len() == 0,
                row_positions(y as int, x0 as int, x as int).filter(hit).len() == 0,
            decreases x1 - x,
        {
            let p = Point { x: x as i64, y: y as i64 };
            let found = probe(hay, target, deviation, start, x, y);
            if found {
                proof {
                    lemma_first_hit(
                        x0 as int,
                        x1 as int,
                        y0 as int,
                        y1 as int,
                        x as int,
                        y as int,
                        hit,
                    );
                }
                return Some(p);
            }
            proof {
                lemma_row_step(y as int, x0 as int, x as int);
                lemma_filter_push(row_positions(y as int, x0 as int, x as int), p, hit);
            }
            x = x + 1;
        }
        proof {
            lemma_block_split(x0 as int, x1 as int, y0 as int, y as int, y + 1);
            lemma_block_single_row(x0 as int, x1 as int, y as int);
            Seq::filter_distributes_over_add(
                block_positions(x0 as int, x1 as int, y0 as int, y as int),
                row_positions(y as int, x0 as int, x1 as int),
                hit,
            );
        }
        y = y + 1;
    }
    None
}

/// Counts the hits of a region.
fn scan_count(hay: &PixelBuffer, target: &Target, deviation: u8, region: Rect, start: Point) -> (n:
    u64)
    requires
        hay.wf(),
        target.wf(),
        hay@.bounds().contains_rect(region),
    ensures
        n == hits(region, target.hit(hay@, deviation, start)).len(),
{
    let x0: u32 = region.origin.x as u32;
    let y0: u32 = region.origin.y as u32;
    let x1: u32 = x0 + region.size.width;
    let y1: u32 = y0 + region.size.height;
    let ghost hit = target.hit(hay@, deviation, start);
    let mut n: u64 = 0;
    let mut y: u32 = y0;
    proof {
        reveal(Seq::filter);
        assert(block_positions(x0 as int, x1 as int, y0 as int, y0 as int).filter(hit)
            =~= Seq::<Point>::empty());
    }
    while y < y1
        invariant
            hay.wf(),
            target.wf(),
            x0 <= x1 <= hay@.width,
            y0 <= y <= y1 <= hay@.height,
            hit == target.hit(hay@, deviation, start),
            n == block_positions(x0 as int, x1 as int, y0 as int, y as int).filter(hit).len(),
        decreases y1 - y,
    {
        let mut x: u32 = x0;
        let ghost above = block_positions(x0 as int, x1 as int, y0 as int, y as int);
        proof {
            reveal(Seq::filter);
            assert(row_positions(y as int, x0 as int, x0 as int).filter(hit) =~= Seq::<
                Point,
            >::empty());
        }
        while x < x1
            invariant
                hay.wf(),
                target.wf(),
                x0 <= x <= x1 <= hay@.width,
                y0 <= y < y1 <= hay@.height,
                hit == target.hit(hay@, deviation, start),
                above == block_positions(x0 as int, x1 as int, y0 as int, y as int),
                n == above.filter(hit).len() + row_positions(y as int, x0 as int, x as int).filter(
                    hit,
                ).len(),
            decreases x1 - x,
        {
            let p = Point { x: x as i64, y: y as i64 };
            let found = probe(hay, target, deviation, start, x, y);
            proof {
                let row = row_positions(y as int, x0 as int, x as int);
                lemma_row_step(y as int, x0 as int, x as int);
                lemma_filter_push(row, p, hit);
                above.lemma_filter_len(hit);
                row.lemma_filter_len(hit);
                lemma_block_len(x0 as int, x1 as int, y0 as int, y as int);
                lemma_flat_order(x1 - x0, x - x0, y - y0, 0, y1 - y0);
                assert((y1 - y0) * (x1 - x0) <= 0xffff_ffff * 0xffff_ffff) by (nonlinear_arith)
                    requires
                        0 <= y1 - y0 <= 0xffff_ffff,
                        0 <= x1 - x0 <= 0xffff_ffff,
                ;
            }
            if found {
                n = n + 1;
            }
            x = x + 1;
        }
        proof {
            lemma_block_split(x0 as int, x1 as int, y0 as int, y as int, y + 1);
            lemma_block_single_row(x0 as int, x1 as int, y as int);
            Seq::filter_distributes_over_add(
                above,
                row_positions(y as int, x0 as int, x1 as int),
                hit,
            );
        }
        y = y + 1;
    }
    n
}

impl PixelBuffer {
    /// The first position in scan order whose colour matches `color`, or
    /// `None` where no position of the search matches.
    pub fn find_color(
        &self,
        color: Color,
        tolerance: Option<u8>,
        rect: Option<Rect>,
        start_point: Option<Point>,
    ) -> (r: Option<Point>)
        requires
            self.wf(),
        ensures
            r == first_of(color_hits(self@, color, tolerance, rect, start_point)),
    {
        let region = effective_region(self.bounds(), rect);
        let start = start_of_scan(region, start_point);
        scan_first(self, &Target::Shade(color), deviation_or_exact(tolerance), region, start)
    }

    /// Every position whose colour matches `color`, in scan order.
    pub fn find_every_color(
        &self,
        color: Color,
        tolerance: Option<u8>,
        rect: Option<Rect>,
        start_point: Option<Point>,
    ) -> (out: Vec<Point>)
        requires
            self.wf(),
        ensures
            out@ == color_hits(self@, color, tolerance, rect, start_point),
    {
        let region = effective_region(self.bounds(), rect);
        let start = start_of_scan(region, start_point);
        scan_all(self, &Target::Shade(color), deviation_or_exact(tolerance), region, start)
    }

    /// The first position in scan order at which `needle` matches, or `None`
    /// where it matches nowhere. A needle without pixels is refused; one that
    /// is larger than the region of the search is found nowhere.
    pub fn find_bitmap(
        &self,
        needle: &PixelBuffer,
        tolerance: Option<u8>,
        rect: Option<Rect>,
        start_point: Option<Point>,
    ) -> (r: Result<Option<Point>, BitmapError>)
        requires
            self.wf(),
            needle.wf(),
        ensures
            match r {
                Ok(found) => !needle_is_empty(needle@) && found == first_of(
                    bitmap_hits(self@, needle@, tolerance, rect, start_point),
                ),
                Err(e) => e == BitmapError::InvalidArgument && needle_is_empty(needle@),
            },
    {
        if needle.width() == 0 || needle.height() == 0 {
            return Err(BitmapError::InvalidArgument);
        }
        let region = effective_region(self.bounds(), rect);
        if needle.width() > region.size.width || needle.height() > region.size.height {
            return Ok(None);
        }
        let start = start_of_scan(region, start_point);
        Ok(scan_first(self, &Target::Needle(needle), deviation_or_exact(tolerance), region, start))
    }

    /// Every position at which `needle` matches, in scan order. A needle
    /// without pixels is refused; one that is larger than the region of the
    /// search matches nowhere.
    pub fn find_every_bitmap(
        &self,
        needle: &PixelBuffer,
        tolerance: Option<u8>,
        rect: Option<Rect>,
        start_point: Option<Point>,
    ) -> (r: Result<Vec<Point>, BitmapError>)
        requires
            self.wf(),
            needle.wf(),
        ensures
            match r {
                Ok(out) => !needle_is_empty(needle@) && out@ == bitmap_hits(
                    self@,
                    needle@,
                    tolerance,
                    rect,
                    start_point,
                ),
                Err(e) => e == BitmapError::InvalidArgument && needle_is_empty(needle@),
            },
    {
        if needle.width() == 0 || needle.height() == 0 {
            return Err(BitmapError::InvalidArgument);
        }
        let region = effective_region(self.bounds(), rect);
        if needle.width() > region.size.width || needle.height() > region.size.height {
            return Ok(Vec::new());
        }
        let start = start_of_scan(region, start_point);
        Ok(scan_all(self, &Target::Needle(needle), deviation_or_exact(tolerance), region, start))
    }
    /// How many positions match `color`: the length of what
    /// `find_every_color` returns for the same arguments.
    pub fn count_of_color(
        &self,
        color: Color,
        tolerance: Option<u8>,
        rect: Option<Rect>,
        start_point: Option<Point>,
    ) -> (n: u64)
        requires
            self.wf(),
        ensures
            n == color_hits(self@, color, tolerance, rect, start_point).len(),
    {
        let region = effective_region(self.bounds(), rect);
        let start = start_of_scan(region, start_point);
        scan_count(self, &Target::Shade(color), deviation_or_exact(tolerance), region, start)
    }

    /// At how many positions `needle` matches: the length of what
    /// `find_every_bitmap` returns for the same arguments. A needle without
    /// pixels is refused.
    pub fn count_of_bitmap(
        &self,
        needle: &PixelBuffer,
        tolerance: Option<u8>,
        rect: Option<Rect>,
        start_point: Option<Point>,
    ) -> (r: Result<u64, BitmapError>)
        requires
            self.wf(),
            needle.wf(),
        ensures
            match r {
                Ok(n) => !needle_is_empty(needle@) && n == bitmap_hits(
                    self@,
                    needle@,
                    tolerance,
                    rect,
                    start_point,
                ).len(),
                Err(e) => e == BitmapError::InvalidArgument && needle_is_empty(needle@),
            },
    {
        if needle.width() == 0 || needle.height() == 0 {
            return Err(BitmapError::InvalidArgument);
        }
        let region = effective_region(self.bounds(), rect);
        if needle.width() > region.size.width || needle.height() > region.size.height {
            return Ok(0);
        }
        let start = start_of_scan(region, start_point);
        Ok(scan_count(self, &Target::Needle(needle), deviation_or_exact(tolerance), region, start))
    }
}

} // verus!
