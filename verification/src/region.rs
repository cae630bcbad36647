//! The region that a search covers, and the order in which it is scanned.

use vstd::prelude::*;
use crate::geometry::{Point, Rect};

verus! {

/// The rectangle that a search covers: `rect`, or the whole buffer where
/// none is given, clipped to the buffer's bounds. Where the two share no
/// pixel it is the zero-size rectangle at `(0, 0)`.
pub open spec fn effective(bounds: Rect, rect: Option<Rect>) -> Rect {
    match rect {
        Some(r) => r.intersect(bounds),
        None => bounds.intersect(bounds),
    }
}

/// The point from which a scan of `region` proceeds: `start`, or the region's
/// origin where none is given.
pub open spec fn scan_start(region: Rect, start: Option<Point>) -> Point {
    match start {
        Some(p) => p,
        None => region.origin,
    }
}

/// The positions `(x0, y), (x0 + 1, y), ..` up to but without `(x1, y)`.
pub open spec fn row_positions(y: int, x0: int, x1: int) -> Seq<Point> {
    Seq::new(
        if x1 > x0 {
            (x1 - x0) as nat
        } else {
            0
        },
        |i: int| Point { x: (x0 + i) as i64, y: y as i64 },
    )
}

/// The positions of the columns `x0 <= x < x1` in the rows `y0 <= y < y1`,
/// row by row from the top, each row from the left.
pub open spec fn block_positions(x0: int, x1: int, y0: int, y1: int) -> Seq<Point>
    decreases y1 - y0,
{
    if y1 <= y0 {
        Seq::empty()
    } else {
        block_positions(x0, x1, y0, y1 - 1) + row_positions(y1 - 1, x0, x1)
    }
}

/// Every position of a region, in scan order.
pub open spec fn positions(region: Rect) -> Seq<Point> {
    block_positions(region.origin.x as int, region.max_x(), region.origin.y as int, region.max_y())
}

/// The positions of a region that satisfy `hit`, in scan order.
pub open spec fn hits(region: Rect, hit: spec_fn(Point) -> bool) -> Seq<Point> {
    positions(region).filter(hit)
}

/// The first element of a list, if it has one.
pub open spec fn first_of(s: Seq<Point>) -> Option<Point> {
    if s.len() > 0 {
        Some(s[0])
    } else {
        None
    }
}

/// Clips the rectangle of a search to the bounds of the buffer.
pub fn effective_region(bounds: Rect, rect: Option<Rect>) -> (region: Rect)
    ensures
        region == effective(bounds, rect),
        bounds.origin == (Point { x: 0, y: 0 }) ==> bounds.contains_rect(region),
{
    match rect {
        Some(r) => r.intersection(bounds),
        None => bounds.intersection(bounds),
    }
}

/// The point from which the scan of a region proceeds.
pub fn start_of_scan(region: Rect, start: Option<Point>) -> (p: Point)
    ensures
        p == scan_start(region, start),
{
    match start {
        Some(p) => p,
        None => region.origin,
    }
}

/// A row grows by one position at its right end.
pub proof fn lemma_row_step(y: int, x0: int, x: int)
    requires
        x0 <= x,
    ensures
        row_positions(y, x0, x + 1) == row_positions(y, x0, x).push(
            Point { x: x as i64, y: y as i64 },
        ),
{
    assert(row_positions(y, x0, x + 1) =~= row_positions(y, x0, x).push(
        Point { x: x as i64, y: y as i64 },
    ));
}

/// A row is its left part followed by its right part.
pub proof fn lemma_row_split(y: int, x0: int, xm: int, x1: int)
    requires
        x0 <= xm <= x1,
    ensures
        row_positions(y, x0, x1) == row_positions(y, x0, xm) + row_positions(y, xm, x1),
{
    assert(row_positions(y, x0, x1) =~= row_positions(y, x0, xm) + row_positions(y, xm, x1));
}

/// A block is its upper rows followed by its lower rows.
pub proof fn lemma_block_split(x0: int, x1: int, y0: int, ym: int, y1: int)
    requires
        y0 <= ym <= y1,
    ensures
        block_positions(x0, x1, y0, y1) == block_positions(x0, x1, y0, ym) + block_positions(
            x0,
            x1,
            ym,
            y1,
        ),
    decreases y1 - ym,
{
    if ym == y1 {
        assert(block_positions(x0, x1, y0, y1) =~= block_positions(x0, x1, y0, ym)
            + block_positions(x0, x1, ym, y1));
    } else {
        lemma_block_split(x0, x1, y0, ym, y1 - 1);
        assert(block_positions(x0, x1, y0, y1) =~= block_positions(x0, x1, y0, ym)
            + block_positions(x0, x1, ym, y1));
    }
}

/// A block of one row is that row.
pub proof fn lemma_block_single_row(x0: int, x1: int, y: int)
    ensures
        block_positions(x0, x1, y, y + 1) == row_positions(y, x0, x1),
{
    assert(block_positions(x0, x1, y, y) =~= Seq::<Point>::empty());
    assert(block_positions(x0, x1, y, y + 1) =~= row_positions(y, x0, x1));
}

/// A block holds a row's worth of positions for each of its rows.
pub proof fn lemma_block_len(x0: int, x1: int, y0: int, y1: int)
    requires
        x0 <= x1,
        y0 <= y1,
    ensures
        block_positions(x0, x1, y0, y1).len() == (y1 - y0) * (x1 - x0),
    decreases y1 - y0,
{
    if y1 > y0 {
        lemma_block_len(x0, x1, y0, y1 - 1);
        assert((y1 - y0) * (x1 - x0) == (y1 - 1 - y0) * (x1 - x0) + (x1 - x0))
            by (nonlinear_arith);
    } else {
        assert((y1 - y0) * (x1 - x0) == 0) by (nonlinear_arith)
            requires
                y1 - y0 == 0,
        ;
    }
}

/// Filtering a list that grew by one element keeps that element exactly
/// when it satisfies the predicate.
pub proof fn lemma_filter_push(s: Seq<Point>, p: Point, hit: spec_fn(Point) -> bool)
    ensures
        s.push(p).filter(hit) == if hit(p) {
            s.filter(hit).push(p)
        } else {
            s.filter(hit)
        },
{
    reveal(Seq::filter);
    assert(s.push(p).drop_last() =~= s);
}

/// The hits of a block whose position `(x, y)` is a hit, and before which
/// there is none: that position comes first.
pub proof fn lemma_first_hit(
    x0: int,
    x1: int,
    y0: int,
    y1: int,
    x: int,
    y: int,
    hit: spec_fn(Point) -> bool,
)
    requires
        x0 <= x < x1,
        y0 <= y < y1,
        hit(Point { x: x as i64, y: y as i64 }),
        block_positions(x0, x1, y0, y).filter(hit).len() == 0,
        row_positions(y, x0, x).filter(hit).len() == 0,
    ensures
        block_positions(x0, x1, y0, y1).filter(hit).len() > 0,
        block_positions(x0, x1, y0, y1).filter(hit)[0] == (Point { x: x as i64, y: y as i64 }),
{
    let p = Point { x: x as i64, y: y as i64 };
    let above = block_positions(x0, x1, y0, y);
    let left = row_positions(y, x0, x);
    let right = row_positions(y, x + 1, x1);
    let below = block_positions(x0, x1, y + 1, y1);
    lemma_block_split(x0, x1, y0, y, y1);
    lemma_block_split(x0, x1, y, y + 1, y1);
    lemma_block_single_row(x0, x1, y);
    lemma_row_split(y, x0, x + 1, x1);
    lemma_row_step(y, x0, x);
    lemma_filter_push(left, p, hit);
    let row = left.push(p) + right;
    assert(block_positions(x0, x1, y0, y1) == above + (row + below));
    Seq::filter_distributes_over_add(above, row + below, hit);
    Seq::filter_distributes_over_add(row, below, hit);
    Seq::filter_distributes_over_add(left.push(p), right, hit);
    assert(left.push(p).filter(hit) =~= seq![p]);
}

/// The position of a block at column `x` of row `y` stands at the index
/// that counts the rows above it and the positions left of it.
pub proof fn lemma_block_index(x0: int, x1: int, y0: int, y1: int, x: int, y: int)
    requires
        x0 <= x < x1,
        y0 <= y < y1,
    ensures
        0 <= (y - y0) * (x1 - x0) + (x - x0) < block_positions(x0, x1, y0, y1).len(),
        block_positions(x0, x1, y0, y1)[(y - y0) * (x1 - x0) + (x - x0)] == (Point {
            x: x as i64,
            y: y as i64,
        }),
{
    let above = block_positions(x0, x1, y0, y);
    let row = row_positions(y, x0, x1);
    let below = block_positions(x0, x1, y + 1, y1);
    lemma_block_split(x0, x1, y0, y, y1);
    lemma_block_split(x0, x1, y, y + 1, y1);
    lemma_block_single_row(x0, x1, y);
    lemma_block_len(x0, x1, y0, y);
    let all = block_positions(x0, x1, y0, y1);
    assert(all == above + (row + below));
    assert(all[above.len() + (x - x0)] == row[x - x0]);
}

/// The position that a scan of `region` reaches after `k` steps, or `None`
/// where the region has no more than `k` positions. The region must lie
/// where positions can be told: its far edges within the range of a
/// coordinate.
pub fn position_at(region: Rect, k: u64) -> (r: Option<Point>)
    requires
        region.max_x() <= i64::MAX,
        region.max_y() <= i64::MAX,
    ensures
        r == if k < positions(region).len() {
            Some(positions(region)[k as int])
        } else {
            None
        },
{
    let w: u64 = region.size.width as u64;
    let h: u64 = region.size.height as u64;
    proof {
        lemma_block_len(
            region.origin.x as int,
            region.max_x(),
            region.origin.y as int,
            region.max_y(),
        );
    }
    if w == 0 {
        assert(h * w == 0) by (nonlinear_arith)
            requires
                w == 0,
        ;
        return None;
    }
    let row: u64 = k / w;
    let col: u64 = k % w;
    proof {
        vstd::arithmetic::div_mod::lemma_fundamental_div_mod(k as int, w as int);
        vstd::arithmetic::div_mod::lemma_mod_pos_bound(k as int, w as int);
        assert(k == w * row + col);
        if row >= h {
            assert(w * row >= w * h) by (nonlinear_arith)
                requires
                    row >= h,
                    w > 0,
            ;
            assert(h * w == w * h) by (nonlinear_arith);
        } else {
            lemma_block_index(
                region.origin.x as int,
                region.max_x(),
                region.origin.y as int,
                region.max_y(),
                region.origin.x + col,
                region.origin.y + row,
            );
            assert(row * w == w * row) by (nonlinear_arith);
        }
    }
    if row >= h {
        return None;
    }
    Some(Point { x: region.origin.x + col as i64, y: region.origin.y + row as i64 })
}

} // verus!
