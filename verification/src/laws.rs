//! Laws that relate the searches, the matcher and cropping to each other.

use vstd::prelude::*;
use crate::buffer::PixelBuffer;
use crate::color::Color;
use crate::geometry::{Point, Rect};
use crate::region::{
    block_positions, effective, first_of, hits, lemma_block_index, lemma_first_hit, positions,
    row_positions, scan_start,
};
use crate::search::{bitmap_hit, bitmap_hits, color_hit, color_hits};

verus! {

/// A position of a block is one of the block's positions.
pub proof fn lemma_block_contains(x0: int, x1: int, y0: int, y1: int, x: int, y: int)
    requires
        x0 <= x < x1,
        y0 <= y < y1,
    ensures
        block_positions(x0, x1, y0, y1).contains(Point { x: x as i64, y: y as i64 }),
{
    lemma_block_index(x0, x1, y0, y1, x, y);
}

/// A search misses nothing: a position of the region that passes the
/// search's test is among the hits.
pub proof fn lemma_hits_complete(region: Rect, hit: spec_fn(Point) -> bool, p: Point)
    requires
        region.contains_point(p),
        hit(p),
    ensures
        hits(region, hit).contains(p),
{
    let all = block_positions(
        region.origin.x as int,
        region.max_x(),
        region.origin.y as int,
        region.max_y(),
    );
    lemma_block_contains(
        region.origin.x as int,
        region.max_x(),
        region.origin.y as int,
        region.max_y(),
        p.x as int,
        p.y as int,
    );
    let i = choose|i: int| 0 <= i < all.len() && all[i] == p;
    all.lemma_filter_contains(hit, i);
}

/// A search reports only positions that pass its test.
pub proof fn lemma_hits_sound(region: Rect, hit: spec_fn(Point) -> bool, i: int)
    requires
        0 <= i < hits(region, hit).len(),
    ensures
        hit(hits(region, hit)[i]),
{
    positions(region).lemma_filter_pred(hit, i);
}

/// A buffer is found in itself at its own origin, whatever the tolerance,
/// when the search covers the whole buffer and does not start after the
/// origin.
pub proof fn lemma_buffer_found_in_itself(
    b: PixelBuffer,
    tolerance: Option<u8>,
    rect: Option<Rect>,
    start: Option<Point>,
)
    requires
        b.wf(),
        b@.width > 0 && b@.height > 0,
        effective(b@.bounds(), rect) == b@.bounds(),
        (Point { x: 0, y: 0 }).at_or_after(scan_start(b@.bounds(), start)),
    ensures
        first_of(bitmap_hits(b@, b@, tolerance, rect, start)) == Some(Point { x: 0, y: 0 }),
{
    let region = effective(b@.bounds(), rect);
    let d = crate::color::deviation_of(tolerance);
    let hit = bitmap_hit(b@, b@, d, scan_start(region, start));
    let origin = Point { x: 0, y: 0 };
    assert(hit(origin));
    reveal(Seq::filter);
    assert(block_positions(0, region.max_x(), 0, 0).filter(hit) =~= Seq::<Point>::empty());
    assert(row_positions(0, 0, 0).filter(hit) =~= Seq::<Point>::empty());
    lemma_first_hit(0, region.max_x(), 0, region.max_y(), 0, 0, hit);
}

/// With the full tolerance a colour search over a region that is not empty
/// finds something, provided the scan does not start after the region's
/// last position.
pub proof fn lemma_full_tolerance_finds(
    b: PixelBuffer,
    color: Color,
    rect: Option<Rect>,
    start: Option<Point>,
)
    requires
        b.wf(),
        !effective(b@.bounds(), rect).is_empty(),
        match start {
            Some(s) => (Point {
                x: (effective(b@.bounds(), rect).max_x() - 1) as i64,
                y: (effective(b@.bounds(), rect).max_y() - 1) as i64,
            }).at_or_after(s),
            None => true,
        },
    ensures
        first_of(color_hits(b@, color, Some(255u8), rect, start)) is Some,
{
    let region = effective(b@.bounds(), rect);
    let hit = color_hit(b@, color, 255u8, scan_start(region, start));
    let p = match start {
        Some(s) => Point { x: (region.max_x() - 1) as i64, y: (region.max_y() - 1) as i64 },
        None => region.origin,
    };
    assert(hit(p));
    lemma_hits_complete(region, hit, p);
}

/// The list is strictly ascending in scan order.
pub open spec fn ascending(s: Seq<Point>) -> bool {
    forall|i: int, j: int| 0 <= i < j < s.len() ==> (#[trigger] s[i]).before(#[trigger] s[j])
}

/// Every element of the list lies in the columns `x0 <= x < x1` of the rows
/// `y0 <= y < y1`.
pub open spec fn within(s: Seq<Point>, x0: int, x1: int, y0: int, y1: int) -> bool {
    forall|i: int| 0 <= i < s.len() ==> x0 <= (#[trigger] s[i]).x < x1 && y0 <= s[i].y < y1
}

/// The positions of a block lie in the block and ascend in scan order.
pub proof fn lemma_block_ascending(x0: int, x1: int, y0: int, y1: int)
    requires
        i64::MIN <= x0,
        x1 <= i64::MAX,
        i64::MIN <= y0,
        y1 <= i64::MAX,
    ensures
        within(block_positions(x0, x1, y0, y1), x0, x1, y0, y1),
        ascending(block_positions(x0, x1, y0, y1)),
    decreases y1 - y0,
{
    if y1 > y0 {
        lemma_block_ascending(x0, x1, y0, y1 - 1);
        let above = block_positions(x0, x1, y0, y1 - 1);
        let row = row_positions(y1 - 1, x0, x1);
        let all = block_positions(x0, x1, y0, y1);
        assert forall|i: int| 0 <= i < all.len() implies x0 <= (#[trigger] all[i]).x < x1 && y0
            <= all[i].y < y1 && (i >= above.len() ==> all[i].y == y1 - 1 && all[i].x == x0 + (i
            - above.len())) by {
            if i < above.len() {
                assert(all[i] == above[i]);
            } else {
                assert(all[i] == row[i - above.len()]);
            }
        }
        assert forall|i: int, j: int| 0 <= i < j < all.len() implies (#[trigger] all[i]).before(
            #[trigger] all[j],
        ) by {
            if j < above.len() {
                assert(all[i] == above[i] && all[j] == above[j]);
            } else if i < above.len() {
                assert(all[i] == above[i]);
            }
        }
    }
}

/// Filtering an ascending list leaves an ascending list of its elements.
pub proof fn lemma_filter_ascending(s: Seq<Point>, hit: spec_fn(Point) -> bool)
    requires
        ascending(s),
    ensures
        ascending(s.filter(hit)),
        forall|i: int| 0 <= i < s.filter(hit).len() ==> s.contains(#[trigger] s.filter(hit)[i]),
    decreases s.len(),
{
    reveal(Seq::filter);
    if s.len() > 0 {
        let front = s.drop_last();
        let kept = front.filter(hit);
        assert forall|i: int, j: int| 0 <= i < j < front.len() implies (#[trigger] front[i]).before(
            #[trigger] front[j],
        ) by {
            assert(front[i] == s[i] && front[j] == s[j]);
        }
        lemma_filter_ascending(front, hit);
        let f = s.filter(hit);
        assert forall|i: int| 0 <= i < kept.len() implies s.contains(#[trigger] kept[i]) && kept[i].before(
            s.last(),
        ) by {
            assert(front.contains(kept[i]));
            let k = choose|k: int| 0 <= k < front.len() && front[k] == kept[i];
            assert(s[k] == kept[i]);
            assert(s[k].before(s[s.len() - 1]));
        }
        assert forall|i: int| 0 <= i < f.len() implies s.contains(#[trigger] f[i]) by {
            if i < kept.len() {
                assert(f[i] == kept[i]);
            } else {
                assert(f[i] == s[s.len() - 1]);
            }
        }
        assert forall|i: int, j: int| 0 <= i < j < f.len() implies (#[trigger] f[i]).before(
            #[trigger] f[j],
        ) by {
            if j < kept.len() {
                assert(f[i] == kept[i] && f[j] == kept[j]);
            } else {
                assert(f[i] == kept[i]);
                assert(f[j] == s.last());
            }
        }
    }
}

/// What a search reports ascends strictly in scan order, so that no position
/// is reported twice, and lies in the region of the search.
pub proof fn lemma_hits_ascending(region: Rect, hit: spec_fn(Point) -> bool)
    requires
        region.max_x() <= i64::MAX,
        region.max_y() <= i64::MAX,
    ensures
        ascending(hits(region, hit)),
        forall|i: int|
            0 <= i < hits(region, hit).len() ==> region.contains_point(
                #[trigger] hits(region, hit)[i],
            ),
{
    let all = positions(region);
    lemma_block_ascending(
        region.origin.x as int,
        region.max_x(),
        region.origin.y as int,
        region.max_y(),
    );
    lemma_filter_ascending(all, hit);
    let f = hits(region, hit);
    assert forall|i: int| 0 <= i < f.len() implies region.contains_point(#[trigger] f[i]) by {
        assert(all.contains(f[i]));
        let k = choose|k: int| 0 <= k < all.len() && all[k] == f[i];
        assert(region.contains_point(all[k]));
    }
}

} // verus!
