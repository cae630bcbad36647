use bitmap_search::buffer::PixelBuffer;
use bitmap_search::color::{Color, Pixel};
use bitmap_search::error::BitmapError;
use bitmap_search::geometry::{Point, Rect, Size};

fn gradient(width: u32, height: u32) -> PixelBuffer {
    let mut samples = Vec::new();
    for y in 0..height {
        for x in 0..width {
            samples.push(Pixel::new(x as u8, y as u8, (x + 10 * y) as u8, 200));
        }
    }
    PixelBuffer::new(width, height, samples).unwrap()
}

fn rect(x: i64, y: i64, w: u32, h: u32) -> Rect {
    Rect::new(Point::new(x, y), Size::new(w, h))
}

#[test]
fn new_accepts_matching_length() {
    let b = gradient(3, 2);
    assert_eq!(b.width(), 3);
    assert_eq!(b.height(), 2);
    assert_eq!(b.size(), Size::new(3, 2));
    assert_eq!(b.bounds(), rect(0, 0, 3, 2));
}

#[test]
fn new_refuses_wrong_length() {
    let samples = vec![Pixel::new(0, 0, 0, 255); 5];
    assert_eq!(PixelBuffer::new(3, 2, samples).err(), Some(BitmapError::InvalidArgument));
    assert_eq!(PixelBuffer::new(1, 1, Vec::new()).err(), Some(BitmapError::InvalidArgument));
}

#[test]
fn new_accepts_empty_buffer() {
    let b = PixelBuffer::new(0, 7, Vec::new()).unwrap();
    assert_eq!(b.width(), 0);
    assert_eq!(b.height(), 7);
    assert!(!b.point_in_bounds(0, 0));
}

#[test]
fn point_in_bounds_excludes_far_edges() {
    let b = gradient(4, 4);
    assert!(!b.point_in_bounds(4, 4));
    assert!(!b.point_in_bounds(4, 0));
    assert!(!b.point_in_bounds(0, 4));
    assert!(b.point_in_bounds(3, 3));
    assert!(b.point_in_bounds(0, 0));
    assert!(!b.point_in_bounds(-1, 0));
    assert!(!b.point_in_bounds(0, -1));
    assert!(!b.point_in_bounds(i64::MAX, i64::MIN));
}

#[test]
fn rect_in_bounds_allows_touching_edges() {
    let b = gradient(4, 3);
    assert!(b.rect_in_bounds(rect(0, 0, 4, 3)));
    assert!(b.rect_in_bounds(rect(1, 1, 3, 2)));
    assert!(b.rect_in_bounds(rect(4, 3, 0, 0)));
    assert!(!b.rect_in_bounds(rect(1, 1, 4, 2)));
    assert!(!b.rect_in_bounds(rect(0, 0, 4, 4)));
    assert!(!b.rect_in_bounds(rect(-1, 0, 2, 2)));
    assert!(!b.rect_in_bounds(rect(i64::MAX, 0, u32::MAX, 1)));
}

#[test]
fn get_color_drops_alpha() {
    let b = gradient(4, 3);
    assert_eq!(b.get_color(2, 1), Ok(Color::new(2, 1, 12)));
    assert_eq!(b.get_color(3, 2), Ok(Color::new(3, 2, 23)));
    assert_eq!(b.pixel_at(3, 2), Pixel::new(3, 2, 23, 200));
}

#[test]
fn get_color_out_of_bounds() {
    let b = gradient(4, 3);
    assert_eq!(b.get_color(4, 0), Err(BitmapError::OutOfBounds));
    assert_eq!(b.get_color(0, 3), Err(BitmapError::OutOfBounds));
    assert_eq!(b.get_color(-1, 0), Err(BitmapError::OutOfBounds));
}

#[test]
fn cropped_copies_the_pixels_under_the_rect() {
    let b = gradient(5, 4);
    let c = b.cropped(rect(1, 2, 3, 2)).unwrap();
    assert_eq!(c.width(), 3);
    assert_eq!(c.height(), 2);
    for y in 0..2i64 {
        for x in 0..3i64 {
            assert_eq!(c.get_color(x, y), b.get_color(x + 1, y + 2));
        }
    }
    assert_eq!(c.pixel_at(0, 0), b.pixel_at(1, 2));
    assert_eq!(c.pixel_at(0, 0).a, 200);
}

#[test]
fn cropped_to_bounds_is_identical() {
    let b = gradient(5, 4);
    let c = b.cropped(b.bounds()).unwrap();
    assert_eq!(c.size(), b.size());
    for y in 0..4u32 {
        for x in 0..5u32 {
            assert_eq!(c.pixel_at(x, y), b.pixel_at(x, y));
        }
    }
}

#[test]
fn cropped_out_of_bounds() {
    let b = gradient(5, 4);
    assert_eq!(b.cropped(rect(3, 0, 3, 1)).err(), Some(BitmapError::OutOfBounds));
    assert_eq!(b.cropped(rect(0, -1, 1, 1)).err(), Some(BitmapError::OutOfBounds));
    assert_eq!(b.cropped(rect(0, 0, 5, 5)).err(), Some(BitmapError::OutOfBounds));
}

#[test]
fn cropped_empty_rect_gives_empty_buffer() {
    let b = gradient(5, 4);
    let c = b.cropped(rect(2, 2, 0, 2)).unwrap();
    assert_eq!(c.size(), Size::new(0, 2));
}

#[test]
fn intersection_of_overlapping_rects() {
    assert_eq!(rect(-2, 1, 5, 5).intersection(rect(0, 0, 4, 4)), rect(0, 1, 3, 3));
    assert_eq!(rect(0, 0, 4, 4).intersection(rect(-2, 1, 5, 5)), rect(0, 1, 3, 3));
}

#[test]
fn intersection_of_disjoint_rects_is_zero() {
    assert_eq!(rect(10, 10, 2, 2).intersection(rect(0, 0, 4, 4)), rect(0, 0, 0, 0));
    assert_eq!(rect(4, 0, 2, 2).intersection(rect(0, 0, 4, 4)), rect(0, 0, 0, 0));
    assert_eq!(
        rect(i64::MAX, i64::MAX, u32::MAX, u32::MAX).intersection(rect(i64::MIN, 0, 1, 1)),
        rect(0, 0, 0, 0)
    );
}

#[test]
fn rect_point_visibility() {
    let r = rect(2, 3, 2, 2);
    assert!(r.is_point_visible(Point::new(2, 3)));
    assert!(r.is_point_visible(Point::new(3, 4)));
    assert!(!r.is_point_visible(Point::new(4, 4)));
    assert!(!r.is_point_visible(Point::new(3, 5)));
    assert!(!r.is_point_visible(Point::new(1, 3)));
    assert!(r.is_rect_visible(rect(3, 3, 1, 2)));
    assert!(!r.is_rect_visible(rect(3, 3, 2, 2)));
}

#[test]
fn scan_order_of_points() {
    assert!(Point::new(0, 1).is_at_or_after(Point::new(5, 0)));
    assert!(Point::new(2, 1).is_at_or_after(Point::new(2, 1)));
    assert!(!Point::new(1, 1).is_at_or_after(Point::new(2, 1)));
    assert!(!Point::new(9, 0).is_at_or_after(Point::new(0, 1)));
}
