use bitmap_search::buffer::PixelBuffer;
use bitmap_search::codec::{buffer_of_decoded, bytes_of_encoded, decode, encode};
use bitmap_search::color::Pixel;
use bitmap_search::error::BitmapError;
use bitmap_search::format::ImageFormat;

fn sample(width: u32, height: u32) -> PixelBuffer {
    let mut samples = Vec::new();
    for y in 0..height {
        for x in 0..width {
            samples.push(Pixel::new((40 * x) as u8, (60 * y) as u8, (x * y + 7) as u8, 255));
        }
    }
    PixelBuffer::new(width, height, samples).unwrap()
}

fn same_pixels(a: &PixelBuffer, b: &PixelBuffer) -> bool {
    a.size() == b.size() && a.to_rgba() == b.to_rgba()
}

#[test]
fn from_rgba_reads_four_bytes_per_pixel() {
    let raw: Vec<u8> = (0..24).collect();
    let b = PixelBuffer::from_rgba(3, 2, &raw).unwrap();
    assert_eq!(b.width(), 3);
    assert_eq!(b.height(), 2);
    assert_eq!(b.pixel_at(0, 0), Pixel::new(0, 1, 2, 3));
    assert_eq!(b.pixel_at(2, 0), Pixel::new(8, 9, 10, 11));
    assert_eq!(b.pixel_at(1, 1), Pixel::new(16, 17, 18, 19));
}

#[test]
fn from_rgba_refuses_wrong_length() {
    let raw: Vec<u8> = (0..23).collect();
    assert_eq!(PixelBuffer::from_rgba(3, 2, &raw).err(), Some(BitmapError::InvalidArgument));
    assert_eq!(PixelBuffer::from_rgba(2, 2, &raw).err(), Some(BitmapError::InvalidArgument));
    let raw: Vec<u8> = (0..24).collect();
    assert_eq!(PixelBuffer::from_rgba(3, 3, &raw).err(), Some(BitmapError::InvalidArgument));
    assert_eq!(PixelBuffer::from_rgba(2, 2, &raw).err(), Some(BitmapError::InvalidArgument));
}

#[test]
fn to_rgba_writes_rows_from_the_top() {
    let b = sample(2, 2);
    assert_eq!(
        b.to_rgba(),
        vec![0, 0, 7, 255, 40, 0, 7, 255, 0, 60, 7, 255, 40, 60, 8, 255]
    );
    assert_eq!(PixelBuffer::new(0, 3, Vec::new()).unwrap().to_rgba(), Vec::<u8>::new());
}

#[test]
fn raw_bytes_round_trip() {
    let b = sample(5, 3);
    let again = PixelBuffer::from_rgba(5, 3, &b.to_rgba()).unwrap();
    assert!(same_pixels(&b, &again));
    for y in 0..3 {
        for x in 0..5 {
            assert_eq!(again.pixel_at(x, y), b.pixel_at(x, y));
        }
    }
}

#[test]
fn png_round_trip_is_lossless() {
    let b = sample(5, 3);
    let bytes = encode(&b, ImageFormat::Png).unwrap();
    assert_eq!(&bytes[1..4], b"PNG");
    let again = decode(&bytes, ImageFormat::Png).unwrap();
    assert!(same_pixels(&b, &again));
}

#[test]
fn bmp_round_trip_is_lossless() {
    let b = sample(4, 4);
    let bytes = encode(&b, ImageFormat::Bmp).unwrap();
    assert_eq!(&bytes[0..2], b"BM");
    let again = decode(&bytes, ImageFormat::Bmp).unwrap();
    assert!(same_pixels(&b, &again));
}

#[test]
fn jpeg_round_trip_keeps_dimensions() {
    let b = sample(6, 5);
    let bytes = encode(&b, ImageFormat::Jpeg).unwrap();
    let again = decode(&bytes, ImageFormat::Jpeg).unwrap();
    assert_eq!(again.size(), b.size());
}

#[test]
fn encode_is_not_the_raw_bytes() {
    let b = sample(3, 3);
    let bytes = encode(&b, ImageFormat::Png).unwrap();
    assert_ne!(bytes, b.to_rgba());
    assert_ne!(encode(&b, ImageFormat::Bmp).unwrap(), bytes);
}

#[test]
fn decode_refuses_bytes_of_another_format() {
    let b = sample(3, 3);
    let bytes = encode(&b, ImageFormat::Png).unwrap();
    assert_eq!(decode(&bytes, ImageFormat::Gif).err(), Some(BitmapError::CodecFailure));
    assert_eq!(decode(b"no image", ImageFormat::Png).err(), Some(BitmapError::CodecFailure));
    assert_eq!(decode(&[], ImageFormat::Bmp).err(), Some(BitmapError::CodecFailure));
}

#[test]
fn encode_refuses_a_buffer_without_pixels() {
    let b = PixelBuffer::new(0, 0, Vec::new()).unwrap();
    assert_eq!(encode(&b, ImageFormat::Png).err(), Some(BitmapError::CodecFailure));
    let b = PixelBuffer::new(3, 0, Vec::new()).unwrap();
    assert_eq!(encode(&b, ImageFormat::Bmp).err(), Some(BitmapError::CodecFailure));
}

#[test]
fn buffer_of_decoded_builds_the_grid() {
    let raw: Vec<u8> = (100..108).collect();
    let b = buffer_of_decoded(Some((1, 2, raw))).unwrap();
    assert_eq!(b.width(), 1);
    assert_eq!(b.height(), 2);
    assert_eq!(b.pixel_at(0, 0), Pixel::new(100, 101, 102, 103));
    assert_eq!(b.pixel_at(0, 1), Pixel::new(104, 105, 106, 107));
}

#[test]
fn buffer_of_decoded_failures() {
    assert_eq!(buffer_of_decoded(None).err(), Some(BitmapError::CodecFailure));
    assert_eq!(
        buffer_of_decoded(Some((2, 2, vec![0; 15]))).err(),
        Some(BitmapError::CodecFailure)
    );
}

#[test]
fn bytes_of_encoded_outcomes() {
    assert_eq!(bytes_of_encoded(Some(vec![1, 2, 3])), Ok(vec![1, 2, 3]));
    assert_eq!(bytes_of_encoded(Some(Vec::new())), Ok(Vec::new()));
    assert_eq!(bytes_of_encoded(None), Err(BitmapError::CodecFailure));
}

#[test]
fn extension_names_its_format() {
    let all = [
        ImageFormat::Bmp,
        ImageFormat::Gif,
        ImageFormat::Hdr,
        ImageFormat::Jpeg,
        ImageFormat::Png,
        ImageFormat::Tga,
        ImageFormat::Tiff,
        ImageFormat::Webp,
    ];
    for f in all {
        assert_eq!(bitmap_search::format::image_format_from_extension(f.extension()), Some(f));
    }
    assert_eq!(ImageFormat::Jpeg.extension(), "jpeg");
}
