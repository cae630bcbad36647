//! Decoding image files into buffers and encoding buffers as image files,
//! on bytes in memory. The codecs themselves are those of the `image` crate:
//! what they make of their input is not specified here, only what becomes
//! of their answers.

use vstd::prelude::*;
use crate::buffer::{grid_of_rgba, PixelBuffer, PixelGrid};
use crate::error::BitmapError;
use crate::format::ImageFormat;

verus! {

/// Calls `image::load_from_memory_with_format` with the format that
/// `image::ImageFormat::from_extension` gives for `extension`, and hands the
/// image out as 8-bit RGBA: width, height and raw bytes; `None` where the
/// crate reports an error.
///
/// Nothing is claimed of what comes back: a decoder may pick its arithmetic
/// by the machine it runs on.
#[verifier::external_body]
fn decode_rgba(bytes: &[u8], extension: &str) -> (r: Option<(u32, u32, Vec<u8>)>) {
    let format = image::ImageFormat::from_extension(extension)?;
    let rgba = image::load_from_memory_with_format(bytes, format).ok()?.into_rgba8();
    Some((rgba.width(), rgba.height(), rgba.into_raw()))
}

/// Calls `image::DynamicImage::write_to` on the 8-bit RGBA image that
/// `image::RgbaImage::from_raw` makes of the arguments, with the format that
/// `image::ImageFormat::from_extension` gives for `extension`, writing into
/// memory; `None` where the crate reports an error.
///
/// Nothing is claimed of what comes back: an encoder may round as the
/// machine's arithmetic does. The raw bytes must number four per pixel, as
/// the crate's encoders demand, and the image must not be empty.
#[verifier::external_body]
fn encode_rgba(raw: Vec<u8>, width: u32, height: u32, extension: &str) -> (r: Option<Vec<u8>>)
    requires
        raw@.len() == 4 * (width * height),
        width > 0,
        height > 0,
{
    let format = image::ImageFormat::from_extension(extension)?;
    let rgba = image::RgbaImage::from_raw(width, height, raw)?;
    let mut out = std::io::Cursor::new(Vec::new());
    image::DynamicImage::ImageRgba8(rgba).write_to(&mut out, format).ok()?;
    Some(out.into_inner())
}

/// What becomes of a decoder's answer: the grid that its raw bytes describe
/// where it gave an image whose bytes number four per pixel, and
/// `CodecFailure` otherwise.
pub open spec fn decoding_outcome(decoded: Option<(u32, u32, Seq<u8>)>) -> Result<
    PixelGrid,
    BitmapError,
> {
    match decoded {
        Some((w, h, raw)) => if raw.len() == 4 * (w * h) {
            Ok(grid_of_rgba(w, h, raw))
        } else {
            Err(BitmapError::CodecFailure)
        },
        None => Err(BitmapError::CodecFailure),
    }
}

/// The decoder's answer, by its views.
pub open spec fn decoded_view(decoded: Option<(u32, u32, Vec<u8>)>) -> Option<(u32, u32, Seq<u8>)> {
    match decoded {
        Some((w, h, raw)) => Some((w, h, raw@)),
        None => None,
    }
}

/// Turns a decoder's answer into a buffer.
pub fn buffer_of_decoded(decoded: Option<(u32, u32, Vec<u8>)>) -> (r: Result<
    PixelBuffer,
    BitmapError,
>)
    ensures
        match r {
            Ok(b) => b.wf() && decoding_outcome(decoded_view(decoded)) == Ok::<
                PixelGrid,
                BitmapError,
            >(b@),
            Err(e) => decoding_outcome(decoded_view(decoded)) == Err::<PixelGrid, BitmapError>(e),
        },
{
    match decoded {
        Some((w, h, raw)) => match PixelBuffer::from_rgba(w, h, raw.as_slice()) {
            Ok(b) => Ok(b),
            Err(_) => Err(BitmapError::CodecFailure),
        },
        None => Err(BitmapError::CodecFailure),
    }
}

/// Turns an encoder's answer into the bytes of the file, or into a
/// `CodecFailure` where it gave none.
pub fn bytes_of_encoded(encoded: Option<Vec<u8>>) -> (r: Result<Vec<u8>, BitmapError>)
    ensures
        match encoded {
            Some(bytes) => r == Ok::<Vec<u8>, BitmapError>(bytes),
            None => r == Err::<Vec<u8>, BitmapError>(BitmapError::CodecFailure),
        },
{
    match encoded {
        Some(bytes) => Ok(bytes),
        None => Err(BitmapError::CodecFailure),
    }
}

/// Decodes the bytes of an image file of the given format. What the codec
/// makes of the bytes is its own affair; whatever it answers becomes a
/// buffer, or a `CodecFailure`, as `buffer_of_decoded` says.
pub fn decode(bytes: &[u8], format: ImageFormat) -> (r: Result<PixelBuffer, BitmapError>)
    ensures
        match r {
            Ok(b) => b.wf(),
            Err(e) => e == BitmapError::CodecFailure,
        },
{
    let decoded = decode_rgba(bytes, format.extension());
    buffer_of_decoded(decoded)
}

/// Encodes a buffer as an image file of the given format: the codec is
/// handed the buffer's raw bytes and dimensions. A buffer without pixels is
/// not handed to it: that is a `CodecFailure` at once.
pub fn encode(buffer: &PixelBuffer, format: ImageFormat) -> (r: Result<Vec<u8>, BitmapError>)
    requires
        buffer.wf(),
    ensures
        match r {
            Ok(_) => buffer@.width > 0 && buffer@.height > 0,
            Err(e) => e == BitmapError::CodecFailure,
        },
{
    if buffer.width() == 0 || buffer.height() == 0 {
        return Err(BitmapError::CodecFailure);
    }
    let raw = buffer.to_rgba();
    bytes_of_encoded(encode_rgba(raw, buffer.width(), buffer.height(), format.extension()))
}

} // verus!
