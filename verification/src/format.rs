//! The image file formats, and how a format is told from a name.

use vstd::prelude::*;
use vstd::string::StrSliceExecFns;
use crate::error::BitmapError;

verus! {

/// The file formats in which a buffer can be stored.
#[derive(Clone, Copy, Debug, PartialEq, Eq, Structural)]
pub enum ImageFormat {
    Bmp,
    Gif,
    Hdr,
    Jpeg,
    Png,
    Tga,
    Tiff,
    Webp,
}

impl ImageFormat {
    /// The extension that names the format.
    pub open spec fn extension_chars(self) -> Seq<char> {
        match self {
            ImageFormat::Bmp => "bmp"@,
            ImageFormat::Gif => "gif"@,
            ImageFormat::Hdr => "hdr"@,
            ImageFormat::Jpeg => "jpeg"@,
            ImageFormat::Png => "png"@,
            ImageFormat::Tga => "tga"@,
            ImageFormat::Tiff => "tiff"@,
            ImageFormat::Webp => "webp"@,
        }
    }

    /// The extension that names the format.
    pub fn extension(&self) -> (s: &'static str)
        ensures
            s@ == self.extension_chars(),
    {
        match self {
            ImageFormat::Bmp => "bmp",
            ImageFormat::Gif => "gif",
            ImageFormat::Hdr => "hdr",
            ImageFormat::Jpeg => "jpeg",
            ImageFormat::Png => "png",
            ImageFormat::Tga => "tga",
            ImageFormat::Tiff => "tiff",
            ImageFormat::Webp => "webp",
        }
    }
}

/// A format is told from its own extension.
pub proof fn lemma_extension_names_its_format(format: ImageFormat)
    ensures
        format_of(format.extension_chars()) == Some(format),
{
    reveal_strlit("bmp");
    reveal_strlit("gif");
    reveal_strlit("hdr");
    reveal_strlit("jpeg");
    reveal_strlit("png");
    reveal_strlit("tga");
    reveal_strlit("tiff");
    reveal_strlit("webp");
    let s = format.extension_chars();
    assert(s.len() > 0);
    assert(lower(s[0]) == s[0]);
    assert(lower(s[1]) == s[1]);
    assert(lower(s[2]) == s[2]);
    if s.len() > 3 {
        assert(lower(s[3]) == s[3]);
    }
    if s.len() > 4 {
        assert(lower(s[4]) == s[4]);
    }
}

/// The lower-case form of an ASCII capital; any other character is left as
/// it is.
pub open spec fn lower(c: char) -> char {
    if 'A' <= c && c <= 'Z' {
        ((c as u8 + 32) as u8) as char
    } else {
        c
    }
}

/// `s` spells the lower-case word `word`, capitals in `s` counting as their
/// lower-case forms.
pub open spec fn spells(s: Seq<char>, word: Seq<char>) -> bool {
    s.len() == word.len() && forall|i: int| 0 <= i < s.len() ==> lower(#[trigger] s[i]) == word[i]
}

/// The format that an extension or format name stands for, if any.
pub open spec fn format_of(name: Seq<char>) -> Option<ImageFormat> {
    if spells(name, "bmp"@) {
        Some(ImageFormat::Bmp)
    } else if spells(name, "gif"@) {
        Some(ImageFormat::Gif)
    } else if spells(name, "hdr"@) {
        Some(ImageFormat::Hdr)
    } else if spells(name, "jpeg"@) {
        Some(ImageFormat::Jpeg)
    } else if spells(name, "png"@) {
        Some(ImageFormat::Png)
    } else if spells(name, "tga"@) {
        Some(ImageFormat::Tga)
    } else if spells(name, "tiff"@) {
        Some(ImageFormat::Tiff)
    } else if spells(name, "webp"@) {
        Some(ImageFormat::Webp)
    } else {
        None
    }
}

/// The name by which a file's format is chosen: the format asked for, else
/// the file's extension, else the empty name.
pub open spec fn chosen_name(format: Option<&str>, extension: Option<&str>) -> Seq<char> {
    match format {
        Some(f) => f@,
        None => match extension {
            Some(e) => e@,
            None => Seq::empty(),
        },
    }
}

fn to_lower(c: char) -> (l: char)
    ensures
        l == lower(c),
{
    if 'A' <= c && c <= 'Z' {
        ((c as u8) + 32) as char
    } else {
        c
    }
}

fn spells_word(s: &str, word: &str) -> (b: bool)
    ensures
        b == spells(s@, word@),
{
    let n: usize = s.unicode_len();
    if n != word.unicode_len() {
        return false;
    }
    let mut i: usize = 0;
    while i < n
        invariant
            n == s@.len(),
            n == word@.len(),
            i <= n,
            forall|j: int| 0 <= j < i ==> lower(#[trigger] s@[j]) == word@[j],
        decreases n - i,
    {
        if to_lower(s.get_char(i)) != word.get_char(i) {
            return false;
        }
        i = i + 1;
    }
    true
}

/// Tells the format from a file extension or a format name, without regard
/// to case.
pub fn image_format_from_extension(extension: &str) -> (r: Option<ImageFormat>)
    ensures
        r == format_of(extension@),
{
    if spells_word(extension, "bmp") {
        Some(ImageFormat::Bmp)
    } else if spells_word(extension, "gif") {
        Some(ImageFormat::Gif)
    } else if spells_word(extension, "hdr") {
        Some(ImageFormat::Hdr)
    } else if spells_word(extension, "jpeg") {
        Some(ImageFormat::Jpeg)
    } else if spells_word(extension, "png") {
        Some(ImageFormat::Png)
    } else if spells_word(extension, "tga") {
        Some(ImageFormat::Tga)
    } else if spells_word(extension, "tiff") {
        Some(ImageFormat::Tiff)
    } else if spells_word(extension, "webp") {
        Some(ImageFormat::Webp)
    } else {
        None
    }
}

/// Chooses the format in which a file is written: by the format asked for,
/// else by the file's extension. A name that stands for no format is
/// refused.
pub fn save_format(format: Option<&str>, extension: Option<&str>) -> (r: Result<
    ImageFormat,
    BitmapError,
>)
    ensures
        match r {
            Ok(f) => format_of(chosen_name(format, extension)) == Some(f),
            Err(e) => e == BitmapError::InvalidFormat && format_of(chosen_name(format, extension))
                is None,
        },
{
    let name: &str = match format {
        Some(f) => f,
        None => match extension {
            Some(e) => e,
            None => "",
        },
    };
    proof {
        reveal_strlit("");
    }
    match image_format_from_extension(name) {
        Some(f) => Ok(f),
        None => Err(BitmapError::InvalidFormat),
    }
}

} // verus!
