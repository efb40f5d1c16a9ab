//! Image file recognition by extension.
use vstd::prelude::*;
use crate::strs::{self, char_vec, ends_with_chars};
use crate::unicode::{self, to_lowercase};

verus! {

/// `s` ends with `suffix`.
pub open spec fn ends_with(s: Seq<char>, suffix: Seq<char>) -> bool {
    suffix.len() <= s.len() && strs::matches_at(s, suffix, s.len() - suffix.len())
}

/// The lowercase path ends with one of the image extensions.
pub open spec fn image_extension(lower: Seq<char>) -> bool {
    ends_with(lower, ".jpg"@) || ends_with(lower, ".jpeg"@) || ends_with(lower, ".png"@)
        || ends_with(lower, ".gif"@) || ends_with(lower, ".bmp"@) || ends_with(lower, ".webp"@)
}

fn ends_with_str(s: &Vec<char>, suffix: &str) -> (r: bool)
    ensures
        r == ends_with(s@, suffix@),
{
    let v = char_vec(suffix);
    ends_with_chars(s, &v)
}

/// Whether an already lowercased path ends with an image extension.
pub fn has_image_extension(lower: &str) -> (r: bool)
    ensures
        r == image_extension(lower@),
{
    let v = char_vec(lower);
    ends_with_str(&v, ".jpg") || ends_with_str(&v, ".jpeg") || ends_with_str(&v, ".png")
        || ends_with_str(&v, ".gif") || ends_with_str(&v, ".bmp") || ends_with_str(&v, ".webp")
}

/// Whether a path names an image file: its lowercase form ends with `.jpg`,
/// `.jpeg`, `.png`, `.gif`, `.bmp` or `.webp`.
pub fn is_image_file(path: &str) -> (r: bool)
    ensures
        r == image_extension(unicode::str_lowercase(path@)),
{
    let lower = to_lowercase(path);
    has_image_extension(lower.as_str())
}

} // verus!
