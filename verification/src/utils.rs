//! Format classification by file extension and aspect-preserving dimension planning.

use crate::paths::{extension_of, path_extension};
use vstd::prelude::*;

verus! {

/// The container formats the compressor tells apart.
#[derive(Clone, Copy, Debug, PartialEq, Eq, Structural)]
pub enum ImageFormat {
    Jpeg,
    Png,
    Gif,
    WebP,
    Tiff,
    Tga,
    Bmp,
    Ico,
    Hdr,
    Unsupported,
}

/// An ASCII capital becomes its lower-case letter; every other character stays.
pub open spec fn ascii_lower(c: char) -> char {
    if 'A' <= c && c <= 'Z' {
        ((c as int) + 32) as char
    } else {
        c
    }
}

/// `s` with every ASCII capital folded to lower case.
pub open spec fn lowercase(s: Seq<char>) -> Seq<char> {
    Seq::new(s.len(), |i: int| ascii_lower(s[i]))
}

/// The format an extension (without its dot) stands for, whatever its case.
pub open spec fn format_of_extension(extension: Seq<char>) -> ImageFormat {
    let e = lowercase(extension);
    if e == seq!['j', 'p', 'g'] || e == seq!['j', 'p', 'e', 'g'] {
        ImageFormat::Jpeg
    } else if e == seq!['p', 'n', 'g'] {
        ImageFormat::Png
    } else if e == seq!['g', 'i', 'f'] {
        ImageFormat::Gif
    } else if e == seq!['w', 'e', 'b', 'p'] {
        ImageFormat::WebP
    } else if e == seq!['t', 'i', 'f', 'f'] {
        ImageFormat::Tiff
    } else if e == seq!['t', 'g', 'a'] {
        ImageFormat::Tga
    } else if e == seq!['b', 'm', 'p'] {
        ImageFormat::Bmp
    } else if e == seq!['i', 'c', 'o'] {
        ImageFormat::Ico
    } else if e == seq!['h', 'd', 'r'] {
        ImageFormat::Hdr
    } else {
        ImageFormat::Unsupported
    }
}

/// The lower-case extensions of the files that are taken as input.
pub open spec fn eligible_extensions() -> Set<Seq<char>> {
    set![
        seq!['j', 'p', 'g'],
        seq!['j', 'p', 'e', 'g'],
        seq!['p', 'n', 'g'],
        seq!['g', 'i', 'f'],
        seq!['w', 'e', 'b', 'p'],
        seq!['t', 'i', 'f', 'f'],
        seq!['t', 'g', 'a'],
        seq!['b', 'm', 'p'],
        seq!['i', 'c', 'o'],
        seq!['h', 'd', 'r'],
    ]
}

/// An extension is eligible when its lower-case form is one of the ten known ones.
pub open spec fn is_eligible_extension(extension: Seq<char>) -> bool {
    eligible_extensions().contains(lowercase(extension))
}

/// An extension is eligible exactly when it stands for a known format.
pub proof fn lemma_eligible_iff_known_format(extension: Seq<char>)
    ensures
        is_eligible_extension(extension) <==> format_of_extension(extension)
            != ImageFormat::Unsupported,
{
    lemma_known_words(lowercase(extension));
}

/// Classification looks at the lower-case form only, so the case of the
/// letters never changes the answer.
pub proof fn lemma_classification_ignores_case(extension: Seq<char>)
    ensures
        format_of_extension(lowercase(extension)) == format_of_extension(extension),
        is_eligible_extension(lowercase(extension)) == is_eligible_extension(extension),
{
    assert(lowercase(lowercase(extension)) =~= lowercase(extension));
}

/// Each known extension, told letter by letter.
proof fn lemma_known_words(e: Seq<char>)
    ensures
        e == seq!['j', 'p', 'g'] <==> e.len() == 3 && e[0] == 'j' && e[1] == 'p' && e[2] == 'g',
        e == seq!['j', 'p', 'e', 'g'] <==> e.len() == 4 && e[0] == 'j' && e[1] == 'p'
            && e[2] == 'e' && e[3] == 'g',
        e == seq!['p', 'n', 'g'] <==> e.len() == 3 && e[0] == 'p' && e[1] == 'n' && e[2] == 'g',
        e == seq!['g', 'i', 'f'] <==> e.len() == 3 && e[0] == 'g' && e[1] == 'i' && e[2] == 'f',
        e == seq!['w', 'e', 'b', 'p'] <==> e.len() == 4 && e[0] == 'w' && e[1] == 'e'
            && e[2] == 'b' && e[3] == 'p',
        e == seq!['t', 'i', 'f', 'f'] <==> e.len() == 4 && e[0] == 't' && e[1] == 'i'
            && e[2] == 'f' && e[3] == 'f',
        e == seq!['t', 'g', 'a'] <==> e.len() == 3 && e[0] == 't' && e[1] == 'g' && e[2] == 'a',
        e == seq!['b', 'm', 'p'] <==> e.len() == 3 && e[0] == 'b' && e[1] == 'm' && e[2] == 'p',
        e == seq!['i', 'c', 'o'] <==> e.len() == 3 && e[0] == 'i' && e[1] == 'c' && e[2] == 'o',
        e == seq!['h', 'd', 'r'] <==> e.len() == 3 && e[0] == 'h' && e[1] == 'd' && e[2] == 'r',
{
    if e.len() == 3 && e[0] == 'j' && e[1] == 'p' && e[2] == 'g' {
        assert(e =~= seq!['j', 'p', 'g']);
    }
    if e.len() == 4 && e[0] == 'j' && e[1] == 'p' && e[2] == 'e' && e[3] == 'g' {
        assert(e =~= seq!['j', 'p', 'e', 'g']);
    }
    if e.len() == 3 && e[0] == 'p' && e[1] == 'n' && e[2] == 'g' {
        assert(e =~= seq!['p', 'n', 'g']);
    }
    if e.len() == 3 && e[0] == 'g' && e[1] == 'i' && e[2] == 'f' {
        assert(e =~= seq!['g', 'i', 'f']);
    }
    if e.len() == 4 && e[0] == 'w' && e[1] == 'e' && e[2] == 'b' && e[3] == 'p' {
        assert(e =~= seq!['w', 'e', 'b', 'p']);
    }
    if e.len() == 4 && e[0] == 't' && e[1] == 'i' && e[2] == 'f' && e[3] == 'f' {
        assert(e =~= seq!['t', 'i', 'f', 'f']);
    }
    if e.len() == 3 && e[0] == 't' && e[1] == 'g' && e[2] == 'a' {
        assert(e =~= seq!['t', 'g', 'a']);
    }
    if e.len() == 3 && e[0] == 'b' && e[1] == 'm' && e[2] == 'p' {
        assert(e =~= seq!['b', 'm', 'p']);
    }
    if e.len() == 3 && e[0] == 'i' && e[1] == 'c' && e[2] == 'o' {
        assert(e =~= seq!['i', 'c', 'o']);
    }
    if e.len() == 3 && e[0] == 'h' && e[1] == 'd' && e[2] == 'r' {
        assert(e =~= seq!['h', 'd', 'r']);
    }
}

fn to_ascii_lower(c: char) -> (r: char)
    ensures
        r == ascii_lower(c),
{
    if c >= 'A' && c <= 'Z' {
        let b: u8 = c as u8;
        (b + 32) as char
    } else {
        c
    }
}

/// Tells which format an extension stands for, `Unsupported` when it is none
/// of the known ones.
pub fn classify_extension(extension: &str) -> (format: ImageFormat)
    ensures
        format == format_of_extension(extension@),
{
    proof {
        lemma_known_words(lowercase(extension@));
    }
    let n = extension.unicode_len();
    if n == 3 {
        let a = to_ascii_lower(extension.get_char(0));
        let b = to_ascii_lower(extension.get_char(1));
        let c = to_ascii_lower(extension.get_char(2));
        if a == 'j' && b == 'p' && c == 'g' {
            ImageFormat::Jpeg
        } else if a == 'p' && b == 'n' && c == 'g' {
            ImageFormat::Png
        } else if a == 'g' && b == 'i' && c == 'f' {
            ImageFormat::Gif
        } else if a == 't' && b == 'g' && c == 'a' {
            ImageFormat::Tga
        } else if a == 'b' && b == 'm' && c == 'p' {
            ImageFormat::Bmp
        } else if a == 'i' && b == 'c' && c == 'o' {
            ImageFormat::Ico
        } else if a == 'h' && b == 'd' && c == 'r' {
            ImageFormat::Hdr
        } else {
            ImageFormat::Unsupported
        }
    } else if n == 4 {
        let a = to_ascii_lower(extension.get_char(0));
        let b = to_ascii_lower(extension.get_char(1));
        let c = to_ascii_lower(extension.get_char(2));
        let d = to_ascii_lower(extension.get_char(3));
        if a == 'j' && b == 'p' && c == 'e' && d == 'g' {
            ImageFormat::Jpeg
        } else if a == 'w' && b == 'e' && c == 'b' && d == 'p' {
            ImageFormat::WebP
        } else if a == 't' && b == 'i' && c == 'f' && d == 'f' {
            ImageFormat::Tiff
        } else {
            ImageFormat::Unsupported
        }
    } else {
        ImageFormat::Unsupported
    }
}

/// Tells whether a file with this extension (without its dot) is taken as input.
pub fn is_supported_format(extension: &str) -> (supported: bool)
    ensures
        supported == is_eligible_extension(extension@),
{
    proof {
        lemma_eligible_iff_known_format(extension@);
    }
    match classify_extension(extension) {
        ImageFormat::Unsupported => false,
        _ => true,
    }
}

/// A file is taken as input when its path has an eligible extension.
pub open spec fn is_eligible_path(path: Seq<char>) -> bool {
    match extension_of(path) {
        Some(extension) => is_eligible_extension(extension),
        None => false,
    }
}

/// The format that is written to `path`: the one its extension stands for,
/// and JPEG where the extension is missing or unknown.
pub open spec fn output_format_of(path: Seq<char>) -> ImageFormat {
    match extension_of(path) {
        Some(extension) => if is_eligible_extension(extension) {
            format_of_extension(extension)
        } else {
            ImageFormat::Jpeg
        },
        None => ImageFormat::Jpeg,
    }
}

/// Tells whether a file is taken as input by its extension, which may be
/// missing: a file without extension never is.
pub fn is_eligible_input(extension: Option<&str>) -> (eligible: bool)
    ensures
        eligible == match extension {
            Some(e) => is_eligible_extension(e@),
            None => false,
        },
{
    match extension {
        Some(e) => is_supported_format(e),
        None => false,
    }
}

/// Tells whether the file at `path` is taken as input: whether its path has
/// an extension, and that extension is eligible.
pub fn is_eligible_file(path: &str) -> (eligible: bool)
    ensures
        eligible == is_eligible_path(path@),
{
    match path_extension(path) {
        Some(extension) => is_eligible_input(Some(extension.as_str())),
        None => is_eligible_input(None),
    }
}

/// Tells which format is written to `output_path`.
pub fn determine_output_format(output_path: &str) -> (format: ImageFormat)
    ensures
        format == output_format_of(output_path@),
        format != ImageFormat::Unsupported,
{
    match path_extension(output_path) {
        Some(extension) => {
            proof {
                lemma_eligible_iff_known_format(extension@);
            }
            match classify_extension(extension.as_str()) {
                ImageFormat::Unsupported => ImageFormat::Jpeg,
                format => format,
            }
        },
        None => ImageFormat::Jpeg,
    }
}

/// The length of a side after scaling it by `new_long / long`, rounded down.
/// A side of an image without extent stays 0.
pub open spec fn scaled_side(side: nat, new_long: nat, long: nat) -> nat {
    if long == 0 {
        0
    } else {
        (side * new_long) / long
    }
}

/// The planned size of an image of `width` by `height`: the longer side is cut
/// down to `max_dimension` where it exceeds it, and the other side follows in
/// proportion, rounded down.
pub open spec fn planned_dimensions(width: nat, height: nat, max_dimension: nat) -> (nat, nat) {
    if width >= height {
        let new_width = if width <= max_dimension {
            width
        } else {
            max_dimension
        };
        (new_width, scaled_side(height, new_width, width))
    } else {
        let new_height = if height <= max_dimension {
            height
        } else {
            max_dimension
        };
        (scaled_side(width, new_height, height), new_height)
    }
}

/// `short_out / long_out` is `short_in / long_in` up to the rounding down of
/// `short_out` by less than one pixel.
pub open spec fn within_one_pixel(short_out: nat, long_out: nat, short_in: nat, long_in: nat) -> bool {
    short_out * long_in <= short_in * long_out < (short_out + 1) * long_in
}

/// What rounding down means for a scaled side.
pub proof fn lemma_scaled_side(side: nat, new_long: nat, long: nat)
    requires
        long > 0,
    ensures
        within_one_pixel(scaled_side(side, new_long, long), new_long, side, long),
        new_long <= long ==> scaled_side(side, new_long, long) <= side,
        side <= long ==> scaled_side(side, new_long, long) <= new_long,
        new_long == long ==> scaled_side(side, new_long, long) == side,
{
    let p = side * new_long;
    let q = p / long;
    assert(q * long <= p < (q + 1) * long) by (nonlinear_arith)
        requires
            q == p / long,
            long > 0,
    ;
    if new_long <= long {
        assert(q <= side) by (nonlinear_arith)
            requires
                q * long <= side * new_long,
                new_long <= long,
                long > 0,
        ;
    }
    if side <= long {
        assert(q <= new_long) by (nonlinear_arith)
            requires
                q * long <= side * new_long,
                side <= long,
                long > 0,
        ;
    }
    if new_long == long {
        assert(q == side) by (nonlinear_arith)
            requires
                q * long <= side * long < (q + 1) * long,
                long > 0,
        ;
    }
}

/// An image that already fits keeps its size: nothing is ever scaled up.
pub proof fn lemma_fitting_image_keeps_size(width: nat, height: nat, max_dimension: nat)
    requires
        width <= max_dimension,
        height <= max_dimension,
    ensures
        planned_dimensions(width, height, max_dimension) == (width, height),
{
    if width >= height {
        if width > 0 {
            lemma_scaled_side(height, width, width);
        }
    } else {
        lemma_scaled_side(width, height, height);
    }
}

/// An image that is too large comes out with its longer side at exactly
/// `max_dimension` and its shorter side in proportion, less than one pixel
/// short of the exact ratio.
pub proof fn lemma_large_image_is_cut_to_fit(width: nat, height: nat, max_dimension: nat)
    requires
        width > max_dimension || height > max_dimension,
    ensures
        ({
            let (w, h) = planned_dimensions(width, height, max_dimension);
            if width >= height {
                w == max_dimension && h <= w && within_one_pixel(h, w, height, width)
            } else {
                h == max_dimension && w <= h && within_one_pixel(w, h, width, height)
            }
        }),
{
    if width >= height {
        lemma_scaled_side(height, max_dimension, width);
    } else {
        lemma_scaled_side(width, max_dimension, height);
    }
}

/// The plan never exceeds the image nor the limit on either side.
pub proof fn lemma_plan_is_bounded(width: nat, height: nat, max_dimension: nat)
    ensures
        planned_dimensions(width, height, max_dimension).0 <= width,
        planned_dimensions(width, height, max_dimension).1 <= height,
        planned_dimensions(width, height, max_dimension).0 <= max_dimension,
        planned_dimensions(width, height, max_dimension).1 <= max_dimension,
{
    let (w, h) = planned_dimensions(width, height, max_dimension);
    if width >= height {
        if width > 0 {
            lemma_scaled_side(height, w, width);
        }
    } else {
        lemma_scaled_side(width, h, height);
    }
}

/// Planning again what was planned changes nothing.
pub proof fn lemma_plan_is_stable(width: nat, height: nat, max_dimension: nat)
    ensures
        ({
            let (w, h) = planned_dimensions(width, height, max_dimension);
            planned_dimensions(w, h, max_dimension) == (w, h)
        }),
{
    let (w, h) = planned_dimensions(width, height, max_dimension);
    lemma_plan_is_bounded(width, height, max_dimension);
    lemma_fitting_image_keeps_size(w, h, max_dimension);
}

fn scale_side(side: u32, new_long: u32, long: u32) -> (scaled: u32)
    requires
        new_long <= long,
    ensures
        scaled as nat == scaled_side(side as nat, new_long as nat, long as nat),
{
    if long == 0 {
        0
    } else {
        proof {
            lemma_scaled_side(side as nat, new_long as nat, long as nat);
            assert(side * new_long <= 0xffff_ffff * 0xffff_ffff) by (nonlinear_arith)
                requires
                    side <= 0xffff_ffff,
                    new_long <= 0xffff_ffff,
            ;
        }
        let product: u64 = (side as u64) * (new_long as u64);
        let quotient: u64 = product / (long as u64);
        quotient as u32
    }
}

/// Plans the size an image of `width` by `height` is resized to under the
/// limit `max_dimension`.
pub fn calculate_new_dimensions(width: u32, height: u32, max_dimension: u32) -> (dims: (u32, u32))
    ensures
        (dims.0 as nat, dims.1 as nat) == planned_dimensions(
            width as nat,
            height as nat,
            max_dimension as nat,
        ),
        dims.0 <= width && dims.1 <= height,
        dims.0 <= max_dimension && dims.1 <= max_dimension,
        width <= max_dimension && height <= max_dimension ==> dims == (width, height),
        (width > max_dimension || height > max_dimension) && width >= height ==> dims.0
            == max_dimension && dims.1 <= dims.0 && within_one_pixel(
            dims.1 as nat,
            dims.0 as nat,
            height as nat,
            width as nat,
        ),
        (width > max_dimension || height > max_dimension) && width < height ==> dims.1
            == max_dimension && dims.0 <= dims.1 && within_one_pixel(
            dims.0 as nat,
            dims.1 as nat,
            width as nat,
            height as nat,
        ),
{
    proof {
        lemma_plan_is_bounded(width as nat, height as nat, max_dimension as nat);
        if width <= max_dimension && height <= max_dimension {
            lemma_fitting_image_keeps_size(width as nat, height as nat, max_dimension as nat);
        } else {
            lemma_large_image_is_cut_to_fit(width as nat, height as nat, max_dimension as nat);
        }
    }
    if width >= height {
        let new_width = if width <= max_dimension {
            width
        } else {
            max_dimension
        };
        let new_height = scale_side(height, new_width, width);
        (new_width, new_height)
    } else {
        let new_height = if height <= max_dimension {
            height
        } else {
            max_dimension
        };
        let new_width = scale_side(width, new_height, height);
        (new_width, new_height)
    }
}

} // verus!
