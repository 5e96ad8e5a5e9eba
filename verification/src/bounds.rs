//! The pixel grid: its size, the place of each pixel in the row-major buffer,
//! the bands (one per pixel row) into which the buffer is cut, and the text
//! form of an image size, such as `1000x750`.

use crate::pair::lemma_split_is_unique;
use crate::pair::pair_of;
use crate::pair::split_pair;
use crate::pair::splits_at_first;
use std::str::FromStr;
use vstd::arithmetic::div_mod::lemma_fundamental_div_mod;
use vstd::arithmetic::div_mod::lemma_fundamental_div_mod_converse;
use vstd::prelude::*;

verus! {

/// Width and height of an image, in pixels.
#[derive(Clone, Copy, Debug, PartialEq, Eq)]
pub struct ImageBounds {
    pub width: usize,
    pub height: usize,
}

/// Whether a `width` by `height` grid has at least one pixel and a pixel count
/// that a buffer length can hold.
pub open spec fn is_grid(width: int, height: int) -> bool {
    &&& 0 < width
    &&& 0 < height
    &&& width * height <= usize::MAX
}

/// Where pixel (`column`, `row`) lies in a row-major buffer of rows `width` long.
pub open spec fn index_of(width: int, column: int, row: int) -> int {
    row * width + column
}

impl ImageBounds {
    /// Both sides positive, and the pixel count fits a buffer length.
    pub open spec fn wf(&self) -> bool {
        is_grid(self.width as int, self.height as int)
    }

    /// The number of pixels.
    pub open spec fn area(&self) -> int {
        self.width * self.height
    }

    /// The bounds of a `width` by `height` image. Refused where a side is zero
    /// or the pixel count is beyond what a buffer can hold.
    pub fn new(width: usize, height: usize) -> (bounds: Option<ImageBounds>)
        ensures
            bounds is Some <==> is_grid(width as int, height as int),
            bounds is Some ==> bounds->0.width == width && bounds->0.height == height,
    {
        if width == 0 || height == 0 {
            return None;
        }
        match width.checked_mul(height) {
            Some(_) => Some(ImageBounds { width, height }),
            None => None,
        }
    }

    /// The length of the pixel buffer.
    pub fn pixel_count(&self) -> (count: usize)
        requires
            self.wf(),
        ensures
            count == self.area(),
            count > 0,
    {
        proof {
            lemma_area_positive(self.width as int, self.height as int);
        }
        self.width * self.height
    }

    /// The place of pixel (`column`, `row`) in the buffer.
    pub fn pixel_index(&self, column: usize, row: usize) -> (index: usize)
        requires
            self.wf(),
            column < self.width,
            row < self.height,
        ensures
            index == index_of(self.width as int, column as int, row as int),
            index < self.area(),
    {
        proof {
            lemma_index_in_grid(self.width as int, self.height as int, column as int, row as int);
        }
        row * self.width + column
    }

    /// The bounds of one band: a single pixel row of the same width.
    pub fn band(&self) -> (band: ImageBounds)
        requires
            self.wf(),
        ensures
            band.wf(),
            band.width == self.width,
            band.height == 1,
            band.area() == self.width,
    {
        ImageBounds { width: self.width, height: 1 }
    }

    /// Where band `row` begins in the buffer; with `row == height`, where the
    /// buffer ends.
    pub fn band_start(&self, row: usize) -> (start: usize)
        requires
            self.wf(),
            row <= self.height,
        ensures
            start == row * self.width,
            start <= self.area(),
            row < self.height ==> start + self.width <= self.area(),
    {
        proof {
            lemma_band_in_grid(self.width as int, self.height as int, row as int);
        }
        row * self.width
    }
}

/// Whether `c` is one of the ten decimal digits.
pub open spec fn is_digit(c: char) -> bool {
    0x30 <= c as u32 <= 0x39
}

/// The number that a row of decimal digits stands for.
pub open spec fn decimal_value(digits: Seq<char>) -> nat
    decreases digits.len(),
{
    if digits.len() == 0 {
        0
    } else {
        (10 * decimal_value(digits.drop_last()) + (digits.last() as u32 - 0x30)) as nat
    }
}

/// The digits of an unsigned number: `text` without the `+` that may stand
/// before them.
pub open spec fn unsigned_digits(text: Seq<char>) -> Seq<char> {
    if text.len() > 0 && text[0] == '+' {
        text.skip(1)
    } else {
        text
    }
}

/// The number that `text` stands for as a `usize`: one or more decimal
/// digits, with or without a `+` before them, nothing else, and a value that
/// a `usize` holds.
pub open spec fn usize_text(text: Seq<char>) -> Option<usize> {
    let digits = unsigned_digits(text);
    if digits.len() > 0 && (forall|i: int| 0 <= i < digits.len() ==> is_digit(#[trigger] digits[i]))
        && decimal_value(digits) <= usize::MAX {
        Some(decimal_value(digits) as usize)
    } else {
        None
    }
}

/// Reads a `usize` with `usize::from_str`, and keeps the number where that
/// succeeded. Claimed of it, and not proved: it accepts decimal digits, at
/// least one, after an optional `+`, and nothing else (no blanks, no
/// underscores, no `-`); it fails where the number is too large for a `usize`.
#[verifier::external_body]
fn parse_usize(text: &str) -> (value: Option<usize>)
    ensures
        value == usize_text(text@),
{
    match usize::from_str(text) {
        Ok(value) => Some(value),
        Err(_) => None,
    }
}

/// The bounds made of two readings: there where both are numbers and make a
/// grid.
pub open spec fn bounds_of(width: Option<usize>, height: Option<usize>) -> Option<ImageBounds> {
    match (width, height) {
        (Some(w), Some(h)) => if is_grid(w as int, h as int) {
            Some(ImageBounds { width: w, height: h })
        } else {
            None
        },
        _ => None,
    }
}

/// Reads an image size written as `<width>x<height>`, such as `1000x750`.
///
/// There is none without an `x`. With one, the text before the first `x` is
/// the width and the text after it the height, and the size is there exactly
/// when both are numbers and make a grid.
pub fn parse_bounds(text: &str) -> (bounds: Option<ImageBounds>)
    ensures
        !text@.contains('x') ==> bounds is None,
        forall|left: Seq<char>, right: Seq<char>| #[trigger]
            splits_at_first(text@, 'x', left, right) ==> bounds == bounds_of(
                usize_text(left),
                usize_text(right),
            ),
        bounds is Some ==> bounds->0.wf(),
{
    match split_pair(text, 'x') {
        None => {
            proof {
                assert forall|l: Seq<char>, r: Seq<char>| #[trigger]
                    splits_at_first(text@, 'x', l, r) implies false by {
                    assert(text@[l.len() as int] == 'x');
                }
            }
            None
        },
        Some((left, right)) => {
            let width = parse_usize(left);
            let height = parse_usize(right);
            proof {
                assert forall|l: Seq<char>, r: Seq<char>| #[trigger]
                    splits_at_first(text@, 'x', l, r) implies l == left@ && r == right@ by {
                    lemma_split_is_unique(text@, 'x', l, r, left@, right@);
                }
            }
            match pair_of(width, height) {
                None => None,
                Some((w, h)) => ImageBounds::new(w, h),
            }
        },
    }
}

proof fn lemma_area_positive(width: int, height: int)
    requires
        0 < width,
        0 < height,
    ensures
        width * height > 0,
{
    assert(width * height > 0) by (nonlinear_arith)
        requires
            0 < width,
            0 < height,
    ;
}

proof fn lemma_band_in_grid(width: int, height: int, row: int)
    requires
        0 < width,
        0 <= row <= height,
    ensures
        0 <= row * width <= width * height,
        row < height ==> row * width + width <= width * height,
{
    assert(0 <= row * width <= width * height) by (nonlinear_arith)
        requires
            0 < width,
            0 <= row <= height,
    ;
    if row < height {
        assert(row * width + width <= width * height) by (nonlinear_arith)
            requires
                0 < width,
                0 <= row,
                row + 1 <= height,
        ;
    }
}

/// A pixel inside the grid has its place inside the buffer, and the place
/// gives the pixel back: the column is the place modulo the width, the row is
/// the place divided by the width.
pub proof fn lemma_index_in_grid(width: int, height: int, column: int, row: int)
    requires
        0 < width,
        0 <= column < width,
        0 <= row < height,
    ensures
        0 <= index_of(width, column, row) < width * height,
        index_of(width, column, row) % width == column,
        index_of(width, column, row) / width == row,
{
    lemma_band_in_grid(width, height, row);
    lemma_fundamental_div_mod_converse(index_of(width, column, row), width, row, column);
}

/// Every place in the buffer belongs to exactly one pixel of the grid: the one
/// in column `place % width` of row `place / width`.
pub proof fn lemma_place_has_pixel(width: int, height: int, place: int)
    requires
        0 < width,
        0 < height,
        0 <= place < width * height,
    ensures
        0 <= place % width < width,
        0 <= place / width < height,
        index_of(width, place % width, place / width) == place,
        forall|column: int, row: int|
            0 <= column < width && 0 <= row < height && #[trigger] index_of(width, column, row)
                == place ==> column == place % width && row == place / width,
{
    lemma_fundamental_div_mod(place, width);
    let q = place / width;
    let r = place % width;
    assert(0 <= r < width);
    assert(width * q == q * width) by (nonlinear_arith);
    assert(0 <= q < height) by (nonlinear_arith)
        requires
            0 < width,
            0 <= r < width,
            0 <= q * width + r < width * height,
    ;
    assert forall|column: int, row: int|
        0 <= column < width && 0 <= row < height && #[trigger] index_of(width, column, row)
            == place implies column == place % width && row == place / width by {
        lemma_index_in_grid(width, height, column, row);
    }
}

/// The bands cut the buffer completely and without overlap: a place lies in
/// band `row` exactly when `row` is the place divided by the width.
pub proof fn lemma_bands_partition(width: int, height: int, place: int, row: int)
    requires
        0 < width,
        0 < height,
        0 <= place < width * height,
        0 <= row < height,
    ensures
        (row * width <= place < row * width + width) <==> row == place / width,
{
    lemma_place_has_pixel(width, height, place);
    if row * width <= place < row * width + width {
        let column = place - row * width;
        assert(index_of(width, column, row) == place);
    }
}

} // verus!
