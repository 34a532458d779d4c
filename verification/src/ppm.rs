//! The finished image as text, in the plain-text flavour of the pixmap
//! format: a header with the format's name, the image's size and the
//! largest channel value, then one line of three channel values for each
//! pixel, rows from the top, columns from the left.

use crate::binary64::{byte_of, clamp, clamped, to_byte_rgb, Triple, ZERO};
use crate::scanline::Scanline;
use vstd::prelude::*;

verus! {

/// A pixel ready for output: red, green and blue, each in `0..=255`.
#[derive(Clone, Copy, Debug, PartialEq, Eq, Structural)]
pub struct Rgb {
    pub r: u8,
    pub g: u8,
    pub b: u8,
}

/// The encoding of 0.999, the most that a channel is let to be before it
/// is scaled.
pub const BRIGHTEST: u64 = 0x3fef_f7ce_d916_872b;

/// The output pixel of a colour: each channel held between zero and 0.999,
/// then scaled by 256 and cut down to its whole part.
pub open spec fn quantized(color: Triple) -> Rgb {
    Rgb {
        r: byte_of(clamped(color.x, ZERO, BRIGHTEST)),
        g: byte_of(clamped(color.y, ZERO, BRIGHTEST)),
        b: byte_of(clamped(color.z, ZERO, BRIGHTEST)),
    }
}

/// Computes the output pixel of a colour whose channels have been averaged
/// and gamma-corrected.
pub fn quantize(color: Triple) -> (pixel: Rgb)
    ensures
        pixel == quantized(color),
{
    Rgb {
        r: to_byte_rgb(clamp(color.x, ZERO, BRIGHTEST)),
        g: to_byte_rgb(clamp(color.y, ZERO, BRIGHTEST)),
        b: to_byte_rgb(clamp(color.z, ZERO, BRIGHTEST)),
    }
}

/// The character of a decimal digit.
pub open spec fn digit(d: nat) -> char {
    if d == 0 {
        '0'
    } else if d == 1 {
        '1'
    } else if d == 2 {
        '2'
    } else if d == 3 {
        '3'
    } else if d == 4 {
        '4'
    } else if d == 5 {
        '5'
    } else if d == 6 {
        '6'
    } else if d == 7 {
        '7'
    } else if d == 8 {
        '8'
    } else {
        '9'
    }
}

/// A number in decimal, without sign or leading zeros.
pub open spec fn decimal(n: nat) -> Seq<char>
    decreases n,
{
    if n < 10 {
        seq![digit(n)]
    } else {
        decimal(n / 10).push(digit(n % 10))
    }
}

/// The line of one pixel: its three channels in decimal, a blank between
/// them, and a line feed.
pub open spec fn color_text(color: Rgb) -> Seq<char> {
    decimal(color.r as nat) + seq![' '] + decimal(color.g as nat) + seq![' '] + decimal(
        color.b as nat,
    ) + seq!['\n']
}

/// The lines of a row's pixels, left to right.
pub open spec fn pixels_text(pixels: Seq<Rgb>) -> Seq<char>
    decreases pixels.len(),
{
    if pixels.len() == 0 {
        Seq::empty()
    } else {
        pixels_text(pixels.drop_last()) + color_text(pixels.last())
    }
}

/// All pixels of some rows, row after row.
pub open spec fn all_pixels(rows: Seq<Scanline<Rgb>>) -> Seq<Rgb>
    decreases rows.len(),
{
    if rows.len() == 0 {
        Seq::empty()
    } else {
        all_pixels(rows.drop_last()) + rows.last().pixels@
    }
}

/// The number of the format's flavour, which follows the letter P at the
/// head of the file: colour pixels, written as text.
pub const FLAVOUR: usize = 3;

/// The largest value of a channel.
pub const WHITE: usize = 255;

/// The header: the format's name, width and height, and the largest channel
/// value, each on a line of its own.
pub open spec fn header_text(width: nat, height: nat) -> Seq<char> {
    seq!['P'] + decimal(FLAVOUR as nat) + seq!['\n'] + decimal(width) + seq![' '] + decimal(
        height,
    ) + seq!['\n'] + decimal(WHITE as nat) + seq!['\n']
}

/// The text of a decimal digit.
fn digit_str(d: usize) -> (s: &'static str)
    requires
        d < 10,
    ensures
        s@ == seq![digit(d as nat)],
{
    proof {
        reveal_strlit("0");
        reveal_strlit("1");
        reveal_strlit("2");
        reveal_strlit("3");
        reveal_strlit("4");
        reveal_strlit("5");
        reveal_strlit("6");
        reveal_strlit("7");
        reveal_strlit("8");
        reveal_strlit("9");
    }
    let s = if d == 0 {
        "0"
    } else if d == 1 {
        "1"
    } else if d == 2 {
        "2"
    } else if d == 3 {
        "3"
    } else if d == 4 {
        "4"
    } else if d == 5 {
        "5"
    } else if d == 6 {
        "6"
    } else if d == 7 {
        "7"
    } else if d == 8 {
        "8"
    } else {
        "9"
    };
    assert(s@ =~= seq![digit(d as nat)]);
    s
}

/// Appends `n` in decimal.
fn push_decimal(out: &mut String, n: usize)
    ensures
        final(out)@ == old(out)@ + decimal(n as nat),
    decreases n,
{
    if n >= 10 {
        push_decimal(out, n / 10);
    }
    out.append(digit_str(n % 10));
    proof {
        if n >= 10 {
            assert(out@ =~= old(out)@ + decimal((n / 10) as nat).push(digit((n % 10) as nat)));
        }
    }
}

/// The text of one pixel.
pub fn color_str(color: Rgb) -> (s: String)
    ensures
        s@ == color_text(color),
{
    proof {
        reveal_strlit(" ");
        reveal_strlit("\n");
    }
    let mut s = String::new();
    push_decimal(&mut s, color.r as usize);
    s.append(" ");
    push_decimal(&mut s, color.g as usize);
    s.append(" ");
    push_decimal(&mut s, color.b as usize);
    s.append("\n");
    assert(s@ =~= color_text(color)) by {
        assert(" "@ =~= seq![' ']);
        assert("\n"@ =~= seq!['\n']);
    }
    s
}

/// The header of an image of the given size.
pub fn header(width: usize, height: usize) -> (s: String)
    ensures
        s@ == header_text(width as nat, height as nat),
{
    proof {
        reveal_strlit("P");
        reveal_strlit(" ");
        reveal_strlit("\n");
    }
    let mut s = String::new();
    s.append("P");
    push_decimal(&mut s, FLAVOUR);
    s.append("\n");
    push_decimal(&mut s, width);
    s.append(" ");
    push_decimal(&mut s, height);
    s.append("\n");
    push_decimal(&mut s, WHITE);
    s.append("\n");
    assert(s@ =~= header_text(width as nat, height as nat)) by {
        assert("P"@ =~= seq!['P']);
        assert(" "@ =~= seq![' ']);
        assert("\n"@ =~= seq!['\n']);
    }
    s
}

impl Scanline<Rgb> {
    /// The text of the row: the lines of its pixels, left to right.
    pub fn to_string(&self) -> (s: String)
        ensures
            s@ == pixels_text(self.pixels@),
    {
        let mut s = String::new();
        let mut i: usize = 0;
        while i < self.pixels.len()
            invariant
                i <= self.pixels@.len(),
                s@ == pixels_text(self.pixels@.subrange(0, i as int)),
            decreases self.pixels@.len() - i,
        {
            let one = color_str(self.pixels[i]);
            s.append(one.as_str());
            proof {
                let upto = self.pixels@.subrange(0, i + 1);
                assert(upto.drop_last() =~= self.pixels@.subrange(0, i as int));
                assert(upto.last() == self.pixels@[i as int]);
            }
            i += 1;
        }
        proof {
            assert(self.pixels@.subrange(0, i as int) =~= self.pixels@);
        }
        s
    }
}

/// The text of an image of `width` columns whose rows are `rows`, from the
/// top: the header, then the line of every pixel, row after row.
pub open spec fn image_text(width: nat, rows: Seq<Scanline<Rgb>>) -> Seq<char> {
    header_text(width, rows.len()) + pixels_text(all_pixels(rows))
}

/// What can be wrong with the rows of an image.
#[derive(Clone, Copy, Debug, PartialEq, Eq, Structural)]
pub enum ImageError {
    /// The scanline at this index is not that of the row of this index.
    OutOfPlace(usize),
    /// The scanline of this row has not one pixel for each column.
    Ragged(usize),
}

/// What is wrong with the scanline at index `i`, if anything: its row is
/// looked at before its length.
pub open spec fn fault(width: nat, rows: Seq<Scanline<Rgb>>, i: int) -> Option<ImageError> {
    if rows[i].line_num != i {
        Some(ImageError::OutOfPlace(i as usize))
    } else if rows[i].pixels@.len() != width {
        Some(ImageError::Ragged(i as usize))
    } else {
        None
    }
}

/// The rows are those of an image of `width` columns: the scanline of each
/// row stands at the row's index and has `width` pixels.
pub open spec fn rectangular(width: nat, rows: Seq<Scanline<Rgb>>) -> bool {
    forall|i: int| 0 <= i < rows.len() ==> fault(width, rows, i) is None
}

/// The lines of two runs of pixels, one after the other.
proof fn lemma_pixels_text_add(a: Seq<Rgb>, b: Seq<Rgb>)
    ensures
        pixels_text(a + b) == pixels_text(a) + pixels_text(b),
    decreases b.len(),
{
    if b.len() == 0 {
        assert(a + b =~= a);
        assert(pixels_text(a) + pixels_text(b) =~= pixels_text(a));
    } else {
        assert((a + b).drop_last() =~= a + b.drop_last());
        assert((a + b).last() == b.last());
        lemma_pixels_text_add(a, b.drop_last());
        assert((pixels_text(a) + pixels_text(b.drop_last())) + color_text(b.last()) =~= pixels_text(
            a,
        ) + (pixels_text(b.drop_last()) + color_text(b.last())));
    }
}

/// A rectangular image has one pixel for each column of each row.
pub proof fn lemma_pixel_count(width: nat, rows: Seq<Scanline<Rgb>>)
    requires
        rectangular(width, rows),
    ensures
        all_pixels(rows).len() == width * rows.len(),
    decreases rows.len(),
{
    if rows.len() > 0 {
        let upper = rows.drop_last();
        assert forall|i: int| 0 <= i < upper.len() implies fault(width, upper, i) is None by {
            assert(fault(width, rows, i) is None);
        }
        lemma_pixel_count(width, upper);
        assert(fault(width, rows, rows.len() - 1) is None);
        assert(width * (rows.len() - 1) + width == width * rows.len()) by (nonlinear_arith);
    }
}

/// The finished image: its rows from the top, each with a pixel for every
/// column.
pub struct Image {
    width: usize,
    rows: Vec<Scanline<Rgb>>,
}

impl Image {
    /// Number of columns.
    pub closed spec fn width(&self) -> nat {
        self.width as nat
    }

    /// The rows, from the top.
    pub closed spec fn rows(&self) -> Seq<Scanline<Rgb>> {
        self.rows@
    }

    /// The image's invariant: its rows are in place and complete.
    pub open spec fn wf(&self) -> bool {
        rectangular(self.width(), self.rows())
    }

    /// Makes an image of rows that are in place and complete. Otherwise the
    /// answer names what is wrong with the first scanline that is at fault.
    pub fn new(width: usize, rows: Vec<Scanline<Rgb>>) -> (image: Result<Self, ImageError>)
        ensures
            match image {
                Ok(image) => {
                    &&& rectangular(width as nat, rows@)
                    &&& image.wf()
                    &&& image.width() == width
                    &&& image.rows() == rows@
                },
                Err(e) => exists|i: int|
                    {
                        &&& 0 <= i < rows@.len()
                        &&& #[trigger] fault(width as nat, rows@, i) == Some(e)
                        &&& forall|j: int| 0 <= j < i ==> fault(width as nat, rows@, j) is None
                    },
            },
    {
        let mut i: usize = 0;
        while i < rows.len()
            invariant
                i <= rows@.len(),
                forall|j: int| 0 <= j < i ==> fault(width as nat, rows@, j) is None,
            decreases rows@.len() - i,
        {
            if rows[i].line_num != i {
                assert(fault(width as nat, rows@, i as int) == Some(ImageError::OutOfPlace(i)));
                return Err(ImageError::OutOfPlace(i));
            }
            if rows[i].pixels.len() != width {
                assert(fault(width as nat, rows@, i as int) == Some(ImageError::Ragged(i)));
                return Err(ImageError::Ragged(i));
            }
            i += 1;
        }
        Ok(Image { width, rows })
    }

    /// Number of rows.
    pub fn height(&self) -> (n: usize)
        ensures
            n == self.rows().len(),
    {
        self.rows.len()
    }

    /// The image as text: the header, then the line of every pixel, rows
    /// from the top and columns from the left.
    pub fn to_string(&self) -> (s: String)
        ensures
            s@ == image_text(self.width(), self.rows()),
    {
        let mut s = header(self.width, self.rows.len());
        let ghost head = s@;
        let mut i: usize = 0;
        while i < self.rows.len()
            invariant
                i <= self.rows@.len(),
                s@ == head + pixels_text(all_pixels(self.rows@.subrange(0, i as int))),
            decreases self.rows@.len() - i,
        {
            let row = self.rows[i].to_string();
            s.append(row.as_str());
            proof {
                let before = self.rows@.subrange(0, i as int);
                let upto = self.rows@.subrange(0, i + 1);
                assert(upto.drop_last() =~= before);
                assert(upto.last() == self.rows@[i as int]);
                lemma_pixels_text_add(all_pixels(before), self.rows@[i as int].pixels@);
                assert(s@ =~= head + pixels_text(all_pixels(upto)));
            }
            i += 1;
        }
        proof {
            assert(self.rows@.subrange(0, i as int) =~= self.rows@);
        }
        s
    }
}

} // verus!
