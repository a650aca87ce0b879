//! Images of pixels in the plain-text PPM format.
use vstd::prelude::*;

use crate::convert::FromAbabaValue;
use crate::value::{AbabaParseError, AbabaValue};

verus! {

/// A color of three 8-bit channels.
#[derive(Debug, Clone, Copy, PartialEq, Eq, Structural)]
pub struct Pixel {
    pub r: u8,
    pub g: u8,
    pub b: u8,
}

/// The lowercase hexadecimal digit of `d`.
pub open spec fn hex_digit(d: nat) -> char {
    if d < 10 {
        (d + '0' as nat) as char
    } else {
        (d - 10 + 'a' as nat) as char
    }
}

/// `b` in lowercase hexadecimal, without leading zeros.
pub open spec fn hex_of(b: u8) -> Seq<char> {
    if b < 16 {
        seq![hex_digit(b as nat)]
    } else {
        seq![hex_digit(b as nat / 16), hex_digit(b as nat % 16)]
    }
}

/// The digits of `n` in decimal, without leading zeros.
pub open spec fn decimal_of(n: nat) -> Seq<char>
    decreases n,
{
    if n < 10 {
        seq![hex_digit(n)]
    } else {
        decimal_of(n / 10).push(hex_digit(n % 10))
    }
}

/// Relies on `FromIterator<char>` for `String`: the string holds the
/// characters in order.
#[verifier::external_body]
fn string_from(chars: &Vec<char>) -> (r: String)
    ensures
        r@ == chars@,
{
    chars.iter().collect()
}

fn push_hex(out: &mut Vec<char>, b: u8)
    ensures
        final(out)@ == old(out)@ + hex_of(b),
{
    let ghost before = out@;
    if b >= 16 {
        out.push(hex_char(b / 16));
    }
    out.push(hex_char(b % 16));
    assert(out@ =~= before + hex_of(b));
}

fn hex_char(d: u8) -> (r: char)
    requires
        d < 16,
    ensures
        r == hex_digit(d as nat),
{
    if d < 10 {
        (d + 48) as char
    } else {
        (d - 10 + 97) as char
    }
}

/// Appends the decimal digits of `n` to `out`.
fn push_decimal(out: &mut Vec<char>, n: usize)
    ensures
        final(out)@ == old(out)@ + decimal_of(n as nat),
    decreases n,
{
    let ghost before = out@;
    if n >= 10 {
        push_decimal(out, n / 10);
    }
    out.push(hex_char((n % 10) as u8));
    assert(out@ =~= before + decimal_of(n as nat));
}

pub open spec fn black() -> Pixel {
    Pixel { r: 0, g: 0, b: 0 }
}

impl Pixel {
    pub fn white() -> (p: Self)
        ensures
            p == (Pixel { r: 255, g: 255, b: 255 }),
    {
        Pixel { r: 255, g: 255, b: 255 }
    }

    pub fn black() -> (p: Self)
        ensures
            p == black(),
    {
        Pixel { r: 0, g: 0, b: 0 }
    }

    pub fn new(r: u8, g: u8, b: u8) -> (p: Self)
        ensures
            p == (Pixel { r, g, b }),
    {
        Pixel { r, g, b }
    }

    /// The three channels as a list of hexadecimal numbers, as in `[ff, 0, a]`.
    pub fn as_hex(&self) -> (s: String)
        ensures
            s@ == seq!['['] + hex_of(self.r) + seq![',', ' '] + hex_of(self.g) + seq![',', ' ']
                + hex_of(self.b) + seq![']'],
    {
        let mut out: Vec<char> = Vec::new();
        out.push('[');
        push_hex(&mut out, self.r);
        out.push(',');
        out.push(' ');
        push_hex(&mut out, self.g);
        out.push(',');
        out.push(' ');
        push_hex(&mut out, self.b);
        out.push(']');
        assert(out@ =~= seq!['['] + hex_of(self.r) + seq![',', ' '] + hex_of(self.g) + seq![
            ',',
            ' ',
        ] + hex_of(self.b) + seq![']']);
        string_from(&out)
    }

    /// The color as `0xRRGGBB`.
    pub fn to_rgb(self) -> (x: u32)
        ensures
            x == self.r * 65536 + self.g * 256 + self.b,
    {
        (self.r as u32) * 65536 + (self.g as u32) * 256 + (self.b as u32)
    }
}

impl From<Pixel> for u32 {
    fn from(value: Pixel) -> (x: u32) {
        value.to_rgb()
    }
}

impl vstd::std_specs::convert::FromSpecImpl<Pixel> for u32 {
    open spec fn obeys_from_spec() -> bool {
        true
    }

    open spec fn from_spec(v: Pixel) -> u32 {
        (v.r * 65536 + v.g * 256 + v.b) as u32
    }
}

impl Default for Pixel {
    fn default() -> (p: Self)
        ensures
            p == black(),
    {
        Pixel::black()
    }
}

/// A color converts from a tuple of three 8-bit numbers.
impl FromAbabaValue for Pixel {
    open spec fn failure(v: AbabaValue) -> Option<AbabaParseError> {
        <(u8, u8, u8) as FromAbabaValue>::failure(v)
    }

    open spec fn converted(v: AbabaValue, x: Pixel) -> bool {
        <(u8, u8, u8) as FromAbabaValue>::converted(v, (x.r, x.g, x.b))
    }

    fn from_value(v: AbabaValue) -> (r: Result<Pixel, AbabaParseError>) {
        match <(u8, u8, u8) as FromAbabaValue>::from_value(v) {
            Ok((r, g, b)) => Ok(Pixel::new(r, g, b)),
            Err(e) => Err(e),
        }
    }
}

/// An image of `width` by `height` pixels, stored row by row.
pub struct PpmP3 {
    pub width: usize,
    pub height: usize,
    pixels: Vec<Pixel>,
}

impl PpmP3 {
    /// The pixels, row by row.
    pub closed spec fn pixels(&self) -> Seq<Pixel> {
        self.pixels@
    }

    /// The width, in pixels.
    pub closed spec fn columns(&self) -> nat {
        self.width as nat
    }

    /// The height, in pixels.
    pub closed spec fn rows(&self) -> nat {
        self.height as nat
    }

    /// There is one pixel for each column of each row.
    pub closed spec fn wf(&self) -> bool {
        self.pixels().len() == self.width * self.height
    }

    /// A black image.
    pub fn new(width: usize, height: usize) -> (r: Self)
        requires
            width * height <= usize::MAX,
        ensures
            r.wf(),
            r.columns() == width,
            r.rows() == height,
            forall|i: int| 0 <= i < r.pixels().len() ==> #[trigger] r.pixels()[i] == black(),
    {
        let n = width * height;
        let mut pixels: Vec<Pixel> = Vec::new();
        let mut i: usize = 0;
        while i < n
            invariant
                i <= n,
                pixels@.len() == i,
                forall|j: int| 0 <= j < i ==> #[trigger] pixels@[j] == black(),
            decreases n - i,
        {
            pixels.push(Pixel::default());
            i = i + 1;
        }
        PpmP3 { width, height, pixels }
    }

    /// The pixel in column `x` of row `y`; `None` where the index
    /// `y * width + x` lies past the last pixel.
    pub fn get_mut_pixel(&mut self, x: usize, y: usize) -> (r: Option<&mut Pixel>)
        requires
            y * old(self).columns() + x <= usize::MAX,
        ensures
            final(self).columns() == old(self).columns(),
            final(self).rows() == old(self).rows(),
            match r {
                Some(p) => {
                    let i = y * old(self).columns() + x;
                    &&& i < old(self).pixels().len()
                    &&& *p == old(self).pixels()[i]
                    &&& final(self).pixels() == old(self).pixels().update(i, *final(p))
                },
                None => y * old(self).columns() + x >= old(self).pixels().len() && final(self).pixels()
                    == old(self).pixels(),
            },
    {
        let i = y * self.width + x;
        if i < self.pixels.len() {
            Some(&mut self.pixels[i])
        } else {
            None
        }
    }

    /// The image in the plain-text PPM format: the format's magic line, the size and the
    /// largest channel value, then one line of three decimal channels per
    /// pixel.
    pub fn to_text(&self) -> (s: String)
        ensures
            s@ == ppm_text(self.columns(), self.rows(), self.pixels()),
    {
        let mut out: Vec<char> = Vec::new();
        out.push('P');
        out.push('3');
        out.push('\n');
        push_decimal(&mut out, self.width);
        out.push(' ');
        push_decimal(&mut out, self.height);
        out.push('\n');
        out.push('2');
        out.push('5');
        out.push('5');
        out.push('\n');
        let ghost header = out@;
        assert(header =~= ppm_header(self.width as nat, self.height as nat));
        let mut i: usize = 0;
        while i < self.pixels.len()
            invariant
                i <= self.pixels@.len(),
                out@ == header + pixel_lines(self.pixels@.take(i as int)),
            decreases self.pixels@.len() - i,
        {
            let p = self.pixels[i];
            let ghost before = out@;
            push_decimal(&mut out, p.r as usize);
            out.push(' ');
            push_decimal(&mut out, p.g as usize);
            out.push(' ');
            push_decimal(&mut out, p.b as usize);
            out.push('\n');
            assert(self.pixels@.take(i + 1).drop_last() =~= self.pixels@.take(i as int));
            assert(out@ =~= before + pixel_line(p));
            i = i + 1;
        }
        assert(self.pixels@.take(i as int) =~= self.pixels@);
        string_from(&out)
    }
}

pub open spec fn ppm_header(width: nat, height: nat) -> Seq<char> {
    seq!['P', '3', '\n'] + decimal_of(width) + seq![' '] + decimal_of(height) + seq![
        '\n',
        '2',
        '5',
        '5',
        '\n',
    ]
}

pub open spec fn pixel_line(p: Pixel) -> Seq<char> {
    decimal_of(p.r as nat) + seq![' '] + decimal_of(p.g as nat) + seq![' '] + decimal_of(
        p.b as nat,
    ) + seq!['\n']
}

pub open spec fn pixel_lines(ps: Seq<Pixel>) -> Seq<char>
    decreases ps.len(),
{
    if ps.len() == 0 {
        Seq::empty()
    } else {
        pixel_lines(ps.drop_last()) + pixel_line(ps.last())
    }
}

pub open spec fn ppm_text(width: nat, height: nat, pixels: Seq<Pixel>) -> Seq<char> {
    ppm_header(width, height) + pixel_lines(pixels)
}

} // verus!
