//! The rendered image: a row-major buffer of 8-bit RGB triples, with its
//! text-based (PPM) serialisation pinned character by character.

use crate::vec3::Vec3;
use vstd::arithmetic::div_mod::{lemma_div_is_strictly_smaller, lemma_mod_division_less_than_divisor};
use vstd::prelude::*;
use vstd::string::StringExecFns;

verus! {

/// The decimal digits of `n` (for `n >= 0`), most significant first.
pub open spec fn spec_digits(n: int) -> Seq<char>
    decreases n,
{
    if n <= 9 {
        seq![spec_digit(if n < 0 { 0 } else { n })]
    } else {
        spec_digits(n / 10) + seq![spec_digit(n % 10)]
    }
}

/// One decimal digit as a character.
pub open spec fn spec_digit(d: int) -> char {
    if d == 0 {
        '0'
    } else if d == 1 {
        '1'
    } else if d == 2 {
        '2'
    } else if d == 3 {
        '3'
    } else if d == 4 {
        '4'
    } else if d == 5 {
        '5'
    } else if d == 6 {
        '6'
    } else if d == 7 {
        '7'
    } else if d == 8 {
        '8'
    } else {
        '9'
    }
}

/// Append the decimal digits of `n` to `s`.
fn push_digits(n: usize, s: &mut String)
    ensures
        final(s)@ == old(s)@ + spec_digits(n as int),
    decreases n,
{
    if n >= 10 {
        proof {
            lemma_div_is_strictly_smaller(n as int, 10);
        }
        push_digits(n / 10, s);
    }
    let d = n % 10;
    proof {
        lemma_mod_division_less_than_divisor(n as int, 10);
        reveal_strlit("0");
        reveal_strlit("1");
        reveal_strlit("2");
        reveal_strlit("3");
        reveal_strlit("4");
        reveal_strlit("5");
        reveal_strlit("6");
        reveal_strlit("7");
        reveal_strlit("8");
        reveal_strlit("9");
    }
    match d {
        0 => s.append("0"),
        1 => s.append("1"),
        2 => s.append("2"),
        3 => s.append("3"),
        4 => s.append("4"),
        5 => s.append("5"),
        6 => s.append("6"),
        7 => s.append("7"),
        8 => s.append("8"),
        _ => s.append("9"),
    }
    proof {
        assert(spec_digits(n as int) == if n <= 9 {
            seq![spec_digit(n as int)]
        } else {
            spec_digits(n as int / 10) + seq![spec_digit(n as int % 10)]
        });
    }
}

pub struct Image {
    data: Vec<Vec3<u8>>,
    x_size: usize,
    y_size: usize,
}

/// One pixel's text: the three channel values separated by single spaces.
pub open spec fn spec_pixel_text(p: Vec3<u8>) -> Seq<char> {
    spec_digits(p.0 as int) + seq![' '] + spec_digits(p.1 as int) + seq![' '] + spec_digits(
        p.2 as int,
    )
}

impl Image {
    pub closed spec fn spec_x(self) -> int {
        self.x_size as int
    }

    pub closed spec fn spec_y(self) -> int {
        self.y_size as int
    }

    pub closed spec fn spec_pixel(self, x: int, y: int) -> Vec3<u8> {
        self.data@[x + y * self.spec_x()]
    }

    /// The buffer holds exactly one triple per pixel. Established by `new`
    /// and preserved by `set`; the accessors ask for it.
    pub closed spec fn wf(self) -> bool {
        self.data@.len() == self.x_size * self.y_size
    }

    /// A black image of the given dimensions.
    pub fn new(x_size: usize, y_size: usize) -> (im: Image)
        requires
            x_size * y_size <= 100_000_000,
        ensures
            im.wf(),
            im.spec_x() == x_size,
            im.spec_y() == y_size,
            forall|x: int, y: int|
                0 <= x < x_size && 0 <= y < y_size ==> #[trigger] im.spec_pixel(x, y) == (Vec3(
                    0u8,
                    0u8,
                    0u8,
                )),
    {
        let total = x_size * y_size;
        let mut data: Vec<Vec3<u8>> = Vec::new();
        let mut i: usize = 0;
        while i < total
            invariant
                i <= total,
                data@.len() == i,
                forall|k: int| 0 <= k < i ==> data@[k] == (Vec3(0u8, 0u8, 0u8)),
            decreases total - i,
        {
            data.push(Vec3(0, 0, 0));
            i = i + 1;
        }
        proof {
            let im = (Image { data, x_size, y_size });
            assert forall|x: int, y: int| 0 <= x < x_size && 0 <= y < y_size implies #[trigger] im.spec_pixel(
                x,
                y,
            ) == (Vec3(0u8, 0u8, 0u8)) by {
                lemma_row_major_index(x, y, x_size as int, y_size as int);
            }
        }
        Image { data, x_size, y_size }
    }

    pub fn x_len(&self) -> (r: usize)
        ensures
            r == self.spec_x(),
    {
        self.x_size
    }

    pub fn y_len(&self) -> (r: usize)
        ensures
            r == self.spec_y(),
    {
        self.y_size
    }

    /// Read the pixel at `(x, y)`.
    pub fn get(&self, x: usize, y: usize) -> (p: Vec3<u8>)
        requires
            self.wf(),
            x < self.spec_x(),
            y < self.spec_y(),
        ensures
            p == self.spec_pixel(x as int, y as int),
    {
        let buffer_len = self.data.len();
        proof {
            lemma_row_major_index(x as int, y as int, self.spec_x(), self.spec_y());
            assert(x + y * self.spec_x() < buffer_len);
        }
        self.data[x + y * self.x_size]
    }

    /// Overwrite the pixel at `(x, y)`; all other pixels and the dimensions
    /// are kept.
    pub fn set(&mut self, x: usize, y: usize, pixel: Vec3<u8>)
        requires
            old(self).wf(),
            x < old(self).spec_x(),
            y < old(self).spec_y(),
        ensures
            final(self).wf(),
            final(self).spec_x() == old(self).spec_x(),
            final(self).spec_y() == old(self).spec_y(),
            final(self).spec_pixel(x as int, y as int) == pixel,
            forall|a: int, b: int|
                0 <= a < old(self).spec_x() && 0 <= b < old(self).spec_y() && !(a == x && b == y)
                    ==> #[trigger] final(self).spec_pixel(a, b) == old(self).spec_pixel(a, b),
    {
        let buffer_len = self.data.len();
        proof {
            lemma_row_major_index(x as int, y as int, self.spec_x(), self.spec_y());
            assert(x + y * self.spec_x() < buffer_len);
        }
        let idx = x + y * self.x_size;
        self.data.set(idx, pixel);
        proof {
            let xs = old(self).spec_x();
            assert forall|a: int, b: int|
                0 <= a < old(self).spec_x() && 0 <= b < old(self).spec_y() && !(a == x && b == y) implies #[trigger] final(
            self).spec_pixel(a, b) == old(self).spec_pixel(a, b) by {
                lemma_row_major_index(a, b, old(self).spec_x(), old(self).spec_y());
                lemma_row_major_distinct(a, b, x as int, y as int, xs);
            }
        }
    }

    /// Serialise as a plain (P3) PPM: magic number, dimensions, the channel
    /// maximum, then the pixel rows; pixels within a row are separated by
    /// four spaces, rows by single newlines, with no trailing separators.
    pub fn to_ppm(&self) -> (r: String)
        requires
            self.wf(),
        ensures
            r@ == spec_ppm(*self),
    {
        proof {
            reveal_strlit("P3\n");
            reveal_strlit(" ");
            reveal_strlit("\n");
            reveal_strlit("255\n");
            reveal_strlit("    ");
        }
        let mut result = String::new();
        result.append("P3\n");
        push_digits(self.x_size, &mut result);
        result.append(" ");
        push_digits(self.y_size, &mut result);
        result.append("\n");
        result.append("255\n");
        let mut y: usize = 0;
        while y < self.y_size
            invariant
                y <= self.spec_y(),
                self.wf(),
                result@ == spec_header(*self) + spec_rows(*self, y as int),
            decreases self.spec_y() - y,
        {
            let mut x: usize = 0;
            while x < self.x_size
                invariant
                    x <= self.spec_x(),
                    y < self.spec_y(),
                    self.wf(),
                    result@ == spec_header(*self) + spec_rows(*self, y as int) + spec_row(
                        *self,
                        y as int,
                        x as int,
                    ),
                decreases self.spec_x() - x,
            {
                proof {
                    reveal_strlit(" ");
                    reveal_strlit("    ");
                }
                let p = self.get(x, y);
                push_digits(p.0 as usize, &mut result);
                result.append(" ");
                push_digits(p.1 as usize, &mut result);
                result.append(" ");
                push_digits(p.2 as usize, &mut result);
                if x != self.x_size - 1 {
                    result.append("    ");
                }
                proof {
                    assert(result@ =~= spec_header(*self) + spec_rows(*self, y as int) + spec_row(
                        *self,
                        y as int,
                        x as int + 1,
                    ));
                }
                x = x + 1;
            }
            proof {
                reveal_strlit("\n");
            }
            if y != self.y_size - 1 {
                result.append("\n");
            }
            proof {
                assert(result@ =~= spec_header(*self) + spec_rows(*self, y as int + 1));
            }
            y = y + 1;
        }
        result
    }
}

/// The PPM header: magic number, dimensions, channel maximum.
pub open spec fn spec_header(im: Image) -> Seq<char> {
    seq!['P', '3', '\n'] + spec_digits(im.spec_x()) + seq![' '] + spec_digits(im.spec_y())
        + seq!['\n'] + seq!['2', '5', '5', '\n']
}

/// The first `x` cells of row `y`, each with its following separator.
pub open spec fn spec_row(im: Image, y: int, x: int) -> Seq<char>
    decreases x,
{
    if x <= 0 {
        Seq::empty()
    } else {
        spec_row(im, y, x - 1) + spec_pixel_text(im.spec_pixel(x - 1, y)) + (if x - 1
            != im.spec_x() - 1 {
            seq![' ', ' ', ' ', ' ']
        } else {
            Seq::empty()
        })
    }
}

/// The first `y` full rows, each with its following row separator.
pub open spec fn spec_rows(im: Image, y: int) -> Seq<char>
    decreases y,
{
    if y <= 0 {
        Seq::empty()
    } else {
        spec_rows(im, y - 1) + spec_row(im, y - 1, im.spec_x()) + (if y - 1 != im.spec_y() - 1 {
            seq!['\n']
        } else {
            Seq::empty()
        })
    }
}

/// The whole serialised image.
pub open spec fn spec_ppm(im: Image) -> Seq<char> {
    spec_header(im) + spec_rows(im, im.spec_y())
}

/// Distinct coordinates give distinct row-major indices.
proof fn lemma_row_major_distinct(a: int, b: int, x: int, y: int, xs: int)
    by (nonlinear_arith)
    requires
        0 <= a < xs,
        0 <= x < xs,
        a != x || b != y,
    ensures
        a + b * xs != x + y * xs,
{
}

/// Row-major indexing stays within the buffer.
proof fn lemma_row_major_index(x: int, y: int, xs: int, ys: int)
    by (nonlinear_arith)
    requires
        0 <= x < xs,
        0 <= y < ys,
    ensures
        0 <= x + y * xs < xs * ys,
{
}


} // verus!
