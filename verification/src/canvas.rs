//! The canvas and its byte-exact PPM encoding.
//!
//! A canvas is a grid of pixels whose channels are already encoded to the
//! 0..=255 range. `write_to_ppm` produces the plain-text PPM image: a header,
//! then each pixel row as space-separated channel values, wrapped so that no
//! line exceeds 70 characters, every row ending in a newline.

use vstd::pervasive::VecAdditionalExecFns;
use vstd::prelude::*;

verus! {

/// Largest encoded channel value, as written in the PPM header.
pub const PIXEL_MAX: u64 = 255;

/// Horizontal extent of a canvas, in pixels.
#[derive(Clone, Copy, Debug, PartialEq, Eq, Structural)]
pub struct Width(pub usize);

/// Vertical extent of a canvas, in pixels.
#[derive(Clone, Copy, Debug, PartialEq, Eq, Structural)]
pub struct Height(pub usize);

/// The extent of a canvas.
#[derive(Clone, Copy, Debug, PartialEq, Eq, Structural)]
pub struct CanvasSize {
    pub width: u64,
    pub height: u64,
}

impl CanvasSize {
    pub fn new(width: u64, height: u64) -> (r: CanvasSize)
        ensures
            r == (CanvasSize { width, height }),
    {
        CanvasSize { width, height }
    }
}

/// One pixel, with its three channels encoded to 0..=255.
#[derive(Clone, Copy, Debug, PartialEq, Eq, Structural)]
pub struct Pixel {
    pub red: u64,
    pub green: u64,
    pub blue: u64,
}

impl Pixel {
    /// Every channel lies in the encodable range.
    pub open spec fn well_formed(self) -> bool {
        self.red <= PIXEL_MAX && self.green <= PIXEL_MAX && self.blue <= PIXEL_MAX
    }

    pub fn new(red: u64, green: u64, blue: u64) -> (r: Pixel)
        requires
            red <= PIXEL_MAX,
            green <= PIXEL_MAX,
            blue <= PIXEL_MAX,
        ensures
            r == (Pixel { red, green, blue }),
            r.well_formed(),
    {
        Pixel { red, green, blue }
    }
}

impl crate::builder::Preset for Pixel {
    /// The canonical pixel is black.
    open spec fn preset_spec() -> Pixel {
        Pixel { red: 0, green: 0, blue: 0 }
    }

    fn preset() -> (r: Pixel) {
        Pixel { red: 0, green: 0, blue: 0 }
    }
}

/// A failed canvas operation.
#[derive(Clone, Copy, Debug, PartialEq, Eq, Structural)]
pub enum WriteError {
    OutOfBounds,
}

/// The decimal digits of `n`, as ASCII bytes without sign or padding.
pub open spec fn dec_rep(n: nat) -> Seq<u8>
    decreases n,
{
    if n < 10 {
        seq![(48 + n) as u8]
    } else {
        dec_rep(n / 10).push((48 + n % 10) as u8)
    }
}

/// `line` with its trailing spaces removed.
pub open spec fn trim_trailing_spaces(line: Seq<u8>) -> Seq<u8>
    decreases line.len(),
{
    if line.len() > 0 && line.last() == 32u8 {
        trim_trailing_spaces(line.drop_last())
    } else {
        line
    }
}

/// The bytes of one pixel row of channel values, wrapped to lines of at most
/// 70 characters: each value is written with one trailing space; when a value
/// and its space would push the current line past 70 characters, the line is
/// emitted first, trimmed of trailing spaces. The final line is emitted the
/// same way, so every row ends in a newline.
pub open spec fn wrap_channels(vals: Seq<u64>, line: Seq<u8>) -> Seq<u8>
    decreases vals.len(),
{
    if vals.len() == 0 {
        trim_trailing_spaces(line) + seq![10u8]
    } else {
        let piece = dec_rep(vals[0] as nat).push(32u8);
        if line.len() + piece.len() > 70 {
            trim_trailing_spaces(line) + seq![10u8] + wrap_channels(vals.drop_first(), piece)
        } else {
            wrap_channels(vals.drop_first(), line + piece)
        }
    }
}

/// The channel values of a pixel row, red then green then blue per pixel.
pub open spec fn row_channels(row: Seq<Pixel>) -> Seq<u64>
    decreases row.len(),
{
    if row.len() == 0 {
        Seq::empty()
    } else {
        row_channels(row.drop_last()) + seq![row.last().red, row.last().green, row.last().blue]
    }
}

/// The bytes of one pixel row.
pub open spec fn row_bytes(row: Seq<Pixel>) -> Seq<u8> {
    wrap_channels(row_channels(row), Seq::empty())
}

/// The bytes of all pixel rows, top row first.
pub open spec fn ppm_rows(grid: Seq<Seq<Pixel>>) -> Seq<u8>
    decreases grid.len(),
{
    if grid.len() == 0 {
        Seq::empty()
    } else {
        ppm_rows(grid.drop_last()) + row_bytes(grid.last())
    }
}

/// The PPM header: the magic line, the extent line, and the maximum channel
/// value line.
pub open spec fn ppm_header(size: CanvasSize) -> Seq<u8> {
    seq![80u8, 51u8, 10u8] + dec_rep(size.width as nat) + seq![32u8] + dec_rep(size.height as nat)
        + seq![10u8, 50u8, 53u8, 53u8, 10u8]
}

/// The complete PPM image of a canvas.
pub open spec fn ppm_bytes(size: CanvasSize, grid: Seq<Seq<Pixel>>) -> Seq<u8> {
    ppm_header(size) + ppm_rows(grid)
}

/// A grid of encoded pixels, indexed by column and row.
#[derive(Clone, Debug, PartialEq, Eq)]
pub struct Canvas {
    pub size: CanvasSize,
    pub pixels: Vec<Vec<Pixel>>,
}

impl View for Canvas {
    type V = Seq<Seq<Pixel>>;

    open spec fn view(&self) -> Seq<Seq<Pixel>> {
        self.pixels@.map_values(|row: Vec<Pixel>| row@)
    }
}

/// Append the decimal digits of `n` to `buffer`.
fn push_decimal(buffer: &mut Vec<u8>, n: u64)
    ensures
        final(buffer)@ == old(buffer)@ + dec_rep(n as nat),
    decreases n,
{
    if n >= 10 {
        push_decimal(buffer, n / 10);
        buffer.push((48 + n % 10) as u8);
        proof {
            assert(buffer@ =~= old(buffer)@ + dec_rep(n as nat));
        }
    } else {
        buffer.push((48 + n) as u8);
        proof {
            assert(buffer@ =~= old(buffer)@ + dec_rep(n as nat));
        }
    }
}

/// Remove trailing spaces in place.
fn trim_spaces(line: &mut Vec<u8>)
    ensures
        final(line)@ == trim_trailing_spaces(old(line)@),
{
    while line.len() > 0 && line[line.len() - 1] == 32
        invariant
            trim_trailing_spaces(line@) == trim_trailing_spaces(old(line)@),
        decreases line.len(),
    {
        let ghost prev = line@;
        let _ = line.pop();
        proof {
            assert(line@ =~= prev.drop_last());
        }
    }
}

impl Canvas {
    /// Row and pixel lengths agree with the size, and every channel is in range.
    pub open spec fn well_formed(self) -> bool {
        &&& self@.len() == self.size.height
        &&& forall|r: int| 0 <= r < self@.len() ==> (#[trigger] self@[r]).len() == self.size.width
        &&& forall|r: int, c: int|
            0 <= r < self@.len() && 0 <= c < self@[r].len() ==> (#[trigger] self@[r][c]).well_formed()
    }

    /// A canvas of the given extent with every pixel black.
    pub fn new(width: Width, height: Height) -> (r: Canvas)
        ensures
            r.well_formed(),
            r.size == (CanvasSize { width: width.0 as u64, height: height.0 as u64 }),
            r@.len() == height.0,
            forall|row: int| 0 <= row < r@.len() ==> (#[trigger] r@[row]).len() == width.0,
            forall|row: int, col: int|
                0 <= row < r@.len() && 0 <= col < r@[row].len() ==> (#[trigger] r@[row][col]) == (Pixel {
                    red: 0u64,
                    green: 0u64,
                    blue: 0u64,
                }),
    {
        let Width(w) = width;
        let Height(h) = height;
        let mut pixels: Vec<Vec<Pixel>> = Vec::new();
        let mut row: usize = 0;
        while row < h
            invariant
                0 <= row <= h,
                pixels@.len() == row,
                forall|r: int| 0 <= r < row ==> (#[trigger] pixels@[r])@.len() == w,
                forall|r: int, c: int|
                    0 <= r < row && 0 <= c < pixels@[r]@.len() ==> (#[trigger] pixels@[r]@[c])
                        == (Pixel { red: 0u64, green: 0u64, blue: 0u64 }),
            decreases h - row,
        {
            let mut row_pixels: Vec<Pixel> = Vec::new();
            let mut col: usize = 0;
            while col < w
                invariant
                    0 <= col <= w,
                    row_pixels@.len() == col,
                    forall|c: int| 0 <= c < col ==> (#[trigger] row_pixels@[c]) == (Pixel {
                        red: 0u64,
                        green: 0u64,
                        blue: 0u64,
                    }),
                decreases w - col,
            {
                row_pixels.push(Pixel { red: 0, green: 0, blue: 0 });
                col = col + 1;
            }
            pixels.push(row_pixels);
            row = row + 1;
        }
        let r = Canvas { size: CanvasSize { width: w as u64, height: h as u64 }, pixels };
        proof {
            assert(forall|i: int| 0 <= i < r.pixels@.len() ==> r@[i] == (#[trigger] r.pixels@[i])@);
        }
        r
    }

    /// Replace the pixel at the given column and row. Fails with
    /// `OutOfBounds`, leaving the canvas unchanged, exactly when the column or
    /// the row lies outside the canvas.
    pub fn paint_colour(&mut self, column: usize, row: usize, pixel: Pixel) -> (r: Result<
        (),
        WriteError,
    >)
        requires
            old(self).well_formed(),
            pixel.well_formed(),
        ensures
            final(self).well_formed(),
            final(self).size == old(self).size,
            match r {
                Ok(()) => column < old(self).size.width && row < old(self).size.height
                    && final(self)@ == old(self)@.update(
                    row as int,
                    old(self)@[row as int].update(column as int, pixel),
                ),
                Err(e) => e == WriteError::OutOfBounds && (column >= old(self).size.width || row
                    >= old(self).size.height) && final(self)@ == old(self)@,
            },
    {
        proof {
            assert(self@.len() == self.pixels@.len());
            assert(forall|r: int| 0 <= r < self.pixels@.len() ==> self@[r] == (#[trigger] self.pixels@[r])@);
        }
        if row >= self.pixels.len() {
            return Err(WriteError::OutOfBounds);
        }
        if column >= self.pixels[row].len() {
            return Err(WriteError::OutOfBounds);
        }
        let ghost before = self@;
        self.pixels[row].set(column, pixel);
        proof {
            assert(self@ =~= before.update(row as int, before[row as int].update(column as int, pixel)));
        }
        Ok(())
    }

    /// The pixel at the given column and row.
    pub fn pixel_at(&self, column: usize, row: usize) -> (r: Pixel)
        requires
            self.well_formed(),
            column < self.size.width,
            row < self.size.height,
        ensures
            r == self@[row as int][column as int],
    {
        proof {
            assert(self@.len() == self.pixels@.len());
            assert(self@[row as int] == self.pixels@[row as int]@);
        }
        self.pixels[row][column]
    }

    /// Encode the canvas as a PPM image, byte for byte.
    #[verifier::loop_isolation(false)]
    pub fn write_to_ppm(&self) -> (r: Vec<u8>)
        requires
            self.well_formed(),
        ensures
            r@ == ppm_bytes(self.size, self@),
    {
        let mut buffer: Vec<u8> = Vec::new();
        buffer.push(80);
        buffer.push(51);
        buffer.push(10);
        push_decimal(&mut buffer, self.size.width);
        buffer.push(32);
        push_decimal(&mut buffer, self.size.height);
        buffer.push(10);
        buffer.push(50);
        buffer.push(53);
        buffer.push(53);
        buffer.push(10);
        proof {
            assert(buffer@ =~= ppm_header(self.size));
        }

        let mut row_idx: usize = 0;
        while row_idx < self.pixels.len()
            invariant
                0 <= row_idx <= self.pixels@.len(),
                buffer@ == ppm_header(self.size) + ppm_rows(self@.take(row_idx as int)),
            decreases self.pixels@.len() - row_idx,
        {
            let row = &self.pixels[row_idx];

            let mut vals: Vec<u64> = Vec::new();
            let mut p: usize = 0;
            proof {
                assert(vals@ =~= row_channels(row@.take(0)));
            }
            while p < row.len()
                invariant
                    0 <= p <= row@.len(),
                    vals@ == row_channels(row@.take(p as int)),
                decreases row@.len() - p,
            {
                let pix = row[p];
                vals.push(pix.red);
                vals.push(pix.green);
                vals.push(pix.blue);
                proof {
                    assert(row@.take(p + 1).drop_last() =~= row@.take(p as int));
                    assert(row@.take(p + 1).last() == row@[p as int]);
                    assert(vals@ =~= row_channels(row@.take(p + 1)));
                }
                p = p + 1;
            }
            proof {
                assert(row@.take(row@.len() as int) =~= row@);
            }

            let ghost row_start = buffer@;
            let mut line: Vec<u8> = Vec::new();
            let mut v: usize = 0;
            proof {
                assert(vals@.skip(0) =~= vals@);
            }
            while v < vals.len()
                invariant
                    0 <= v <= vals@.len(),
                    buffer@ + wrap_channels(vals@.skip(v as int), line@) == row_start
                        + wrap_channels(vals@, Seq::empty()),
                decreases vals@.len() - v,
            {
                let mut piece: Vec<u8> = Vec::new();
                push_decimal(&mut piece, vals[v]);
                piece.push(32);
                proof {
                    assert(piece@ =~= dec_rep(vals@[v as int] as nat).push(32u8));
                    assert(vals@.skip(v as int)[0] == vals@[v as int]);
                    assert(vals@.skip(v as int).drop_first() =~= vals@.skip(v + 1));
                }
                let overflows = piece.len() > 70 || line.len() > 70 - piece.len();
                proof {
                    assert(overflows == (line@.len() + piece@.len() > 70));
                }
                if overflows {
                    let ghost line_before = line@;
                    trim_spaces(&mut line);
                    buffer.append(&mut line);
                    buffer.push(10);
                    line = piece;
                    proof {
                        assert(buffer@ + wrap_channels(vals@.skip(v + 1), line@) =~= row_start
                            + wrap_channels(vals@, Seq::empty()));
                    }
                } else {
                    line.append(&mut piece);
                    proof {
                        assert(buffer@ + wrap_channels(vals@.skip(v + 1), line@) == row_start
                            + wrap_channels(vals@, Seq::empty()));
                    }
                }
                v = v + 1;
            }
            proof {
                assert(vals@.skip(vals@.len() as int) =~= Seq::<u64>::empty());
            }
            trim_spaces(&mut line);
            buffer.append(&mut line);
            buffer.push(10);
            proof {
                assert(buffer@ =~= row_start + wrap_channels(vals@, Seq::empty()));
                assert(self@.take(row_idx + 1).drop_last() =~= self@.take(row_idx as int));
                assert(self@.take(row_idx + 1).last() == self@[row_idx as int]);
                assert(row@ == self@[row_idx as int]);
                assert(buffer@ =~= ppm_header(self.size) + ppm_rows(self@.take(row_idx + 1)));
            }
            row_idx = row_idx + 1;
        }
        proof {
            assert(self@.take(self@.len() as int) =~= self@);
        }
        buffer
    }
}

} // verus!
