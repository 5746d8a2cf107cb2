//! The screen pipeline: from the 1-bit bitmap in memory to RGBA pixels, and
//! their placement in a scaled frame.
use crate::emulator::cpu::{to_unsigned, unsigned};
use crate::text::{decimal, push_decimal_usize};
use vstd::prelude::*;
use vstd::string::*;

verus! {

/// A pixel: red, green, blue, alpha.
pub type Pixel = (u8, u8, u8, u8);

/// The size of the logical screen, in pixels.
pub struct Dimension {
    width: usize,
    height: usize,
}

impl Dimension {
    pub closed spec fn width(&self) -> nat {
        self.width as nat
    }

    pub closed spec fn height(&self) -> nat {
        self.height as nat
    }

    pub fn new(width: usize, height: usize) -> (r: Self)
        ensures
            r.width() == width,
            r.height() == height,
    {
        Self { width, height }
    }

    /// The number of pixels.
    pub fn size(&self) -> (r: usize)
        requires
            self.width() * self.height() <= usize::MAX,
        ensures
            r == self.width() * self.height(),
    {
        self.width * self.height
    }

    pub fn logical_width(&self) -> (r: usize)
        ensures
            r == self.width(),
    {
        self.width
    }

    pub fn logical_height(&self) -> (r: usize)
        ensures
            r == self.height(),
    {
        self.height
    }
}

impl Default for Dimension {
    /// The Hack screen: 512 by 256 pixels.
    fn default() -> (r: Self)
        ensures
            r.width() == 512,
            r.height() == 256,
    {
        Self::new(512, 256)
    }
}

/// The pixel of a cleared bit.
pub open spec fn white() -> Pixel {
    (255u8, 255u8, 255u8, 255u8)
}

/// The pixel of a set bit.
pub open spec fn black() -> Pixel {
    (0u8, 0u8, 0u8, 255u8)
}

/// Whether bit `bit` of a word is set, bit 0 being the lowest.
pub open spec fn bit_is_set(word: i16, bit: int) -> bool {
    (unsigned(word) >> (bit as u16)) & 1 == 1
}

/// Pixel `k` of a bitmap. Each word holds 16 pixels, the lowest bit first.
pub open spec fn pixel_at(words: Seq<i16>, k: int) -> Pixel {
    if bit_is_set(words[k / 16], k % 16) {
        black()
    } else {
        white()
    }
}

/// The pixels of a bitmap, in row-major order.
pub open spec fn pixels_of(words: Seq<i16>) -> Seq<Pixel> {
    Seq::new(16 * words.len(), |k: int| pixel_at(words, k))
}

/// Walks over the pixels of a bitmap, one bit at a time.
pub struct HackScreenBuffer<'a> {
    buf: &'a [i16],
    byte_idx: usize,
    bit_idx: usize,
}

impl<'a> HackScreenBuffer<'a> {
    #[verifier::type_invariant]
    spec fn inv(self) -> bool {
        &&& self.bit_idx < 16
        &&& self.byte_idx <= self.buf@.len()
        &&& self.byte_idx == self.buf@.len() ==> self.bit_idx == 0
    }

    /// The bitmap that is walked over.
    pub closed spec fn words(&self) -> Seq<i16> {
        self.buf@
    }

    /// The number of pixels handed out so far, unless all were.
    pub closed spec fn position(&self) -> int {
        16 * self.byte_idx + self.bit_idx
    }

    pub fn new(buf: &'a [i16]) -> (r: Self)
        ensures
            r.words() == buf@,
            r.position() == 0,
    {
        Self { buf, byte_idx: 0, bit_idx: 0 }
    }

    /// The next pixel, or `None` when all have been handed out.
    pub fn next(&mut self) -> (r: Option<Pixel>)
        ensures
            final(self).words() == old(self).words(),
            if old(self).position() < 16 * old(self).words().len() {
                &&& r == Some(pixel_at(old(self).words(), old(self).position()))
                &&& final(self).position() == old(self).position() + 1
            } else {
                &&& r.is_none()
                &&& final(self).position() == old(self).position()
            },
    {
        proof {
            use_type_invariant(&*self);
        }
        if self.byte_idx >= self.buf.len() {
            return None;
        }
        let word: u16 = to_unsigned(self.buf[self.byte_idx]);
        let bit: u16 = self.bit_idx as u16;
        let color: Pixel = if (word >> bit) & 1 == 1 {
            (0, 0, 0, 255)
        } else {
            (255, 255, 255, 255)
        };
        assert(old(self).position() / 16 == self.byte_idx && old(self).position() % 16
            == self.bit_idx);
        self.next_bit();
        Some(color)
    }

    /// All the pixels that are left, in order.
    pub fn collect(&mut self) -> (r: Vec<Pixel>)
        ensures
            final(self).words() == old(self).words(),
            final(self).position() >= 16 * old(self).words().len(),
            r@ == pixels_of(old(self).words()).skip(old(self).position()),
    {
        proof {
            use_type_invariant(&*self);
        }
        let mut out: Vec<Pixel> = Vec::new();
        let ghost all = pixels_of(self.words());
        loop
            invariant
                self.words() == old(self).words(),
                all == pixels_of(self.words()),
                old(self).position() <= self.position(),
                self.position() <= 16 * self.words().len() || out@ == all.skip(
                    old(self).position(),
                ),
                self.position() <= 16 * self.words().len() ==> out@ == all.subrange(
                    old(self).position(),
                    self.position(),
                ),
            ensures
                self.position() >= 16 * self.words().len(),
                out@ == all.skip(old(self).position()),
            decreases 16 * self.words().len() - self.position(),
        {
            let ghost before = self.position();
            let ghost sofar = out@;
            match self.next() {
                Some(p) => {
                    out.push(p);
                    assert(out@ =~= all.subrange(old(self).position(), before + 1));
                },
                None => {
                    assert(sofar =~= all.skip(old(self).position()));
                    break ;
                },
            }
        }
        out
    }

    fn next_byte(&mut self)
        requires
            old(self).byte_idx < old(self).buf@.len(),
            old(self).bit_idx == 0,
        ensures
            final(self).buf == old(self).buf,
            final(self).byte_idx == old(self).byte_idx + 1,
            final(self).bit_idx == 0,
    {
        let _size: usize = self.buf.len();
        self.byte_idx += 1;
    }

    fn next_bit(&mut self)
        requires
            old(self).byte_idx < old(self).buf@.len(),
        ensures
            final(self).words() == old(self).words(),
            final(self).position() == old(self).position() + 1,
    {
        proof {
            use_type_invariant(&*self);
        }
        if self.bit_idx + 1 == 16 {
            self.bit_idx = 0;
            self.next_byte();
        } else {
            self.bit_idx += 1;
        }
    }
}

/// Why a frame could not be filled.
pub enum ScaleError {
    /// The target does not hold four bytes for each physical pixel.
    WrongSize { expected: nat, got: nat },
}

impl ScaleError {
    /// The message that reports the error.
    pub open spec fn message(self) -> Seq<char> {
        match self {
            ScaleError::WrongSize { expected, got } => "Output buffer has wrong size: expected "@
                + decimal(expected) + ", got "@ + decimal(got),
        }
    }
}

/// The frame after the physical pixels `0..count`, counted row by row, have
/// been filled. The physical pixel in column `x` and row `y` takes the
/// logical pixel in column `columns[x]` and row `rows[y]`; where that lies
/// outside the logical screen, its four bytes stay as they were.
pub open spec fn filled(
    frame: Seq<u8>,
    pixels: Seq<Pixel>,
    width: int,
    height: int,
    columns: Seq<usize>,
    rows: Seq<usize>,
    count: int,
) -> Seq<u8> {
    Seq::new(
        frame.len(),
        |i: int|
            {
                let p = i / 4;
                let x = p % (columns.len() as int);
                let y = p / (columns.len() as int);
                if p < count && columns[x] < width && rows[y] < height {
                    let pixel = pixels[rows[y] * width + columns[x]];
                    if i % 4 == 0 {
                        pixel.0
                    } else if i % 4 == 1 {
                        pixel.1
                    } else if i % 4 == 2 {
                        pixel.2
                    } else {
                        pixel.3
                    }
                } else {
                    frame[i]
                }
            },
    )
}

/// Fills a frame of tightly packed RGBA rows from the pixels of a logical
/// screen of `width` by `height`. The frame has `columns.len()` by
/// `rows.len()` physical pixels; `columns` and `rows` give, for each
/// physical column and row, the logical one that is shown there.
pub fn scale_mapped(
    pixels: &[Pixel],
    width: usize,
    height: usize,
    columns: &[usize],
    rows: &[usize],
    target: &mut [u8],
) -> (res: Result<(), String>)
    requires
        width * height <= pixels@.len(),
        columns@.len() * rows@.len() * 4 <= usize::MAX,
    ensures
        final(target)@.len() == old(target)@.len(),
        old(target)@.len() == columns@.len() * rows@.len() * 4 ==> res is Ok && final(target)@
            == filled(
            old(target)@,
            pixels@,
            width as int,
            height as int,
            columns@,
            rows@,
            (columns@.len() * rows@.len()) as int,
        ),
        old(target)@.len() != columns@.len() * rows@.len() * 4 ==> final(target)@ == old(target)@
            && (res matches Err(message) && message@ == (ScaleError::WrongSize {
            expected: columns@.len() * rows@.len() * 4,
            got: old(target)@.len(),
        }).message()),
{
    let physical_width: usize = columns.len();
    let physical_height: usize = rows.len();
    let _available: usize = pixels.len();
    assert(physical_width * physical_height <= physical_width * physical_height * 4)
        by (nonlinear_arith);
    let required_size: usize = physical_width * physical_height * 4;
    if required_size != target.len() {
        let mut message = String::from_str("Output buffer has wrong size: expected ");
        push_decimal_usize(&mut message, required_size);
        message.append(", got ");
        push_decimal_usize(&mut message, target.len());
        return Err(message);
    }
    let ghost frame = target@;
    let mut y_physical: usize = 0;
    assert(target@ =~= filled(frame, pixels@, width as int, height as int, columns@, rows@, 0));
    while y_physical < physical_height
        invariant
            y_physical <= physical_height == rows@.len(),
            physical_width == columns@.len(),
            frame.len() == physical_width * physical_height * 4 <= usize::MAX,
            width * height <= pixels@.len() <= usize::MAX,
            target@ == filled(
                frame,
                pixels@,
                width as int,
                height as int,
                columns@,
                rows@,
                y_physical * physical_width,
            ),
        decreases physical_height - y_physical,
    {
        let mut x_physical: usize = 0;
        while x_physical < physical_width
            invariant
                y_physical < physical_height == rows@.len(),
                x_physical <= physical_width == columns@.len(),
                frame.len() == physical_width * physical_height * 4 <= usize::MAX,
                width * height <= pixels@.len() <= usize::MAX,
                target@ == filled(
                    frame,
                    pixels@,
                    width as int,
                    height as int,
                    columns@,
                    rows@,
                    y_physical * physical_width + x_physical,
                ),
            decreases physical_width - x_physical,
        {
            let x_logical: usize = columns[x_physical];
            let y_logical: usize = rows[y_physical];
            let ghost p = y_physical * physical_width + x_physical;
            let ghost before = target@;
            proof {
                lemma_cell(
                    x_physical as int,
                    y_physical as int,
                    physical_width as int,
                    physical_height as int,
                );
                if y_logical < height && x_logical < width {
                    lemma_cell(x_logical as int, y_logical as int, width as int, height as int);
                }
            }
            if x_logical < width && y_logical < height {
                let idx_logical: usize = y_logical * width + x_logical;
                let (r, g, b, a) = pixels[idx_logical];
                let idx_physical: usize = (y_physical * physical_width + x_physical) * 4;
                target[idx_physical] = r;
                target[idx_physical + 1] = g;
                target[idx_physical + 2] = b;
                target[idx_physical + 3] = a;
            }
            assert(target@ =~= filled(
                frame,
                pixels@,
                width as int,
                height as int,
                columns@,
                rows@,
                p + 1,
            )) by {
                assert forall|i: int| 0 <= i < frame.len() implies target@[i] == filled(
                    frame,
                    pixels@,
                    width as int,
                    height as int,
                    columns@,
                    rows@,
                    p + 1,
                )[i] by {
                    assert(before[i] == filled(
                        frame,
                        pixels@,
                        width as int,
                        height as int,
                        columns@,
                        rows@,
                        p,
                    )[i]);
                    if i / 4 == p {
                        assert(i == 4 * p + i % 4);
                    }
                }
            }
            x_physical += 1;
        }
        assert(y_physical * physical_width + physical_width == (y_physical + 1) * physical_width)
            by (nonlinear_arith);
        y_physical += 1;
    }
    assert(physical_height * physical_width == physical_width * physical_height)
        by (nonlinear_arith);
    Ok(())
}

/// The cell in column `x` and row `y` of a grid has an index within the
/// grid, from which the column and the row can be read back.
proof fn lemma_cell(x: int, y: int, width: int, height: int)
    requires
        0 <= x < width,
        0 <= y < height,
    ensures
        0 <= y * width + x < width * height,
        (y * width + x) % width == x,
        (y * width + x) / width == y,
{
    assert(0 <= y * width + x < width * height) by (nonlinear_arith)
        requires
            0 <= x < width,
            0 <= y < height,
    ;
    vstd::arithmetic::div_mod::lemma_fundamental_div_mod_converse(y * width + x, width, y, x);
}

} // verus!
