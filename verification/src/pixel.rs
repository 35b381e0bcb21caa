//! The CPU-side pixel buffer: a two-dimensional grid of RGBA8 pixels,
//! row-major, four bytes per pixel, with no padding between rows.
//!
//! A buffer is produced once — wrapped around bytes that an outside image
//! decoder handed over, or generated as a test card — and is immutable for
//! the renderer's purposes: the texture borrows it only during upload.

use vstd::prelude::*;

verus! {

/// Strict row-major order: an earlier pixel has a smaller linear index.
pub proof fn lemma_row_major_lt(w: int, x1: int, y1: int, x2: int, y2: int)
    requires
        0 <= x1 < w,
        0 <= x2,
        0 <= y1,
        y1 < y2 || (y1 == y2 && x1 < x2),
    ensures
        y1 * w + x1 < y2 * w + x2,
{
    assert(y1 * w + x1 < y2 * w + x2) by (nonlinear_arith)
        requires
            0 <= x1 < w,
            0 <= x2,
            0 <= y1,
            y1 < y2 || (y1 == y2 && x1 < x2),
    ;
}

/// Every channel byte of an in-bounds pixel lies inside a
/// `w`-by-`h` grid of four-byte pixels.
pub proof fn lemma_byte_index_in_range(w: int, h: int, x: int, y: int, c: int)
    requires
        0 <= x < w,
        0 <= y < h,
        0 <= c < 4,
    ensures
        0 <= y * w + x,
        (y * w + x) * 4 + c < w * h * 4,
{
    assert(0 <= y * w + x && (y * w + x) * 4 + c < w * h * 4) by (nonlinear_arith)
        requires
            0 <= x < w,
            0 <= y < h,
            0 <= c < 4,
    ;
}

/// Packed positions decompose uniquely: equal byte indices in a packed
/// `w`-pixel-wide RGBA8 grid address the same column, row and channel.
pub proof fn lemma_packed_pos_unique(
    w: int,
    x1: int,
    y1: int,
    c1: int,
    x2: int,
    y2: int,
    c2: int,
)
    requires
        0 <= x1 < w,
        0 <= x2 < w,
        0 <= c1 < 4,
        0 <= c2 < 4,
        0 <= y1,
        0 <= y2,
        (y1 * w + x1) * 4 + c1 == (y2 * w + x2) * 4 + c2,
    ensures
        x1 == x2,
        y1 == y2,
        c1 == c2,
{
    assert(x1 == x2 && y1 == y2 && c1 == c2) by (nonlinear_arith)
        requires
            0 <= x1 < w,
            0 <= x2 < w,
            0 <= c1 < 4,
            0 <= c2 < 4,
            0 <= y1,
            0 <= y2,
            (y1 * w + x1) * 4 + c1 == (y2 * w + x2) * 4 + c2,
    ;
}

/// A two-dimensional grid of RGBA8 pixels, row-major, no padding.
pub struct PixelBuffer {
    pub width: u32,
    pub height: u32,
    pub data: Vec<u8>,
}

impl PixelBuffer {
    /// Well-formedness: the byte vector holds exactly width × height
    /// four-byte pixels.
    pub open spec fn wf(self) -> bool {
        self.data@.len() == self.width * self.height * 4
    }

    /// The linear byte index of channel `c` (0 red, 1 green, 2 blue,
    /// 3 alpha) of the pixel at column `x`, row `y`.
    pub open spec fn byte_index(self, x: int, y: int, c: int) -> int {
        (y * self.width + x) * 4 + c
    }

    /// Channel `c` of the pixel at column `x`, row `y`.
    pub open spec fn pixel_byte(self, x: int, y: int, c: int) -> u8 {
        self.data@[self.byte_index(x, y, c)]
    }

    /// Wraps bytes handed over by an outside image decoder. Succeeds iff the
    /// byte count is exactly width × height × 4; the bytes are taken as they
    /// are.
    pub fn from_bytes(width: u32, height: u32, data: Vec<u8>) -> (r: Option<PixelBuffer>)
        ensures
            match r {
                Some(b) => {
                    &&& b.wf()
                    &&& b.width == width
                    &&& b.height == height
                    &&& b.data@ == data@
                },
                None => data@.len() != width * height * 4,
            },
            r is Some <==> data@.len() == width * height * 4,
    {
        proof {
            assert(data.len() == data@.len());
        }
        let pixels: Option<usize> = (width as usize).checked_mul(height as usize);
        match pixels {
            None => {
                proof {
                    assert(width * height * 4 > usize::MAX) by (nonlinear_arith)
                        requires
                            width * height > usize::MAX,
                    ;
                }
                None
            },
            Some(p) => {
                match p.checked_mul(4) {
                    None => None,
                    Some(n) => {
                        if data.len() == n {
                            Some(PixelBuffer { width, height, data })
                        } else {
                            None
                        }
                    },
                }
            },
        }
    }

    /// The expected byte of the generated test card: red rises with the
    /// column, green 0, blue 100, alpha 200.
    pub open spec fn gradient_byte(x: int, c: int) -> u8 {
        if c == 0 {
            (x % 256) as u8
        } else if c == 1 {
            0u8
        } else if c == 2 {
            100u8
        } else {
            200u8
        }
    }

    /// Whether the byte grid `data`, `w` pixels per row, holds the test-card
    /// byte at column `x`, row `y`, channel `c`.
    pub open spec fn grad_ok(data: Seq<u8>, w: int, x: int, y: int, c: int) -> bool {
        data[(y * w + x) * 4 + c] == PixelBuffer::gradient_byte(x, c)
    }

    /// A procedurally generated gradient buffer: for every pixel, red is the
    /// column index (mod 256), green 0, blue 100, alpha 200. Succeeds iff
    /// width × height × 4 fits in `usize`.
    pub fn column_gradient(width: u32, height: u32) -> (r: Option<PixelBuffer>)
        ensures
            match r {
                Some(b) => {
                    &&& b.wf()
                    &&& b.width == width
                    &&& b.height == height
                    &&& forall|x: int, y: int, c: int|
                        0 <= x < width && 0 <= y < height && 0 <= c < 4
                            ==> b.pixel_byte(x, y, c) == PixelBuffer::gradient_byte(x, c)
                },
                None => width * height * 4 > usize::MAX,
            },
            r is Some <==> width * height * 4 <= usize::MAX,
    {
        let pixels: Option<usize> = (width as usize).checked_mul(height as usize);
        let total: Option<usize> = match pixels {
            None => None,
            Some(p) => p.checked_mul(4),
        };
        if total.is_none() {
            proof {
                if pixels is None {
                    assert(width * height * 4 > usize::MAX) by (nonlinear_arith)
                        requires
                            width * height > usize::MAX,
                    ;
                }
            }
            return None;
        }
        let mut data: Vec<u8> = Vec::new();
        let mut y: u32 = 0;
        while y < height
            invariant
                0 <= y <= height,
                width * height * 4 <= usize::MAX,
                data@.len() == y * width * 4,
                forall|x2: int, y2: int, c: int|
                    0 <= x2 < width && 0 <= y2 < y && 0 <= c < 4
                        ==> #[trigger] PixelBuffer::grad_ok(data@, width as int, x2, y2, c),
            decreases height - y,
        {
            let mut x: u32 = 0;
            while x < width
                invariant
                    0 <= x <= width,
                    0 <= y < height,
                    width * height * 4 <= usize::MAX,
                    data@.len() == (y * width + x) * 4,
                    forall|x2: int, y2: int, c: int|
                        0 <= x2 < width && 0 <= c < 4
                            && (0 <= y2 < y || (y2 == y && 0 <= x2 < x))
                            ==> #[trigger] PixelBuffer::grad_ok(data@, width as int, x2, y2, c),
                decreases width - x,
            {
                proof {
                    lemma_byte_index_in_range(width as int, height as int, x as int, y as int, 3);
                }
                let ghost pre: Seq<u8> = data@;
                data.push((x % 256) as u8);
                data.push(0u8);
                data.push(100u8);
                data.push(200u8);
                proof {
                    assert forall|x2: int, y2: int, c: int|
                        0 <= x2 < width && 0 <= c < 4
                            && (0 <= y2 < y || (y2 == y && 0 <= x2 < x + 1))
                            implies #[trigger] PixelBuffer::grad_ok(
                            data@,
                            width as int,
                            x2,
                            y2,
                            c,
                        ) by {
                        if y2 == y && x2 == x {
                            assert((y2 * width + x2) * 4 + c == (y * width + x) * 4 + c);
                        } else {
                            lemma_row_major_lt(width as int, x2, y2, x as int, y as int);
                            assert(PixelBuffer::grad_ok(pre, width as int, x2, y2, c));
                        }
                    }
                }
                x = x + 1;
            }
            proof {
                assert((y * width + width) * 4 == ((y + 1) * width) * 4) by (nonlinear_arith);
            }
            y = y + 1;
        }
        proof {
            assert(data@.len() == width * height * 4) by {
                assert(height * width * 4 == width * height * 4) by (nonlinear_arith);
            }
        }
        let b = PixelBuffer { width, height, data };
        proof {
            assert forall|x: int, y: int, c: int|
                0 <= x < width && 0 <= y < height && 0 <= c < 4
                    implies b.pixel_byte(x, y, c) == PixelBuffer::gradient_byte(x, c) by {
                assert(PixelBuffer::grad_ok(b.data@, width as int, x, y, c));
            }
        }
        Some(b)
    }

    /// Reads one pixel as its four channel bytes (red, green, blue, alpha).
    pub fn get_pixel(&self, x: u32, y: u32) -> (r: (u8, u8, u8, u8))
        requires
            self.wf(),
            x < self.width,
            y < self.height,
        ensures
            r.0 == self.pixel_byte(x as int, y as int, 0),
            r.1 == self.pixel_byte(x as int, y as int, 1),
            r.2 == self.pixel_byte(x as int, y as int, 2),
            r.3 == self.pixel_byte(x as int, y as int, 3),
    {
        let n: usize = self.data.len();
        proof {
            lemma_byte_index_in_range(
                self.width as int,
                self.height as int,
                x as int,
                y as int,
                3,
            );
            assert((y * self.width + x) * 4 + 3 < n);
            assert(y * self.width + x <= (y * self.width + x) * 4);
        }
        let base: usize = (y as usize * self.width as usize + x as usize) * 4;
        (self.data[base], self.data[base + 1], self.data[base + 2], self.data[base + 3])
    }
}

} // verus!
