//! The device-side streaming texture: an RGBA8 buffer of fixed dimensions
//! whose rows may carry backend-imposed padding. The writable row length
//! (the pitch) may exceed width × 4 bytes, so every pixel write must land at
//! `row * pitch + column * 4`, never `row * width * 4`, or it would corrupt
//! the rows that follow.
//!
//! The real GPU texture lives behind the windowing backend; this type is the
//! byte-exact model that the program mirrors into it with one bulk copy.

use vstd::prelude::*;
use crate::pixel::PixelBuffer;
use crate::pixel::lemma_byte_index_in_range;
use crate::pixel::lemma_row_major_lt;

verus! {

/// How the texture's alpha combines with the destination on composite:
/// opaque, or alpha-blended. Configuration for the backend; it must be set
/// before an alpha-bearing upload for the alpha channel to take effect.
#[derive(Debug, Copy, Clone, PartialEq, Eq, Structural)]
pub enum BlendMode {
    Opaque,
    Blend,
}

/// The backend cannot allocate a texture of the requested size and format.
/// Fatal: startup aborts on it.
#[derive(Debug, Copy, Clone, PartialEq, Eq, Structural)]
pub struct AllocationError;

/// An upload was rejected: the source buffer's dimensions disagree with the
/// texture's, or — at the backend's edge — the texture could not be locked
/// for writing. In this single-threaded core the lock always succeeds, so
/// the model fails exactly on a dimension mismatch. Fatal either way, since
/// no recovery path exists without a differently-sized buffer.
#[derive(Debug, Copy, Clone, PartialEq, Eq, Structural)]
pub struct UploadError;

/// Strided positions decompose uniquely into a row and an offset inside the
/// row.
pub proof fn lemma_strided_pos_unique(pitch: int, y1: int, k1: int, y2: int, k2: int)
    requires
        0 <= k1 < pitch,
        0 <= k2 < pitch,
        0 <= y1,
        0 <= y2,
        y1 * pitch + k1 == y2 * pitch + k2,
    ensures
        y1 == y2,
        k1 == k2,
{
    assert(y1 == y2 && k1 == k2) by (nonlinear_arith)
        requires
            0 <= k1 < pitch,
            0 <= k2 < pitch,
            0 <= y1,
            0 <= y2,
            y1 * pitch + k1 == y2 * pitch + k2,
    ;
}

/// Every channel byte of an in-bounds pixel lies inside the strided byte
/// grid, and inside its own row.
pub proof fn lemma_strided_index_in_range(w: int, h: int, pitch: int, x: int, y: int, c: int)
    requires
        0 <= x < w,
        0 <= y < h,
        0 <= c < 4,
        w * 4 <= pitch,
    ensures
        0 <= y * pitch,
        0 <= y * pitch + x * 4 + c < pitch * h,
        x * 4 + c < pitch,
{
    assert(0 <= y * pitch && y * pitch + x * 4 + c < pitch * h && x * 4 + c < pitch)
        by (nonlinear_arith)
        requires
            0 <= x < w,
            0 <= y < h,
            0 <= c < 4,
            w * 4 <= pitch,
    ;
}

/// A device-side RGBA8 buffer matching a pixel buffer's layout row by row,
/// except that each row occupies `pitch` bytes, of which only the first
/// width × 4 carry pixels.
pub struct GPUTexture {
    pub width: u32,
    pub height: u32,
    pub pitch: usize,
    pub blend: BlendMode,
    pub data: Vec<u8>,
}

impl GPUTexture {
    /// Well-formedness: each row is at least wide enough for its pixels, and
    /// the byte vector holds exactly `pitch` bytes per row.
    pub open spec fn wf(self) -> bool {
        &&& self.width * 4 <= self.pitch
        &&& self.data@.len() == self.pitch * self.height
    }

    /// Channel `c` of the device-side pixel at column `x`, row `y`, at its
    /// stride-padded position.
    pub open spec fn texel_byte(self, x: int, y: int, c: int) -> u8 {
        self.data@[y * self.pitch + x * 4 + c]
    }

    /// The byte at offset `k` inside row `y` of the strided grid.
    pub open spec fn row_byte(self, y: int, k: int) -> u8 {
        self.data@[y * self.pitch + k]
    }

    /// Whether the texture holds exactly the pixels of buffer `b`: the
    /// dimensions agree and every channel byte of every pixel matches.
    pub open spec fn holds_buffer(self, b: PixelBuffer) -> bool {
        &&& self.width == b.width
        &&& self.height == b.height
        &&& forall|x: int, y: int, c: int|
            0 <= x < b.width && 0 <= y < b.height && 0 <= c < 4
                ==> #[trigger] self.texel_byte(x, y, c) == b.pixel_byte(x, y, c)
    }

    /// Allocates a streaming texture of exactly `width` × `height` RGBA8
    /// pixels, zero-filled, with the row length the backend reports for it,
    /// and with the blend mode configured immediately. Fails with
    /// `AllocationError` iff the reported row length cannot hold a row of
    /// pixels or the total byte count does not fit in `usize`.
    pub fn create(width: u32, height: u32, pitch: usize, blend: BlendMode) -> (r: Result<
        GPUTexture,
        AllocationError,
    >)
        ensures
            r is Ok <==> width * 4 <= pitch && pitch * height <= usize::MAX,
            match r {
                Ok(t) => {
                    &&& t.wf()
                    &&& t.width == width
                    &&& t.height == height
                    &&& t.pitch == pitch
                    &&& t.blend == blend
                    &&& forall|i: int| 0 <= i < t.data@.len() ==> t.data@[i] == 0u8
                },
                Err(e) => e == AllocationError,
            },
    {
        if (pitch as u64) < (width as u64) * 4 {
            return Err(AllocationError);
        }
        let total: Option<usize> = pitch.checked_mul(height as usize);
        match total {
            None => Err(AllocationError),
            Some(n) => {
                let mut data: Vec<u8> = Vec::new();
                while data.len() < n
                    invariant
                        data@.len() <= n,
                        forall|i: int| 0 <= i < data@.len() ==> data@[i] == 0u8,
                    decreases n - data@.len(),
                {
                    data.push(0u8);
                }
                Ok(GPUTexture { width, height, pitch, blend, data })
            },
        }
    }

    /// The configured blend mode.
    pub fn blend_mode(&self) -> (r: BlendMode)
        ensures
            r == self.blend,
    {
        self.blend
    }

    /// The flat strided bytes, for mirroring into the backend's locked
    /// pixel memory with one bulk copy.
    pub fn bytes(&self) -> (r: &Vec<u8>)
        ensures
            r@ == self.data@,
    {
        &self.data
    }

    /// Copies a pixel buffer into the texture, writing every channel byte at
    /// `row * pitch + column * 4 + channel` so that row padding is skipped,
    /// not overwritten. Succeeds iff the buffer's dimensions equal the
    /// texture's; on a mismatch it fails with `UploadError` and the texture
    /// is left exactly as it was. On success every pixel matches the buffer
    /// and every padding byte keeps its prior value.
    pub fn upload(&mut self, buf: &PixelBuffer) -> (r: Result<(), UploadError>)
        requires
            old(self).wf(),
            buf.wf(),
        ensures
            final(self).wf(),
            final(self).width == old(self).width,
            final(self).height == old(self).height,
            final(self).pitch == old(self).pitch,
            final(self).blend == old(self).blend,
            r is Ok <==> buf.width == old(self).width && buf.height == old(self).height,
            r is Err ==> *final(self) == *old(self),
            r is Ok ==> final(self).holds_buffer(*buf),
            r is Ok ==> forall|y: int, k: int|
                0 <= y < old(self).height && old(self).width * 4 <= k < old(self).pitch
                    ==> #[trigger] final(self).row_byte(y, k) == old(self).row_byte(y, k),
    {
        if buf.width != self.width || buf.height != self.height {
            return Err(UploadError);
        }
        let ghost t0: GPUTexture = *self;
        let width: u32 = self.width;
        let height: u32 = self.height;
        let pitch: usize = self.pitch;
        let mut y: u32 = 0;
        while y < height
            invariant
                0 <= y <= height,
                buf.wf(),
                buf.width == width,
                buf.height == height,
                t0.wf(),
                t0.width == width,
                t0.height == height,
                t0.pitch == pitch,
                self.width == width,
                self.height == height,
                self.pitch == pitch,
                self.blend == t0.blend,
                self.data@.len() == t0.data@.len(),
                forall|x2: int, y2: int, c: int|
                    0 <= x2 < width && 0 <= y2 < y && 0 <= c < 4
                        ==> #[trigger] self.texel_byte(x2, y2, c) == buf.pixel_byte(x2, y2, c),
                forall|y2: int, k: int|
                    0 <= y2 < height && 0 <= k < pitch && (y2 >= y || k >= 4 * width)
                        ==> #[trigger] self.row_byte(y2, k) == t0.row_byte(y2, k),
            decreases height - y,
        {
            let mut x: u32 = 0;
            while x < width
                invariant
                    0 <= x <= width,
                    0 <= y < height,
                    buf.wf(),
                    buf.width == width,
                    buf.height == height,
                    t0.wf(),
                    t0.width == width,
                    t0.height == height,
                    t0.pitch == pitch,
                    self.width == width,
                    self.height == height,
                    self.pitch == pitch,
                    self.blend == t0.blend,
                    self.data@.len() == t0.data@.len(),
                    forall|x2: int, y2: int, c: int|
                        0 <= x2 < width && 0 <= c < 4 && 0 <= y2 && (y2 < y || (y2 == y && x2 < x))
                            ==> #[trigger] self.texel_byte(x2, y2, c) == buf.pixel_byte(x2, y2, c),
                    forall|y2: int, k: int|
                        0 <= y2 < height && 0 <= k < pitch && (y2 > y || k >= 4 * width || (y2 == y
                            && k >= 4 * x))
                            ==> #[trigger] self.row_byte(y2, k) == t0.row_byte(y2, k),
                decreases width - x,
            {
                proof {
                    lemma_strided_index_in_range(
                        width as int,
                        height as int,
                        pitch as int,
                        x as int,
                        y as int,
                        3,
                    );
                    lemma_byte_index_in_range(width as int, height as int, x as int, y as int, 3);
                    assert(self.data.len() == self.data@.len());
                }
                let (pr, pg, pb, pa) = buf.get_pixel(x, y);
                let off: usize = y as usize * pitch + x as usize * 4;
                let ghost tpre: GPUTexture = *self;
                self.data[off] = pr;
                self.data[off + 1] = pg;
                self.data[off + 2] = pb;
                self.data[off + 3] = pa;
                proof {
                    let p = pitch as int;
                    let offi = off as int;
                    assert(offi == y * p + x * 4);
                    assert(t0.data@.len() == p * (height as int));
                    assert(self.data@ == tpre.data@.update(offi, pr).update(offi + 1, pg).update(
                        offi + 2,
                        pb,
                    ).update(offi + 3, pa));
                    assert forall|x2: int, y2: int, c: int|
                        0 <= x2 < width && 0 <= c < 4 && 0 <= y2 && (y2 < y || (y2 == y && x2 < x
                            + 1))
                            implies #[trigger] self.texel_byte(x2, y2, c) == buf.pixel_byte(
                        x2,
                        y2,
                        c,
                    ) by {
                        if y2 == y && x2 == x {
                            assert(y2 * p + x2 * 4 + c == offi + c);
                        } else {
                            let k2 = x2 * 4 + c;
                            lemma_strided_index_in_range(width as int, height as int, p, x2, y2, c);
                            assert(k2 < x * 4 || y2 != y);
                            if y2 * p + k2 == offi {
                                lemma_strided_pos_unique(p, y2, k2, y as int, x * 4);
                            }
                            if y2 * p + k2 == offi + 1 {
                                lemma_strided_pos_unique(p, y2, k2, y as int, x * 4 + 1);
                            }
                            if y2 * p + k2 == offi + 2 {
                                lemma_strided_pos_unique(p, y2, k2, y as int, x * 4 + 2);
                            }
                            if y2 * p + k2 == offi + 3 {
                                lemma_strided_pos_unique(p, y2, k2, y as int, x * 4 + 3);
                            }
                            assert(y2 * p + k2 != offi);
                            assert(y2 * p + k2 != offi + 1);
                            assert(y2 * p + k2 != offi + 2);
                            assert(y2 * p + k2 != offi + 3);
                            assert(tpre.texel_byte(x2, y2, c) == buf.pixel_byte(x2, y2, c));
                            assert(self.data@[y2 * p + k2] == tpre.data@[y2 * p + k2]);
                        }
                    }
                    assert forall|y2: int, k: int|
                        0 <= y2 < height && 0 <= k < p && (y2 > y || k >= 4 * width || (y2 == y && k
                            >= 4 * (x + 1)))
                            implies #[trigger] self.row_byte(y2, k) == t0.row_byte(y2, k) by {
                        assert(0 <= y2 * p && y2 * p + k < p * (height as int))
                            by (nonlinear_arith)
                            requires
                                0 <= y2 < height as int,
                                0 <= k < p,
                        ;
                        if y2 * p + k == offi {
                            lemma_strided_pos_unique(p, y2, k, y as int, x * 4);
                        }
                        if y2 * p + k == offi + 1 {
                            lemma_strided_pos_unique(p, y2, k, y as int, x * 4 + 1);
                        }
                        if y2 * p + k == offi + 2 {
                            lemma_strided_pos_unique(p, y2, k, y as int, x * 4 + 2);
                        }
                        if y2 * p + k == offi + 3 {
                            lemma_strided_pos_unique(p, y2, k, y as int, x * 4 + 3);
                        }
                        assert(tpre.row_byte(y2, k) == t0.row_byte(y2, k));
                    }
                }
                x = x + 1;
            }
            y = y + 1;
        }
        Ok(())
    }

    /// Whether `r` holds, tightly packed, the same pixel bytes the texture
    /// holds at strided positions.
    pub open spec fn packed_at(self, r: Seq<u8>, x: int, y: int, c: int) -> bool {
        r[(y * self.width + x) * 4 + c] == self.texel_byte(x, y, c)
    }

    /// Reads the texture back into tightly packed rows — width × 4 bytes per
    /// row — stripping the stride padding.
    pub fn readback(&self) -> (r: Vec<u8>)
        requires
            self.wf(),
        ensures
            r@.len() == self.width * self.height * 4,
            forall|x: int, y: int, c: int|
                0 <= x < self.width && 0 <= y < self.height && 0 <= c < 4
                    ==> #[trigger] self.packed_at(r@, x, y, c),
    {
        let width: u32 = self.width;
        let height: u32 = self.height;
        let pitch: usize = self.pitch;
        let mut out: Vec<u8> = Vec::new();
        let mut y: u32 = 0;
        while y < height
            invariant
                0 <= y <= height,
                self.wf(),
                self.width == width,
                self.height == height,
                self.pitch == pitch,
                out@.len() == y * width * 4,
                forall|x2: int, y2: int, c: int|
                    0 <= x2 < width && 0 <= y2 < y && 0 <= c < 4
                        ==> #[trigger] self.packed_at(out@, x2, y2, c),
            decreases height - y,
        {
            let mut x: u32 = 0;
            while x < width
                invariant
                    0 <= x <= width,
                    0 <= y < height,
                    self.wf(),
                    self.width == width,
                    self.height == height,
                    self.pitch == pitch,
                    out@.len() == (y * width + x) * 4,
                    forall|x2: int, y2: int, c: int|
                        0 <= x2 < width && 0 <= c < 4 && 0 <= y2 && (y2 < y || (y2 == y && x2 < x))
                            ==> #[trigger] self.packed_at(out@, x2, y2, c),
                decreases width - x,
            {
                proof {
                    lemma_strided_index_in_range(
                        width as int,
                        height as int,
                        pitch as int,
                        x as int,
                        y as int,
                        3,
                    );
                    lemma_byte_index_in_range(width as int, height as int, x as int, y as int, 3);
                    assert(self.data.len() == self.data@.len());
                    assert(y * pitch + x * 4 + 3 < self.data@.len());
                    assert(y * pitch >= 0);
                }
                let off: usize = y as usize * pitch + x as usize * 4;
                let ghost opre: Seq<u8> = out@;
                out.push(self.data[off]);
                out.push(self.data[off + 1]);
                out.push(self.data[off + 2]);
                out.push(self.data[off + 3]);
                proof {
                    assert forall|x2: int, y2: int, c: int|
                        0 <= x2 < width && 0 <= c < 4 && 0 <= y2 && (y2 < y || (y2 == y && x2 < x
                            + 1))
                            implies #[trigger] self.packed_at(out@, x2, y2, c) by {
                        if y2 == y && x2 == x {
                            assert((y2 * width + x2) * 4 + c == opre.len() + c);
                        } else {
                            lemma_row_major_lt(width as int, x2, y2, x as int, y as int);
                            assert((y2 * width + x2) * 4 + c < opre.len());
                            assert(self.packed_at(opre, x2, y2, c));
                        }
                    }
                }
                x = x + 1;
            }
            proof {
                assert((y * width + width) * 4 == ((y + 1) * width) * 4) by (nonlinear_arith);
            }
            y = y + 1;
        }
        proof {
            assert(height * width * 4 == width * height * 4) by (nonlinear_arith);
        }
        out
    }
}

/// A flat index into a packed `w`-by-`h` RGBA8 byte grid decomposes into the
/// row, column and channel it addresses.
pub proof fn lemma_flat_index_decompose(w: int, h: int, i: int)
    requires
        0 < w,
        0 <= i < w * h * 4,
    ensures
        ({
            let y = i / (w * 4);
            let x = (i % (w * 4)) / 4;
            let c = (i % (w * 4)) % 4;
            0 <= y < h && 0 <= x < w && 0 <= c < 4 && i == (y * w + x) * 4 + c
        }),
{
    let rw = w * 4;
    let y = i / rw;
    let r = i % rw;
    let x = r / 4;
    let c = r % 4;
    vstd::arithmetic::div_mod::lemma_fundamental_div_mod(i, rw);
    vstd::arithmetic::div_mod::lemma_mod_bound(i, rw);
    vstd::arithmetic::div_mod::lemma_div_pos_is_pos(i, rw);
    assert(i < rw * h) by (nonlinear_arith)
        requires
            i < w * h * 4,
            rw == w * 4,
    ;
    vstd::arithmetic::div_mod::lemma_multiply_divide_lt(i, rw, h);
    vstd::arithmetic::div_mod::lemma_fundamental_div_mod(r, 4);
    vstd::arithmetic::div_mod::lemma_mod_bound(r, 4);
    vstd::arithmetic::div_mod::lemma_div_pos_is_pos(r, 4);
    vstd::arithmetic::div_mod::lemma_multiply_divide_lt(r, 4, w);
    assert(rw * y + (4 * x + c) == (y * w + x) * 4 + c) by (nonlinear_arith)
        requires
            rw == w * 4,
    ;
}

/// Upload followed by readback is the identity on the buffer's bytes: a
/// texture that holds buffer `b` — as `upload` leaves it — reads back
/// exactly `b`'s bytes, whatever row padding the backend imposed.
pub proof fn lemma_upload_readback_roundtrip(t: GPUTexture, b: PixelBuffer, r: Seq<u8>)
    requires
        t.wf(),
        b.wf(),
        t.holds_buffer(b),
        r.len() == t.width * t.height * 4,
        forall|x: int, y: int, c: int|
            0 <= x < t.width && 0 <= y < t.height && 0 <= c < 4
                ==> #[trigger] t.packed_at(r, x, y, c),
    ensures
        r == b.data@,
{
    let w = t.width as int;
    let h = t.height as int;
    if w == 0 || h == 0 {
        assert(w * h * 4 == 0) by (nonlinear_arith)
            requires
                w == 0 || h == 0,
        ;
        assert(r =~= b.data@);
    } else {
        assert forall|i: int| 0 <= i < r.len() implies r[i] == b.data@[i] by {
            lemma_flat_index_decompose(w, h, i);
            let y = i / (w * 4);
            let x = (i % (w * 4)) / 4;
            let c = (i % (w * 4)) % 4;
            assert(t.packed_at(r, x, y, c));
            assert(t.texel_byte(x, y, c) == b.pixel_byte(x, y, c));
        }
        assert(r =~= b.data@);
    }
}

} // verus!
