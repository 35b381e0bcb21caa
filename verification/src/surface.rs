//! The destination surface and the per-frame composite. A present call
//! clears the surface, then composites the texture once per placement, in
//! order — later placements draw on top of earlier ones — before the backend
//! flips the result to the screen.
//!
//! Each placement is a target rectangle with optional horizontal and
//! vertical flips; a placement whose rectangle differs from the texture's
//! size scales by nearest-neighbour sampling. The backend's own rotation
//! parameter takes a floating-point angle and stays at the program's edge,
//! which always passes a zero angle.

use vstd::prelude::*;
use crate::pixel::lemma_byte_index_in_range;
use crate::pixel::lemma_packed_pos_unique;
use crate::texture::GPUTexture;
use crate::texture::lemma_strided_index_in_range;

verus! {

/// Where and how one composite of the texture lands on the surface: a
/// target rectangle plus flip flags.
#[derive(Debug, Copy, Clone, PartialEq, Eq, Structural)]
pub struct DrawPlacement {
    pub x: i32,
    pub y: i32,
    pub width: u32,
    pub height: u32,
    pub flip_h: bool,
    pub flip_v: bool,
}

/// Whether surface pixel (`sx`, `sy`) lies inside placement `p`'s rectangle.
pub open spec fn covers(p: DrawPlacement, sx: int, sy: int) -> bool {
    &&& p.x <= sx < p.x + p.width
    &&& p.y <= sy < p.y + p.height
}

/// Whether compositing `t` at `p` writes surface pixel (`sx`, `sy`): the
/// pixel is inside the rectangle and the texture has pixels to sample.
pub open spec fn draws(t: GPUTexture, p: DrawPlacement, sx: int, sy: int) -> bool {
    covers(p, sx, sy) && t.width > 0 && t.height > 0
}

/// Nearest-neighbour source coordinate for offset `d` inside a placement
/// edge of `psize` pixels sampling a texture edge of `tsize` pixels,
/// mirrored when the placement flips that axis.
pub open spec fn src_coord(d: int, psize: int, tsize: int, flip: bool) -> int {
    let s = d * tsize / psize;
    if flip {
        tsize - 1 - s
    } else {
        s
    }
}

/// The texture byte that placement `p` writes at surface pixel
/// (`sx`, `sy`), channel `c`.
pub open spec fn sample_byte(t: GPUTexture, p: DrawPlacement, sx: int, sy: int, c: int) -> u8 {
    t.texel_byte(
        src_coord(sx - p.x, p.width as int, t.width as int, p.flip_h),
        src_coord(sy - p.y, p.height as int, t.height as int, p.flip_v),
        c,
    )
}

/// What a present leaves at surface pixel (`sx`, `sy`), channel `c`: zero
/// where no placement draws (the clear), else the sample of the last
/// placement that draws the pixel — later placements draw on top.
pub open spec fn spec_present_byte(
    t: GPUTexture,
    ps: Seq<DrawPlacement>,
    sx: int,
    sy: int,
    c: int,
) -> u8
    decreases ps.len(),
{
    if ps.len() == 0 {
        0u8
    } else if draws(t, ps.last(), sx, sy) {
        sample_byte(t, ps.last(), sx, sy, c)
    } else {
        spec_present_byte(t, ps.drop_last(), sx, sy, c)
    }
}

/// The pixels already composited while a placement is walked row by row:
/// those inside the rectangle and before row `dy`, or on row `dy` before
/// column `dx` (offsets relative to the rectangle's corner).
pub open spec fn visited(p: DrawPlacement, dx: int, dy: int, sx: int, sy: int) -> bool {
    covers(p, sx, sy) && (sy - p.y < dy || (sy - p.y == dy && sx - p.x < dx))
}

/// Nearest-neighbour sampling stays inside the texture edge.
pub proof fn lemma_scale_in_range(d: int, psize: int, tsize: int)
    requires
        0 <= d < psize,
        0 < tsize,
    ensures
        0 <= d * tsize / psize < tsize,
{
    assert(0 <= d * tsize && d * tsize < psize * tsize) by (nonlinear_arith)
        requires
            0 <= d < psize,
            0 < tsize,
    ;
    vstd::arithmetic::div_mod::lemma_div_pos_is_pos(d * tsize, psize);
    vstd::arithmetic::div_mod::lemma_multiply_divide_lt(d * tsize, psize, tsize);
}

/// The window-sized RGBA8 grid that composites land on. The real surface
/// lives behind the windowing backend; this is its byte-exact model,
/// packed row-major with no padding.
pub struct Surface {
    pub width: u32,
    pub height: u32,
    pub data: Vec<u8>,
}

impl Surface {
    /// Well-formedness: the byte vector holds exactly width × height
    /// four-byte pixels.
    pub open spec fn wf(self) -> bool {
        self.data@.len() == self.width * self.height * 4
    }

    /// Channel `c` of the surface pixel at column `sx`, row `sy`.
    pub open spec fn pixel_byte(self, sx: int, sy: int, c: int) -> u8 {
        self.data@[(sy * self.width + sx) * 4 + c]
    }

    /// A zero-filled surface. Succeeds iff width × height × 4 fits in
    /// `usize`.
    pub fn new(width: u32, height: u32) -> (r: Option<Surface>)
        ensures
            match r {
                Some(s) => {
                    &&& s.wf()
                    &&& s.width == width
                    &&& s.height == height
                    &&& forall|i: int| 0 <= i < s.data@.len() ==> s.data@[i] == 0u8
                },
                None => width * height * 4 > usize::MAX,
            },
            r is Some <==> width * height * 4 <= usize::MAX,
    {
        let pixels: Option<usize> = (width as usize).checked_mul(height as usize);
        let total: Option<usize> = match pixels {
            None => None,
            Some(p) => p.checked_mul(4),
        };
        match total {
            None => {
                proof {
                    if pixels is None {
                        assert(width * height * 4 > usize::MAX) by (nonlinear_arith)
                            requires
                                width * height > usize::MAX,
                        ;
                    }
                }
                None
            },
            Some(n) => {
                let mut data: Vec<u8> = Vec::new();
                while data.len() < n
                    invariant
                        data@.len() <= n,
                        forall|i: int| 0 <= i < data@.len() ==> data@[i] == 0u8,
                    decreases n - data@.len(),
                {
                    data.push(0u8);
                }
                Some(Surface { width, height, data })
            },
        }
    }

    /// Reads one surface pixel as its four channel bytes.
    pub fn get_pixel(&self, x: u32, y: u32) -> (r: (u8, u8, u8, u8))
        requires
            self.wf(),
            x < self.width,
            y < self.height,
        ensures
            r.0 == self.pixel_byte(x as int, y as int, 0),
            r.1 == self.pixel_byte(x as int, y as int, 1),
            r.2 == self.pixel_byte(x as int, y as int, 2),
            r.3 == self.pixel_byte(x as int, y as int, 3),
    {
        let n: usize = self.data.len();
        proof {
            lemma_byte_index_in_range(
                self.width as int,
                self.height as int,
                x as int,
                y as int,
                3,
            );
            assert((y * self.width + x) * 4 + 3 < n);
            assert(y * self.width + x <= (y * self.width + x) * 4);
        }
        let base: usize = (y as usize * self.width as usize + x as usize) * 4;
        (self.data[base], self.data[base + 1], self.data[base + 2], self.data[base + 3])
    }

    /// One composite of the texture at one placement: every surface pixel
    /// the placement draws receives its sample, every other byte is left
    /// untouched.
    fn composite_one(&mut self, t: &GPUTexture, p: DrawPlacement)
        requires
            old(self).wf(),
            t.wf(),
        ensures
            final(self).wf(),
            final(self).width == old(self).width,
            final(self).height == old(self).height,
            forall|sx: int, sy: int, c: int|
                0 <= sx < old(self).width && 0 <= sy < old(self).height && 0 <= c < 4 && draws(
                    *t,
                    p,
                    sx,
                    sy,
                ) ==> #[trigger] final(self).pixel_byte(sx, sy, c) == sample_byte(*t, p, sx, sy, c),
            forall|sx: int, sy: int, c: int|
                0 <= sx < old(self).width && 0 <= sy < old(self).height && 0 <= c < 4 && !draws(
                    *t,
                    p,
                    sx,
                    sy,
                ) ==> #[trigger] final(self).pixel_byte(sx, sy, c) == old(self).pixel_byte(
                    sx,
                    sy,
                    c,
                ),
    {
        if t.width == 0 || t.height == 0 {
            return ;
        }
        let ghost s0: Surface = *self;
        let sw: u32 = self.width;
        let sh: u32 = self.height;
        let tw: u32 = t.width;
        let th: u32 = t.height;
        let mut dy: u32 = 0;
        while dy < p.height
            invariant
                0 <= dy <= p.height,
                t.wf(),
                tw == t.width,
                th == t.height,
                tw > 0,
                th > 0,
                s0.wf(),
                s0.width == sw,
                s0.height == sh,
                self.width == sw,
                self.height == sh,
                self.data@.len() == s0.data@.len(),
                forall|sx: int, sy: int, c: int|
                    0 <= sx < sw && 0 <= sy < sh && 0 <= c < 4 && visited(p, 0, dy as int, sx, sy)
                        ==> #[trigger] self.pixel_byte(sx, sy, c) == sample_byte(*t, p, sx, sy, c),
                forall|sx: int, sy: int, c: int|
                    0 <= sx < sw && 0 <= sy < sh && 0 <= c < 4 && !visited(p, 0, dy as int, sx, sy)
                        ==> #[trigger] self.pixel_byte(sx, sy, c) == s0.pixel_byte(sx, sy, c),
            decreases p.height - dy,
        {
            let mut dx: u32 = 0;
            while dx < p.width
                invariant
                    0 <= dx <= p.width,
                    0 <= dy < p.height,
                    t.wf(),
                    tw == t.width,
                    th == t.height,
                    tw > 0,
                    th > 0,
                    s0.wf(),
                    s0.width == sw,
                    s0.height == sh,
                    self.width == sw,
                    self.height == sh,
                    self.data@.len() == s0.data@.len(),
                    forall|sx: int, sy: int, c: int|
                        0 <= sx < sw && 0 <= sy < sh && 0 <= c < 4 && visited(
                            p,
                            dx as int,
                            dy as int,
                            sx,
                            sy,
                        ) ==> #[trigger] self.pixel_byte(sx, sy, c) == sample_byte(
                            *t,
                            p,
                            sx,
                            sy,
                            c,
                        ),
                    forall|sx: int, sy: int, c: int|
                        0 <= sx < sw && 0 <= sy < sh && 0 <= c < 4 && !visited(
                            p,
                            dx as int,
                            dy as int,
                            sx,
                            sy,
                        ) ==> #[trigger] self.pixel_byte(sx, sy, c) == s0.pixel_byte(sx, sy, c),
                decreases p.width - dx,
            {
                let xx: i64 = p.x as i64 + dx as i64;
                let yy: i64 = p.y as i64 + dy as i64;
                if 0 <= xx && xx < sw as i64 && 0 <= yy && yy < sh as i64 {
                    proof {
                        assert(dx * tw <= u32::MAX * u32::MAX && dy * th <= u32::MAX * u32::MAX)
                            by (nonlinear_arith)
                            requires
                                0 <= dx <= u32::MAX,
                                0 <= tw <= u32::MAX,
                                0 <= dy <= u32::MAX,
                                0 <= th <= u32::MAX,
                        ;
                    }
                    let sx0: u64 = dx as u64 * tw as u64 / (p.width as u64);
                    let sy0: u64 = dy as u64 * th as u64 / (p.height as u64);
                    proof {
                        lemma_scale_in_range(dx as int, p.width as int, tw as int);
                        lemma_scale_in_range(dy as int, p.height as int, th as int);
                    }
                    let tx: u32 = if p.flip_h {
                        tw - 1 - sx0 as u32
                    } else {
                        sx0 as u32
                    };
                    let ty: u32 = if p.flip_v {
                        th - 1 - sy0 as u32
                    } else {
                        sy0 as u32
                    };
                    proof {
                        assert(tx as int == src_coord(dx as int, p.width as int, tw as int, p.flip_h));
                        assert(ty as int == src_coord(dy as int, p.height as int, th as int, p.flip_v));
                        lemma_strided_index_in_range(
                            tw as int,
                            th as int,
                            t.pitch as int,
                            tx as int,
                            ty as int,
                            3,
                        );
                        assert(t.data.len() == t.data@.len());
                    }
                    let toff: usize = ty as usize * t.pitch + tx as usize * 4;
                    let vr: u8 = t.data[toff];
                    let vg: u8 = t.data[toff + 1];
                    let vb: u8 = t.data[toff + 2];
                    let va: u8 = t.data[toff + 3];
                    let px: u32 = xx as u32;
                    let py: u32 = yy as u32;
                    proof {
                        lemma_byte_index_in_range(sw as int, sh as int, px as int, py as int, 3);
                        assert(self.data.len() == self.data@.len());
                        assert(py * sw + px <= (py * sw + px) * 4);
                    }
                    let doff: usize = (py as usize * sw as usize + px as usize) * 4;
                    let ghost spre: Surface = *self;
                    self.data[doff] = vr;
                    self.data[doff + 1] = vg;
                    self.data[doff + 2] = vb;
                    self.data[doff + 3] = va;
                    proof {
                        let swi = sw as int;
                        let pxi = px as int;
                        let pyi = py as int;
                        let offd = doff as int;
                        assert(offd == (pyi * swi + pxi) * 4);
                        assert(self.data@ == spre.data@.update(offd, vr).update(offd + 1, vg).update(
                            offd + 2,
                            vb,
                        ).update(offd + 3, va));
                        assert(vr == t.texel_byte(tx as int, ty as int, 0));
                        assert(vg == t.texel_byte(tx as int, ty as int, 1));
                        assert(vb == t.texel_byte(tx as int, ty as int, 2));
                        assert(va == t.texel_byte(tx as int, ty as int, 3));
                        assert(sample_byte(*t, p, pxi, pyi, 0) == t.texel_byte(
                            tx as int,
                            ty as int,
                            0,
                        ));
                        assert forall|sx: int, sy: int, c: int|
                            0 <= sx < sw && 0 <= sy < sh && 0 <= c < 4 && visited(
                                p,
                                dx + 1 as int,
                                dy as int,
                                sx,
                                sy,
                            ) implies #[trigger] self.pixel_byte(sx, sy, c) == sample_byte(
                            *t,
                            p,
                            sx,
                            sy,
                            c,
                        ) by {
                            lemma_byte_index_in_range(swi, sh as int, sx, sy, c);
                            if sx == pxi && sy == pyi {
                                assert((sy * swi + sx) * 4 + c == offd + c);
                            } else {
                                if (sy * swi + sx) * 4 + c == offd {
                                    lemma_packed_pos_unique(swi, sx, sy, c, pxi, pyi, 0);
                                }
                                if (sy * swi + sx) * 4 + c == offd + 1 {
                                    lemma_packed_pos_unique(swi, sx, sy, c, pxi, pyi, 1);
                                }
                                if (sy * swi + sx) * 4 + c == offd + 2 {
                                    lemma_packed_pos_unique(swi, sx, sy, c, pxi, pyi, 2);
                                }
                                if (sy * swi + sx) * 4 + c == offd + 3 {
                                    lemma_packed_pos_unique(swi, sx, sy, c, pxi, pyi, 3);
                                }
                                assert(visited(p, dx as int, dy as int, sx, sy));
                                assert(spre.pixel_byte(sx, sy, c) == sample_byte(*t, p, sx, sy, c));
                            }
                        }
                        assert forall|sx: int, sy: int, c: int|
                            0 <= sx < sw && 0 <= sy < sh && 0 <= c < 4 && !visited(
                                p,
                                dx + 1 as int,
                                dy as int,
                                sx,
                                sy,
                            ) implies #[trigger] self.pixel_byte(sx, sy, c) == s0.pixel_byte(
                            sx,
                            sy,
                            c,
                        ) by {
                            lemma_byte_index_in_range(swi, sh as int, sx, sy, c);
                            assert(!(sx == pxi && sy == pyi));
                            if (sy * swi + sx) * 4 + c == offd {
                                lemma_packed_pos_unique(swi, sx, sy, c, pxi, pyi, 0);
                            }
                            if (sy * swi + sx) * 4 + c == offd + 1 {
                                lemma_packed_pos_unique(swi, sx, sy, c, pxi, pyi, 1);
                            }
                            if (sy * swi + sx) * 4 + c == offd + 2 {
                                lemma_packed_pos_unique(swi, sx, sy, c, pxi, pyi, 2);
                            }
                            if (sy * swi + sx) * 4 + c == offd + 3 {
                                lemma_packed_pos_unique(swi, sx, sy, c, pxi, pyi, 3);
                            }
                            assert(!visited(p, dx as int, dy as int, sx, sy));
                            assert(spre.pixel_byte(sx, sy, c) == s0.pixel_byte(sx, sy, c));
                        }
                    }
                } else {
                    proof {
                        assert forall|sx: int, sy: int, c: int|
                            0 <= sx < sw && 0 <= sy < sh && 0 <= c < 4 && visited(
                                p,
                                dx + 1 as int,
                                dy as int,
                                sx,
                                sy,
                            ) implies #[trigger] self.pixel_byte(sx, sy, c) == sample_byte(
                            *t,
                            p,
                            sx,
                            sy,
                            c,
                        ) by {
                            assert(visited(p, dx as int, dy as int, sx, sy));
                        }
                    }
                }
                dx = dx + 1;
            }
            dy = dy + 1;
        }
    }

    /// Clears the surface to zeroed bytes, then composites the texture once
    /// per placement, in the given order: each surface byte ends up as the
    /// sample of the last placement that draws its pixel, and zero where no
    /// placement does.
    pub fn present(&mut self, t: &GPUTexture, placements: &Vec<DrawPlacement>)
        requires
            old(self).wf(),
            t.wf(),
        ensures
            final(self).wf(),
            final(self).width == old(self).width,
            final(self).height == old(self).height,
            forall|sx: int, sy: int, c: int|
                0 <= sx < old(self).width && 0 <= sy < old(self).height && 0 <= c < 4
                    ==> #[trigger] final(self).pixel_byte(sx, sy, c) == spec_present_byte(
                    *t,
                    placements@,
                    sx,
                    sy,
                    c,
                ),
    {
        let sw: u32 = self.width;
        let sh: u32 = self.height;
        let n: usize = self.data.len();
        let mut cleared: Vec<u8> = Vec::new();
        while cleared.len() < n
            invariant
                cleared@.len() <= n,
                forall|i: int| 0 <= i < cleared@.len() ==> cleared@[i] == 0u8,
            decreases n - cleared@.len(),
        {
            cleared.push(0u8);
        }
        self.data = cleared;
        proof {
            assert forall|sx: int, sy: int, c: int|
                0 <= sx < sw && 0 <= sy < sh && 0 <= c < 4 implies #[trigger] self.pixel_byte(
                sx,
                sy,
                c,
            ) == 0u8 by {
                lemma_byte_index_in_range(sw as int, sh as int, sx, sy, c);
            }
        }
        let mut k: usize = 0;
        while k < placements.len()
            invariant
                0 <= k <= placements@.len(),
                t.wf(),
                self.wf(),
                self.width == sw,
                self.height == sh,
                forall|sx: int, sy: int, c: int|
                    0 <= sx < sw && 0 <= sy < sh && 0 <= c < 4
                        ==> #[trigger] self.pixel_byte(sx, sy, c) == spec_present_byte(
                        *t,
                        placements@.take(k as int),
                        sx,
                        sy,
                        c,
                    ),
            decreases placements@.len() - k,
        {
            let p: DrawPlacement = placements[k];
            self.composite_one(t, p);
            proof {
                assert(placements@.take(k + 1 as int).drop_last() =~= placements@.take(k as int));
                assert(placements@.take(k + 1 as int).last() == placements@[k as int]);
            }
            k = k + 1;
        }
        proof {
            assert(placements@.take(placements@.len() as int) =~= placements@);
        }
    }
}

} // verus!
