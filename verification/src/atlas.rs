//! The glyph atlas: a single-channel texture into which rasterized glyphs
//! are shelf-packed, with a cache from character to its pixel rectangle.
//!
//! The packing invariant is the point of this module: every cached
//! rectangle lies inside the atlas, and any two cached rectangles are
//! disjoint.  Rasterization happens outside (it needs a font and floating
//! point); this module takes the raster as plain values and does the
//! placement.

use vstd::prelude::*;

use std::collections::HashMap;

use crate::grid::lemma_row_major_index;

verus! {

/// One cached glyph: its pixel rectangle in the atlas, its bearing and its
/// advance.  A whitespace-like glyph has a zero-size rectangle.
#[derive(Clone, Copy, Debug, PartialEq, Eq, Structural)]
pub struct GlyphInfo {
    /// Left edge of the rectangle in the atlas.
    pub x: u32,
    /// Top edge of the rectangle in the atlas.
    pub y: u32,
    /// Rectangle width in pixels; 0 for a blank glyph.
    pub w: u32,
    /// Rectangle height in pixels; 0 for a blank glyph.
    pub h: u32,
    /// Horizontal bearing from the rasterizer.
    pub xmin: i32,
    /// Vertical bearing from the rasterizer.
    pub ymin: i32,
    /// Advance width in pixels.
    pub advance: u32,
}

impl GlyphInfo {
    /// Two cached rectangles do not overlap (empty ones never overlap).
    pub open spec fn disjoint_from(self, other: GlyphInfo) -> bool {
        ||| self.w == 0
        ||| self.h == 0
        ||| other.w == 0
        ||| other.h == 0
        ||| self.x + self.w <= other.x
        ||| other.x + other.w <= self.x
        ||| self.y + self.h <= other.y
        ||| other.y + other.h <= self.y
    }
}

/// True when index `i` of the pixel buffer lies inside the blitted
/// rectangle at `(cx, cy)` of size `w` by `h`.
pub open spec fn spec_in_blit(i: int, cx: int, cy: int, w: int, h: int, width: int) -> bool {
    exists|yy: int|
        0 <= yy < h && #[trigger] ((cy + yy) * width) + cx <= i < (cy + yy) * width + cx + w
}

/// The glyph texture cache: a `width` by `height` single-channel pixel
/// buffer, the shelf cursor, and the per-character cache.
pub struct GlyphAtlas {
    /// The cache, keyed by the character's scalar value.
    pub glyphs: HashMap<u32, GlyphInfo>,
    /// The texture, row-major, one byte of coverage per pixel.
    pub pixels: Vec<u8>,
    /// Next free column on the current shelf.
    pub cursor_x: u32,
    /// Top row of the current shelf.
    pub cursor_y: u32,
    /// Height of the current shelf (tallest glyph plus its gap).
    pub row_height: u32,
    /// Texture width.
    pub width: u32,
    /// Texture height.
    pub height: u32,
    /// True when the texture changed since it was last uploaded.
    pub dirty: bool,
}

impl GlyphAtlas {
    /// A cached rectangle lies inside the atlas and behind the shelf
    /// cursor: either on a finished shelf above the current one, or on the
    /// current shelf left of the cursor and lower than the shelf.
    pub open spec fn rect_wf(self, g: GlyphInfo) -> bool {
        g.w > 0 && g.h > 0 ==> {
            &&& g.x + g.w <= self.width
            &&& g.y + g.h <= self.height
            &&& (g.y + g.h <= self.cursor_y || (g.y == self.cursor_y && g.x + g.w <= self.cursor_x
                && g.h < self.row_height))
        }
    }

    /// Well-formed: the pixel buffer matches the dimensions, every cached
    /// rectangle is placed behind the cursor inside the atlas, and any two
    /// cached rectangles are disjoint.
    pub open spec fn wf(self) -> bool {
        &&& 1 <= self.width < u32::MAX
        &&& 1 <= self.height < u32::MAX
        &&& self.width * self.height <= usize::MAX
        &&& self.pixels@.len() == self.width * self.height
        &&& forall|k: u32| #[trigger]
            self.glyphs@.contains_key(k) ==> self.rect_wf(self.glyphs@[k])
        &&& forall|k1: u32, k2: u32|
            self.glyphs@.contains_key(k1) && self.glyphs@.contains_key(k2) && k1 != k2 ==> (
            #[trigger] self.glyphs@[k1]).disjoint_from(#[trigger] self.glyphs@[k2])
    }

    /// Creates an empty atlas of the given size.
    pub fn new(width: u32, height: u32) -> (a: GlyphAtlas)
        requires
            1 <= width < u32::MAX,
            1 <= height < u32::MAX,
            width * height <= usize::MAX,
        ensures
            a.wf(),
            a.glyphs@ == Map::<u32, GlyphInfo>::empty(),
            a.width == width,
            a.height == height,
            a.cursor_x == 0,
            a.cursor_y == 0,
            a.row_height == 0,
            a.dirty,
            forall|i: int| 0 <= i < a.pixels@.len() ==> a.pixels@[i] == 0u8,
    {
        proof {
            lemma_row_major_index(width as int, height as int, 0, height - 1);
        }
        let total = (width as usize) * (height as usize);
        let mut pixels: Vec<u8> = Vec::new();
        let mut i: usize = 0;
        while i < total
            invariant
                i <= total,
                pixels@.len() == i,
                forall|j: int| 0 <= j < i ==> pixels@[j] == 0u8,
            decreases total - i,
        {
            pixels.push(0);
            i = i + 1;
        }
        GlyphAtlas {
            glyphs: HashMap::new(),
            pixels,
            cursor_x: 0,
            cursor_y: 0,
            row_height: 0,
            width,
            height,
            dirty: true,
        }
    }

    /// Looks a character up in the cache.
    pub fn lookup(&self, c: char) -> (r: Option<GlyphInfo>)
        ensures
            match r {
                Some(g) => self.glyphs@.contains_key(c as u32) && g == self.glyphs@[c as u32],
                None => !self.glyphs@.contains_key(c as u32),
            },
    {
        match self.glyphs.get(&(c as u32)) {
            Some(g) => Some(*g),
            None => None,
        }
    }

    /// Returns the cached record for `c`, inserting it first if needed:
    /// a zero-size raster is cached without touching the texture; anything
    /// else is shelf-packed.  The cursor wraps to a new shelf when the
    /// glyph does not fit beside it; when the new shelf cannot take the
    /// glyph's height, the atlas is full and `None` is returned.
    pub fn get_or_insert(
        &mut self,
        c: char,
        w: u32,
        h: u32,
        xmin: i32,
        ymin: i32,
        advance: u32,
        bitmap: &[u8],
    ) -> (r: Option<GlyphInfo>)
        requires
            old(self).wf(),
            bitmap@.len() == w * h,
            w <= old(self).width,
        ensures
            final(self).wf(),
            final(self).width == old(self).width,
            final(self).height == old(self).height,
            old(self).glyphs@.contains_key(c as u32) ==> r == Some(
                old(self).glyphs@[c as u32],
            ) && *final(self) == *old(self),
            !old(self).glyphs@.contains_key(c as u32) && (w == 0 || h == 0) ==> ({
                let info = GlyphInfo { x: 0, y: 0, w: 0, h: 0, xmin: 0, ymin: 0, advance };
                &&& r == Some(info)
                &&& final(self).glyphs@ == old(self).glyphs@.insert(c as u32, info)
                &&& final(self).pixels@ == old(self).pixels@
                &&& final(self).cursor_x == old(self).cursor_x
                &&& final(self).cursor_y == old(self).cursor_y
                &&& final(self).row_height == old(self).row_height
                &&& final(self).dirty == old(self).dirty
            }),
            !old(self).glyphs@.contains_key(c as u32) && w > 0 && h > 0 ==> ({
                let wrap = old(self).cursor_x + w > old(self).width;
                let cx = if wrap {
                    0
                } else {
                    old(self).cursor_x as int
                };
                let cy = if wrap {
                    if old(self).cursor_y + old(self).row_height <= u32::MAX {
                        old(self).cursor_y + old(self).row_height
                    } else {
                        u32::MAX as int
                    }
                } else {
                    old(self).cursor_y as int
                };
                let rh = if wrap {
                    0
                } else {
                    old(self).row_height as int
                };
                if cy + h > old(self).height {
                    &&& r is None
                    &&& final(self).glyphs@ == old(self).glyphs@
                    &&& final(self).pixels@ == old(self).pixels@
                    &&& final(self).cursor_x == cx
                    &&& final(self).cursor_y == cy
                    &&& final(self).row_height == rh
                    &&& final(self).dirty == old(self).dirty
                } else {
                    let info = GlyphInfo {
                        x: cx as u32,
                        y: cy as u32,
                        w,
                        h,
                        xmin,
                        ymin,
                        advance,
                    };
                    &&& r == Some(info)
                    &&& final(self).glyphs@ == old(self).glyphs@.insert(c as u32, info)
                    &&& final(self).cursor_x == cx + w + 1
                    &&& final(self).cursor_y == cy
                    &&& final(self).row_height == (if rh >= h + 1 {
                        rh
                    } else {
                        h + 1
                    })
                    &&& final(self).dirty
                    &&& forall|yy: int, xx: int|
                        0 <= yy < h && 0 <= xx < w ==> final(self).pixels@[#[trigger] ((cy + yy)
                            * old(self).width + cx + xx)] == bitmap@[yy * w + xx]
                    &&& forall|i: int|
                        0 <= i < final(self).pixels@.len() && !spec_in_blit(
                            i,
                            cx,
                            cy,
                            w as int,
                            h as int,
                            old(self).width as int,
                        ) ==> final(self).pixels@[i] == old(self).pixels@[i]
                }
            }),
    {
        match self.lookup(c) {
            Some(g) => {
                return Some(g);
            },
            None => {},
        }
        if w == 0 || h == 0 {
            let info = GlyphInfo { x: 0, y: 0, w: 0, h: 0, xmin: 0, ymin: 0, advance };
            self.glyphs.insert(c as u32, info);
            proof {
                assert(*self == (GlyphAtlas { glyphs: self.glyphs, ..*old(self) }));
                assert forall|k1: u32, k2: u32|
                    self.glyphs@.contains_key(k1) && self.glyphs@.contains_key(k2) && k1
                        != k2 implies (#[trigger] self.glyphs@[k1]).disjoint_from(
                    #[trigger] self.glyphs@[k2]) by {}
            }
            return Some(info);
        }
        // shelf wrap
        if (self.cursor_x as u64) + (w as u64) > (self.width as u64) {
            self.cursor_x = 0;
            self.cursor_y = if self.cursor_y <= u32::MAX - self.row_height {
                self.cursor_y + self.row_height
            } else {
                u32::MAX
            };
            self.row_height = 0;
        }
        proof {
            assert forall|k: u32| #[trigger]
                self.glyphs@.contains_key(k) implies self.rect_wf(self.glyphs@[k]) by {
                assert(old(self).rect_wf(old(self).glyphs@[k]));
            }
        }
        // height check
        if h > self.height || self.cursor_y > self.height - h {
            return None;
        }
        let cx = self.cursor_x;
        let cy = self.cursor_y;
        proof {
            lemma_row_major_index(
                self.width as int,
                self.height as int,
                (cx + w - 1) as int,
                (cy + h - 1) as int,
            );
        }
        // blit
        let bl = bitmap.len();
        let ghost pre = self.pixels@;
        let mut yy: u32 = 0;
        while yy < h
            invariant
                self.width == old(self).width,
                self.height == old(self).height,
                cx + w <= self.width,
                cy + h <= self.height,
                w >= 1,
                h >= 1,
                self.width * self.height <= usize::MAX,
                self.pixels@.len() == self.width * self.height,
                bitmap@.len() == w * h,
                yy <= h,
                forall|y2: int, xx: int|
                    0 <= y2 < yy && 0 <= xx < w ==> self.pixels@[#[trigger] ((cy + y2) * self.width
                        + cx + xx)] == bitmap@[y2 * w + xx],
                forall|i: int|
                    0 <= i < self.pixels@.len() && !spec_in_blit(
                        i,
                        cx as int,
                        cy as int,
                        w as int,
                        yy as int,
                        self.width as int,
                    ) ==> self.pixels@[i] == pre[i],
                self.glyphs == old(self).glyphs,
                self.cursor_x == cx,
                self.cursor_y == cy,
                self.dirty == old(self).dirty,
                old(self).wf(),
                !old(self).glyphs@.contains_key(c as u32),
                bl == bitmap@.len(),
                cx == (if old(self).cursor_x + w > old(self).width {
                    0int
                } else {
                    old(self).cursor_x as int
                }),
                cy == (if old(self).cursor_x + w > old(self).width {
                    if old(self).cursor_y + old(self).row_height <= u32::MAX {
                        old(self).cursor_y + old(self).row_height
                    } else {
                        u32::MAX as int
                    }
                } else {
                    old(self).cursor_y as int
                }),
                self.row_height == (if old(self).cursor_x + w > old(self).width {
                    0int
                } else {
                    old(self).row_height as int
                }),
            decreases h - yy,
        {
            let mut xx: u32 = 0;
            proof {
                lemma_row_major_index(
                    self.width as int,
                    self.height as int,
                    cx as int,
                    (cy + yy) as int,
                );
                lemma_row_major_index(w as int, h as int, 0, yy as int);
            }
            let dst_row = ((cy + yy) as usize) * (self.width as usize) + (cx as usize);
            let src_row = (yy as usize) * (w as usize);
            while xx < w
                invariant
                    self.width == old(self).width,
                    self.height == old(self).height,
                    cx + w <= self.width,
                    cy + h <= self.height,
                    w >= 1,
                    h >= 1,
                    yy < h,
                    self.width * self.height <= usize::MAX,
                    self.pixels@.len() == self.width * self.height,
                    bitmap@.len() == w * h,
                    dst_row == (cy + yy) * self.width + cx,
                    src_row == yy * w,
                    dst_row + w <= self.pixels@.len(),
                    src_row + w <= bitmap@.len(),
                    xx <= w,
                    forall|y2: int, x2: int|
                        0 <= y2 < yy && 0 <= x2 < w ==> self.pixels@[#[trigger] ((cy + y2)
                            * self.width + cx + x2)] == bitmap@[y2 * w + x2],
                    forall|x2: int|
                        0 <= x2 < xx ==> self.pixels@[#[trigger] (dst_row + x2)] == bitmap@[src_row
                            + x2],
                    forall|i: int|
                        0 <= i < self.pixels@.len() && !spec_in_blit(
                            i,
                            cx as int,
                            cy as int,
                            w as int,
                            yy as int,
                            self.width as int,
                        ) && !(dst_row <= i < dst_row + xx) ==> self.pixels@[i] == pre[i],
                    self.glyphs == old(self).glyphs,
                    self.cursor_x == cx,
                    self.cursor_y == cy,
                    self.dirty == old(self).dirty,
                    old(self).wf(),
                    !old(self).glyphs@.contains_key(c as u32),
                    bl == bitmap@.len(),
                    cx == (if old(self).cursor_x + w > old(self).width {
                        0int
                    } else {
                        old(self).cursor_x as int
                    }),
                    cy == (if old(self).cursor_x + w > old(self).width {
                        if old(self).cursor_y + old(self).row_height <= u32::MAX {
                            old(self).cursor_y + old(self).row_height
                        } else {
                            u32::MAX as int
                        }
                    } else {
                        old(self).cursor_y as int
                    }),
                    self.row_height == (if old(self).cursor_x + w > old(self).width {
                        0int
                    } else {
                        old(self).row_height as int
                    }),
                decreases w - xx,
            {
                proof {
                    lemma_row_major_index(w as int, h as int, xx as int, yy as int);
                }
                let ghost prepix = self.pixels@;
                let v = bitmap[src_row + (xx as usize)];
                self.pixels[dst_row + (xx as usize)] = v;
                proof {
                    assert forall|y2: int, x2: int|
                        0 <= y2 < yy && 0 <= x2 < w implies self.pixels@[#[trigger] ((cy + y2)
                        * self.width + cx + x2)] == bitmap@[y2 * w + x2] by {
                        assert((cy + y2) * self.width + self.width <= (cy + yy)
                            * self.width) by (nonlinear_arith)
                            requires
                                0 <= y2 < yy,
                                self.width >= 1,
                                0 <= cy,
                        ;
                        assert((cy + y2) * self.width + cx + x2 < dst_row);
                        assert(self.pixels@[(cy + y2) * self.width + cx + x2] == prepix[(cy + y2)
                            * self.width + cx + x2]);
                    }
                }
                xx = xx + 1;
            }
            yy = yy + 1;
            proof {
                assert forall|y2: int, x2: int|
                    0 <= y2 < yy && 0 <= x2 < w implies self.pixels@[#[trigger] ((cy + y2)
                        * self.width + cx + x2)] == bitmap@[y2 * w + x2] by {
                    if y2 == yy - 1 {
                        assert((cy + y2) * self.width + cx + x2 == dst_row + x2);
                        assert(y2 * w + x2 == src_row + x2);
                    }
                }
                assert forall|i: int|
                    0 <= i < self.pixels@.len() && !spec_in_blit(
                        i,
                        cx as int,
                        cy as int,
                        w as int,
                        yy as int,
                        self.width as int,
                    ) implies self.pixels@[i] == pre[i] by {
                    assert(!(dst_row <= i < dst_row + w)) by {
                        if dst_row <= i < dst_row + w {
                            assert((cy + (yy - 1)) * self.width + cx <= i < (cy + (yy - 1))
                                * self.width + cx + w);
                            assert(spec_in_blit(
                                i,
                                cx as int,
                                cy as int,
                                w as int,
                                yy as int,
                                self.width as int,
                            ));
                        }
                    }
                    assert(!spec_in_blit(
                        i,
                        cx as int,
                        cy as int,
                        w as int,
                        (yy - 1) as int,
                        self.width as int,
                    )) by {
                        if spec_in_blit(
                            i,
                            cx as int,
                            cy as int,
                            w as int,
                            (yy - 1) as int,
                            self.width as int,
                        ) {
                            let y3 = choose|y3: int|
                                0 <= y3 < yy - 1 && #[trigger] ((cy + y3) * self.width) + cx <= i
                                    < (cy + y3) * self.width + cx + w;
                            assert(spec_in_blit(
                                i,
                                cx as int,
                                cy as int,
                                w as int,
                                yy as int,
                                self.width as int,
                            ));
                        }
                    }
                }
            }
        }
        let info = GlyphInfo { x: cx, y: cy, w, h, xmin, ymin, advance };
        self.glyphs.insert(c as u32, info);
        self.cursor_x = cx + w + 1;
        let nh = h + 1;
        if nh > self.row_height {
            self.row_height = nh;
        }
        self.dirty = true;
        proof {
            assert forall|k: u32| #[trigger]
                self.glyphs@.contains_key(k) implies self.rect_wf(self.glyphs@[k]) by {
                if k != c as u32 {
                    assert(old(self).rect_wf(old(self).glyphs@[k]));
                }
            }
            assert forall|k1: u32, k2: u32|
                self.glyphs@.contains_key(k1) && self.glyphs@.contains_key(k2) && k1
                    != k2 implies (#[trigger] self.glyphs@[k1]).disjoint_from(
            #[trigger] self.glyphs@[k2]) by {
                if k1 == c as u32 {
                    assert(old(self).rect_wf(old(self).glyphs@[k2]));
                } else if k2 == c as u32 {
                    assert(old(self).rect_wf(old(self).glyphs@[k1]));
                }
            }
        }
        Some(info)
    }
}

} // verus!
