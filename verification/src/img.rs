//! Rasters: cropping, nearest-neighbor resizing, compositing, and PNG
//! encoding and decoding.
//!
//! A raster is a rectangle of RGBA pixels held in row-major order.  All the
//! raster arithmetic of the pipeline — cropping the face region out of a
//! texture, laying the helm region over it, and scaling to a requested size —
//! is done here on plain values.  Only the PNG container work, turning raw
//! channel bytes into an encoded image and back, is delegated to the image
//! crate behind the two trusted wrappers at the bottom of this module.
use crate::bytes;
use vstd::arithmetic::div_mod::{lemma_div_is_ordered, lemma_div_of0, lemma_multiply_divide_lt};
use vstd::prelude::*;

verus! {

/// One RGBA pixel.
#[derive(Clone, Copy, PartialEq, Eq, Structural, Debug)]
pub struct Px {
    pub r: u8,
    pub g: u8,
    pub b: u8,
    pub a: u8,
}

/// A rectangle of pixels in row-major order.  Dimensions are bounded well
/// above every size this pipeline produces, so that index arithmetic stays
/// within machine integers.
#[derive(Clone, Debug)]
pub struct Raster {
    pub width: usize,
    pub height: usize,
    pub px: Vec<Px>,
}

impl Raster {
    /// Well-formed: positive bounded dimensions and exactly one pixel per
    /// grid cell.
    pub open spec fn wf(self) -> bool {
        &&& 1 <= self.width <= 4096
        &&& 1 <= self.height <= 4096
        &&& self.px@.len() == self.width * self.height
    }

    /// The pixel of grid cell `(x, y)`.
    pub open spec fn pix(self, x: int, y: int) -> Px {
        self.px@[y * self.width + x]
    }

    /// Read one pixel.
    pub fn get_pixel(&self, x: usize, y: usize) -> (p: Px)
        requires
            self.wf(),
            x < self.width,
            y < self.height,
        ensures
            p == self.pix(x as int, y as int),
    {
        proof {
            lemma_grid_index(x as int, y as int, self.width as int, self.height as int);
        }
        self.px[y * self.width + x]
    }
}

/// Row-major index arithmetic: a cell of the grid lies inside the pixel
/// buffer, and the buffer itself is small.
pub proof fn lemma_grid_index(x: int, y: int, w: int, h: int)
    requires
        0 <= x < w,
        0 <= y < h,
        w <= 4096,
        h <= 4096,
    ensures
        0 <= y * w + x,
        y * w + x < w * h,
        w * h == h * w,
        w * h <= 16777216,
{
    assert(0 <= y * w + x && y * w + x < w * h && w * h == h * w && w * h <= 16777216)
        by (nonlinear_arith)
        requires
            0 <= x < w,
            0 <= y < h,
            w <= 4096,
            h <= 4096,
    ;
}

/// A cell of the first `rows` rows lies inside a buffer of `rows` full rows.
pub proof fn lemma_prefix_index(x: int, y: int, w: int, rows: int)
    requires
        0 <= x < w,
        0 <= y < rows,
    ensures
        0 <= y * w + x,
        y * w + x < rows * w,
{
    assert(0 <= y * w + x && y * w + x < rows * w) by (nonlinear_arith)
        requires
            0 <= x < w,
            0 <= y < rows,
    ;
}

/// One more full row extends a row-major buffer by `w` cells.
pub proof fn lemma_row_step(y: int, w: int)
    ensures
        (y + 1) * w == y * w + w,
{
    assert((y + 1) * w == y * w + w) by (nonlinear_arith);
}

/// The source column or row a nearest-neighbor resize samples for a target
/// one: it lies inside the source and the products stay small.
pub proof fn lemma_scale_index(x: int, s: int, w: int)
    requires
        0 <= x < s,
        s <= 512,
        1 <= w <= 4096,
    ensures
        0 <= x * w <= 2097152,
        0 <= (x * w) / s < w,
{
    assert(0 <= x * w && x * w <= 2097152 && x * w < s * w) by (nonlinear_arith)
        requires
            0 <= x < s,
            s <= 512,
            1 <= w <= 4096,
    ;
    lemma_multiply_divide_lt(x * w, s, w);
    lemma_div_of0(s);
    lemma_div_is_ordered(0, x * w, s);
}

/// Crop a `width` by `height` region whose top-left corner sits at
/// `(offset_x, offset_y)`.
pub fn crop(image: &Raster, offset_x: usize, offset_y: usize, height: usize, width: usize) -> (r:
    Raster)
    requires
        image.wf(),
        1 <= width <= 4096,
        1 <= height <= 4096,
        offset_x + width <= image.width,
        offset_y + height <= image.height,
    ensures
        r.wf(),
        r.width == width,
        r.height == height,
        forall|x: int, y: int|
            0 <= x < width && 0 <= y < height ==> #[trigger] r.pix(x, y) == image.pix(
                offset_x + x,
                offset_y + y,
            ),
{
    let mut px: Vec<Px> = Vec::new();
    let mut y: usize = 0;
    while y < height
        invariant
            image.wf(),
            1 <= width <= 4096,
            1 <= height <= 4096,
            offset_x + width <= image.width,
            offset_y + height <= image.height,
            y <= height,
            px@.len() == y * width,
            forall|yy: int, xx: int|
                0 <= yy < y && 0 <= xx < width ==> #[trigger] px@[yy * width + xx] == image.pix(
                    offset_x + xx,
                    offset_y + yy,
                ),
        decreases height - y,
    {
        let mut x: usize = 0;
        while x < width
            invariant
                image.wf(),
                1 <= width <= 4096,
                1 <= height <= 4096,
                offset_x + width <= image.width,
                offset_y + height <= image.height,
                y < height,
                x <= width,
                px@.len() == y * width + x,
                forall|yy: int, xx: int|
                    0 <= yy < y && 0 <= xx < width ==> #[trigger] px@[yy * width + xx] == image.pix(
                        offset_x + xx,
                        offset_y + yy,
                    ),
                forall|xx: int|
                    0 <= xx < x ==> #[trigger] px@[y * width + xx] == image.pix(
                        offset_x + xx,
                        offset_y + y,
                    ),
            decreases width - x,
        {
            proof {
                lemma_grid_index(x as int, y as int, width as int, height as int);
            }
            let p = image.get_pixel(offset_x + x, offset_y + y);
            px.push(p);
            proof {
                assert forall|yy: int, xx: int|
                    0 <= yy < y && 0 <= xx < width implies #[trigger] px@[yy * width + xx]
                    == image.pix(offset_x + xx, offset_y + yy) by {
                    lemma_prefix_index(xx, yy, width as int, y as int);
                }
            }
            x += 1;
        }
        proof {
            lemma_row_step(y as int, width as int);
            assert forall|yy: int, xx: int|
                0 <= yy < y + 1 && 0 <= xx < width implies #[trigger] px@[yy * width + xx]
                == image.pix(offset_x + xx, offset_y + yy) by {
                lemma_prefix_index(xx, yy, width as int, y + 1);
                if yy < y {
                    assert(px@[yy * width + xx] == image.pix(offset_x + xx, offset_y + yy));
                } else {
                    assert(px@[y as int * width + xx] == image.pix(offset_x + xx, offset_y + y));
                }
            }
        }
        y += 1;
    }
    proof {
        lemma_grid_index(0, 0, width as int, height as int);
        assert(px@.len() == height * width);
    }
    let r = Raster { width, height, px };
    proof {
        assert forall|x: int, y: int| 0 <= x < width && 0 <= y < height implies #[trigger] r.pix(
            x,
            y,
        ) == image.pix(offset_x + x, offset_y + y) by {
            lemma_prefix_index(x, y, width as int, height as int);
            assert(r.px@[y * width + x] == image.pix(offset_x + x, offset_y + y));
        }
    }
    r
}

/// Scale a raster to a `size` by `size` square with nearest-neighbor
/// sampling: no smoothing, every target pixel is a source pixel.
pub fn resize(image: &Raster, size: usize) -> (r: Raster)
    requires
        image.wf(),
        1 <= size <= 512,
    ensures
        r.wf(),
        r.width == size,
        r.height == size,
        forall|x: int, y: int|
            0 <= x < size && 0 <= y < size ==> #[trigger] r.pix(x, y) == image.pix(
                (x * image.width) / (size as int),
                (y * image.height) / (size as int),
            ),
{
    let mut px: Vec<Px> = Vec::new();
    let mut y: usize = 0;
    while y < size
        invariant
            image.wf(),
            1 <= size <= 512,
            y <= size,
            px@.len() == y * size,
            forall|yy: int, xx: int|
                0 <= yy < y && 0 <= xx < size ==> #[trigger] px@[yy * size + xx] == image.pix(
                    (xx * image.width) / (size as int),
                    (yy * image.height) / (size as int),
                ),
        decreases size - y,
    {
        let mut x: usize = 0;
        proof {
            lemma_scale_index(y as int, size as int, image.height as int);
        }
        let sy: usize = (y * image.height) / size;
        while x < size
            invariant
                image.wf(),
                1 <= size <= 512,
                y < size,
                x <= size,
                sy == (y * image.height) / (size as int),
                sy < image.height,
                px@.len() == y * size + x,
                forall|yy: int, xx: int|
                    0 <= yy < y && 0 <= xx < size ==> #[trigger] px@[yy * size + xx] == image.pix(
                        (xx * image.width) / (size as int),
                        (yy * image.height) / (size as int),
                    ),
                forall|xx: int|
                    0 <= xx < x ==> #[trigger] px@[y * size + xx] == image.pix(
                        (xx * image.width) / (size as int),
                        (y * image.height) / (size as int),
                    ),
            decreases size - x,
        {
            proof {
                lemma_grid_index(x as int, y as int, size as int, size as int);
                lemma_scale_index(x as int, size as int, image.width as int);
            }
            let sx: usize = (x * image.width) / size;
            let p = image.get_pixel(sx, sy);
            px.push(p);
            proof {
                assert forall|yy: int, xx: int|
                    0 <= yy < y && 0 <= xx < size implies #[trigger] px@[yy * size + xx]
                    == image.pix(
                    (xx * image.width) / (size as int),
                    (yy * image.height) / (size as int),
                ) by {
                    lemma_prefix_index(xx, yy, size as int, y as int);
                }
            }
            x += 1;
        }
        proof {
            lemma_row_step(y as int, size as int);
            assert forall|yy: int, xx: int|
                0 <= yy < y + 1 && 0 <= xx < size implies #[trigger] px@[yy * size + xx]
                == image.pix(
                (xx * image.width) / (size as int),
                (yy * image.height) / (size as int),
            ) by {
                lemma_prefix_index(xx, yy, size as int, y + 1);
                if yy < y {
                    assert(px@[yy * size + xx] == image.pix(
                        (xx * image.width) / (size as int),
                        (yy * image.height) / (size as int),
                    ));
                } else {
                    assert(px@[y as int * size + xx] == image.pix(
                        (xx * image.width) / (size as int),
                        (y as int * image.height) / (size as int),
                    ));
                }
            }
        }
        y += 1;
    }
    proof {
        lemma_grid_index(0, 0, size as int, size as int);
        assert(px@.len() == size * size);
    }
    let r = Raster { width: size, height: size, px };
    proof {
        assert forall|x: int, y: int| 0 <= x < size && 0 <= y < size implies #[trigger] r.pix(x, y)
            == image.pix((x * image.width) / (size as int), (y * image.height) / (size as int)) by {
            lemma_prefix_index(x, y, size as int, size as int);
            assert(r.px@[y * size + x] == image.pix(
                (x * image.width) / (size as int),
                (y * image.height) / (size as int),
            ));
        }
    }
    r
}

/// Resizing to the same square size twice changes nothing after the first
/// pass: nearest-neighbor sampling from a square of the target size is the
/// identity, so resizing is idempotent at any one size, and the result is
/// always square.
pub proof fn lemma_resize_idempotent(r1: Raster, r2: Raster, image: Raster, size: int)
    requires
        image.wf(),
        1 <= size <= 512,
        r1.wf(),
        r1.width == size,
        r1.height == size,
        forall|x: int, y: int|
            0 <= x < size && 0 <= y < size ==> #[trigger] r1.pix(x, y) == image.pix(
                (x * image.width) / size,
                (y * image.height) / size,
            ),
        r2.wf(),
        r2.width == size,
        r2.height == size,
        forall|x: int, y: int|
            0 <= x < size && 0 <= y < size ==> #[trigger] r2.pix(x, y) == r1.pix(
                (x * size) / size,
                (y * size) / size,
            ),
    ensures
        r2.px@ == r1.px@,
        r2.width == r2.height,
{
    assert forall|i: int| 0 <= i < r2.px@.len() implies r2.px@[i] == r1.px@[i] by {
        let y = i / size;
        let x = i % size;
        vstd::arithmetic::div_mod::lemma_fundamental_div_mod(i, size);
        vstd::arithmetic::div_mod::lemma_mod_bound(i, size);
        assert(0 <= x < size);
        assert(i < size * size) by (nonlinear_arith)
            requires
                i < r2.px@.len(),
                r2.px@.len() == size * size,
        ;
        assert(0 <= y < size) by (nonlinear_arith)
            requires
                i == size * y + x,
                0 <= x < size,
                0 <= i < size * size,
        ;
        assert((x * size) / size == x && (y * size) / size == y) by {
            vstd::arithmetic::div_mod::lemma_div_multiples_vanish(x, size);
            vstd::arithmetic::div_mod::lemma_div_multiples_vanish(y, size);
            assert(x * size == size * x) by (nonlinear_arith);
            assert(y * size == size * y) by (nonlinear_arith);
        }
        assert(r2.pix(x, y) == r1.pix(x, y));
        assert(i == y * size + x) by (nonlinear_arith)
            requires
                i == size * y + x,
        ;
    }
    assert(r2.px@ =~= r1.px@);
}

/// How one overlay pixel lands on a base pixel: the overlay replaces the
/// base wherever the overlay's alpha is non-zero, and leaves it wherever the
/// alpha is zero.  No partial blending is applied.
pub open spec fn overlay_pix(base: Px, top: Px) -> Px {
    if top.a != 0 {
        top
    } else {
        base
    }
}

/// Lay `top` over `base` at the origin.  Both rasters must have the same
/// dimensions; every base pixel is replaced where the overlay is non-
/// transparent.
pub fn overlay(base: &Raster, top: &Raster) -> (r: Raster)
    requires
        base.wf(),
        top.wf(),
        base.width == top.width,
        base.height == top.height,
    ensures
        r.wf(),
        r.width == base.width,
        r.height == base.height,
        r.px@.len() == base.px@.len(),
        forall|i: int|
            0 <= i < r.px@.len() ==> #[trigger] r.px@[i] == overlay_pix(base.px@[i], top.px@[i]),
{
    let n = base.px.len();
    let mut merged: Vec<Px> = Vec::new();
    let mut i: usize = 0;
    while i < n
        invariant
            base.wf(),
            top.wf(),
            base.width == top.width,
            base.height == top.height,
            n == base.px@.len(),
            top.px@.len() == n,
            i <= n,
            merged@.len() == i,
            forall|k: int|
                0 <= k < i ==> #[trigger] merged@[k] == overlay_pix(base.px@[k], top.px@[k]),
        decreases n - i,
    {
        let t = top.px[i];
        let b = base.px[i];
        if t.a != 0 {
            merged.push(t);
        } else {
            merged.push(b);
        }
        i += 1;
    }
    Raster { width: base.width, height: base.height, px: merged }
}

/// The face region of a skin texture: the 8-by-8 square at offset (8, 8).
pub open spec fn face_pix(t: Raster, x: int, y: int) -> Px {
    t.pix(8 + x, 8 + y)
}

/// The helm overlay region of a skin texture: the 8-by-8 square at offset
/// (40, 8).
pub open spec fn helm_pix(t: Raster, x: int, y: int) -> Px {
    t.pix(40 + x, 8 + y)
}

/// The pixel the composed avatar carries at `(x, y)`: the face pixel,
/// covered by the helm pixel where the helm is included and non-transparent.
pub open spec fn compose_pix(t: Raster, include_helm: bool, x: int, y: int) -> Px {
    if include_helm {
        overlay_pix(face_pix(t, x, y), helm_pix(t, x, y))
    } else {
        face_pix(t, x, y)
    }
}

/// Some helm pixel is composited (non-zero alpha) yet not fully opaque, so
/// an avatar composed with the helm must keep its alpha channel.
pub open spec fn helm_retains_alpha(t: Raster) -> bool {
    exists|x: int, y: int|
        0 <= x < 8 && 0 <= y < 8 && (#[trigger] helm_pix(t, x, y)).a != 0 && helm_pix(t, x, y).a
            != 255
}

/// A composed base avatar, tagged with the color model its encoding must
/// use: RGBA only when the composited helm leaves partial transparency,
/// RGB otherwise.
pub struct AvatarRaster {
    pub raster: Raster,
    pub rgba: bool,
}

/// Crop the face region out of a 64-by-64 texture and, when asked, lay the
/// helm region over it.
pub fn compose(texture: &Raster, include_helm: bool) -> (r: AvatarRaster)
    requires
        texture.wf(),
        texture.width == 64,
        texture.height == 64,
    ensures
        r.raster.wf(),
        r.raster.width == 8,
        r.raster.height == 8,
        forall|x: int, y: int|
            0 <= x < 8 && 0 <= y < 8 ==> #[trigger] r.raster.pix(x, y) == compose_pix(
                *texture,
                include_helm,
                x,
                y,
            ),
        r.rgba == (include_helm && helm_retains_alpha(*texture)),
{
    let face = crop(texture, 8, 8, 8, 8);
    if !include_helm {
        return AvatarRaster { raster: face, rgba: false };
    }
    let helm = crop(texture, 40, 8, 8, 8);
    let mut nonopaque = false;
    let mut y: usize = 0;
    while y < 8
        invariant
            texture.wf(),
            texture.width == 64,
            texture.height == 64,
            helm.wf(),
            helm.width == 8,
            helm.height == 8,
            forall|xx: int, yy: int|
                0 <= xx < 8 && 0 <= yy < 8 ==> #[trigger] helm.pix(xx, yy) == helm_pix(
                    *texture,
                    xx,
                    yy,
                ),
            y <= 8,
            nonopaque ==> helm_retains_alpha(*texture),
            !nonopaque ==> forall|xx: int, yy: int|
                0 <= xx < 8 && 0 <= yy < y ==> !((#[trigger] helm_pix(*texture, xx, yy)).a != 0
                    && helm_pix(*texture, xx, yy).a != 255),
        decreases 8 - y,
    {
        let mut x: usize = 0;
        while x < 8
            invariant
                texture.wf(),
                texture.width == 64,
                texture.height == 64,
                helm.wf(),
                helm.width == 8,
                helm.height == 8,
                forall|xx: int, yy: int|
                    0 <= xx < 8 && 0 <= yy < 8 ==> #[trigger] helm.pix(xx, yy) == helm_pix(
                        *texture,
                        xx,
                        yy,
                    ),
                y < 8,
                x <= 8,
                nonopaque ==> helm_retains_alpha(*texture),
                !nonopaque ==> forall|xx: int, yy: int|
                    0 <= xx < 8 && 0 <= yy < y ==> !((#[trigger] helm_pix(*texture, xx, yy)).a != 0
                        && helm_pix(*texture, xx, yy).a != 255),
                !nonopaque ==> forall|xx: int|
                    0 <= xx < x ==> !((#[trigger] helm_pix(*texture, xx, y as int)).a != 0
                        && helm_pix(*texture, xx, y as int).a != 255),
            decreases 8 - x,
        {
            let p = helm.get_pixel(x, y);
            if p.a != 0 && p.a != 255 {
                proof {
                    assert((helm_pix(*texture, x as int, y as int)).a != 0 && helm_pix(
                        *texture,
                        x as int,
                        y as int,
                    ).a != 255);
                }
                nonopaque = true;
            }
            x += 1;
        }
        y += 1;
    }
    let merged = overlay(&face, &helm);
    proof {
        if !nonopaque {
            assert(!helm_retains_alpha(*texture));
        }
        assert forall|x: int, y: int| 0 <= x < 8 && 0 <= y < 8 implies #[trigger] merged.pix(x, y)
            == compose_pix(*texture, true, x, y) by {
            let i = y * 8 + x;
            assert(0 <= i < 64);
            assert(merged.px@[i] == overlay_pix(face.px@[i], helm.px@[i]));
            assert(face.pix(x, y) == face_pix(*texture, x, y));
            assert(helm.pix(x, y) == helm_pix(*texture, x, y));
        }
    }
    AvatarRaster { raster: merged, rgba: nonopaque }
}

/// Composing with a helm region that is transparent everywhere yields a
/// raster pixel-identical to composing without the helm, in the RGB color
/// model either way.
pub proof fn lemma_transparent_helm_is_no_helm(
    t: Raster,
    with_helm: AvatarRaster,
    without: AvatarRaster,
)
    requires
        t.wf(),
        t.width == 64,
        t.height == 64,
        forall|x: int, y: int| 0 <= x < 8 && 0 <= y < 8 ==> (#[trigger] helm_pix(t, x, y)).a == 0,
        with_helm.raster.wf(),
        with_helm.raster.width == 8,
        with_helm.raster.height == 8,
        forall|x: int, y: int|
            0 <= x < 8 && 0 <= y < 8 ==> #[trigger] with_helm.raster.pix(x, y) == compose_pix(
                t,
                true,
                x,
                y,
            ),
        with_helm.rgba == helm_retains_alpha(t),
        without.raster.wf(),
        without.raster.width == 8,
        without.raster.height == 8,
        forall|x: int, y: int|
            0 <= x < 8 && 0 <= y < 8 ==> #[trigger] without.raster.pix(x, y) == compose_pix(
                t,
                false,
                x,
                y,
            ),
        without.rgba == false,
    ensures
        with_helm.raster.px@ == without.raster.px@,
        with_helm.rgba == without.rgba,
{
    assert forall|i: int| 0 <= i < with_helm.raster.px@.len() implies with_helm.raster.px@[i]
        == without.raster.px@[i] by {
        let y = i / 8;
        let x = i % 8;
        assert(0 <= x < 8 && 0 <= y < 8);
        assert(i == y * 8 + x);
        assert(with_helm.raster.pix(x, y) == compose_pix(t, true, x, y));
        assert(without.raster.pix(x, y) == compose_pix(t, false, x, y));
        assert(helm_pix(t, x, y).a == 0);
    }
    assert(with_helm.raster.px@ =~= without.raster.px@);
    if helm_retains_alpha(t) {
        let (x, y) = choose|x: int, y: int|
            0 <= x < 8 && 0 <= y < 8 && (#[trigger] helm_pix(t, x, y)).a != 0 && helm_pix(
                t,
                x,
                y,
            ).a != 255;
        assert(helm_pix(t, x, y).a == 0);
        assert(false);
    }
}

/// The RGB channel bytes of a pixel run, three per pixel in order.
pub open spec fn rgb_bytes_spec(px: Seq<Px>) -> Seq<u8>
    decreases px.len(),
{
    if px.len() == 0 {
        Seq::empty()
    } else {
        rgb_bytes_spec(px.drop_last()) + seq![px.last().r, px.last().g, px.last().b]
    }
}

/// The RGBA channel bytes of a pixel run, four per pixel in order.
pub open spec fn rgba_bytes_spec(px: Seq<Px>) -> Seq<u8>
    decreases px.len(),
{
    if px.len() == 0 {
        Seq::empty()
    } else {
        rgba_bytes_spec(px.drop_last()) + seq![px.last().r, px.last().g, px.last().b, px.last().a]
    }
}

pub proof fn lemma_rgb_bytes_len(px: Seq<Px>)
    ensures
        rgb_bytes_spec(px).len() == 3 * px.len(),
    decreases px.len(),
{
    if px.len() > 0 {
        lemma_rgb_bytes_len(px.drop_last());
    }
}

pub proof fn lemma_rgba_bytes_len(px: Seq<Px>)
    ensures
        rgba_bytes_spec(px).len() == 4 * px.len(),
    decreases px.len(),
{
    if px.len() > 0 {
        lemma_rgba_bytes_len(px.drop_last());
    }
}

/// The bytes of pixel `k` in an RGB flattening are that pixel's color
/// channels.
pub proof fn lemma_rgb_bytes_index(px: Seq<Px>, k: int)
    requires
        0 <= k < px.len(),
    ensures
        rgb_bytes_spec(px)[3 * k] == px[k].r,
        rgb_bytes_spec(px)[3 * k + 1] == px[k].g,
        rgb_bytes_spec(px)[3 * k + 2] == px[k].b,
    decreases px.len(),
{
    lemma_rgb_bytes_len(px);
    lemma_rgb_bytes_len(px.drop_last());
    if k == px.len() - 1 {
        assert(rgb_bytes_spec(px)[3 * k] == px.last().r);
        assert(rgb_bytes_spec(px)[3 * k + 1] == px.last().g);
        assert(rgb_bytes_spec(px)[3 * k + 2] == px.last().b);
    } else {
        lemma_rgb_bytes_index(px.drop_last(), k);
        assert(rgb_bytes_spec(px)[3 * k] == rgb_bytes_spec(px.drop_last())[3 * k]);
        assert(rgb_bytes_spec(px)[3 * k + 1] == rgb_bytes_spec(px.drop_last())[3 * k + 1]);
        assert(rgb_bytes_spec(px)[3 * k + 2] == rgb_bytes_spec(px.drop_last())[3 * k + 2]);
        assert(px.drop_last()[k] == px[k]);
    }
}

/// The bytes of pixel `k` in an RGBA flattening denote that pixel exactly.
pub proof fn lemma_rgba_bytes_index(px: Seq<Px>, k: int)
    requires
        0 <= k < px.len(),
    ensures
        px_from_rgba(rgba_bytes_spec(px), k) == px[k],
    decreases px.len(),
{
    lemma_rgba_bytes_len(px);
    lemma_rgba_bytes_len(px.drop_last());
    if k == px.len() - 1 {
        assert(rgba_bytes_spec(px)[4 * k] == px.last().r);
        assert(rgba_bytes_spec(px)[4 * k + 1] == px.last().g);
        assert(rgba_bytes_spec(px)[4 * k + 2] == px.last().b);
        assert(rgba_bytes_spec(px)[4 * k + 3] == px.last().a);
    } else {
        lemma_rgba_bytes_index(px.drop_last(), k);
        assert(rgba_bytes_spec(px)[4 * k] == rgba_bytes_spec(px.drop_last())[4 * k]);
        assert(rgba_bytes_spec(px)[4 * k + 1] == rgba_bytes_spec(px.drop_last())[4 * k + 1]);
        assert(rgba_bytes_spec(px)[4 * k + 2] == rgba_bytes_spec(px.drop_last())[4 * k + 2]);
        assert(rgba_bytes_spec(px)[4 * k + 3] == rgba_bytes_spec(px.drop_last())[4 * k + 3]);
        assert(px.drop_last()[k] == px[k]);
    }
}

/// Re-expanding an RGB flattening to RGBA re-creates pixel `k` with its
/// alpha channel saturated.
pub proof fn lemma_rgb_expansion_index(px: Seq<Px>, k: int)
    requires
        0 <= k < px.len(),
    ensures
        px_from_rgba(rgba_expansion(rgb_bytes_spec(px), false), k) == saturate_alpha(px[k]),
{
    lemma_rgb_bytes_len(px);
    lemma_rgb_bytes_index(px, k);
    let d = rgb_bytes_spec(px);
    let e = rgba_expansion(d, false);
    vstd::arithmetic::div_mod::lemma_fundamental_div_mod_converse(
        3 * px.len() as int,
        3,
        px.len() as int,
        0,
    );
    vstd::arithmetic::div_mod::lemma_fundamental_div_mod_converse(4 * k, 4, k, 0);
    vstd::arithmetic::div_mod::lemma_fundamental_div_mod_converse(4 * k + 1, 4, k, 1);
    vstd::arithmetic::div_mod::lemma_fundamental_div_mod_converse(4 * k + 2, 4, k, 2);
    vstd::arithmetic::div_mod::lemma_fundamental_div_mod_converse(4 * k + 3, 4, k, 3);
    assert(e[4 * k] == d[3 * k]);
    assert(e[4 * k + 1] == d[3 * k + 1]);
    assert(e[4 * k + 2] == d[3 * k + 2]);
    assert(e[4 * k + 3] == 255u8);
}

/// Losslessness at the pixel level: the RGBA bytes an encoding decodes to
/// denote exactly the raster's pixels, with the alpha channel saturated
/// where the RGB color model dropped it.
pub proof fn lemma_encoding_pixels(image: Raster, rgba: bool, k: int)
    requires
        image.wf(),
        0 <= k < image.px@.len(),
    ensures
        px_from_rgba(
            rgba_expansion(
                if rgba {
                    rgba_bytes_spec(image.px@)
                } else {
                    rgb_bytes_spec(image.px@)
                },
                rgba,
            ),
            k,
        ) == (if rgba {
            image.px@[k]
        } else {
            saturate_alpha(image.px@[k])
        }),
{
    if rgba {
        lemma_rgba_bytes_index(image.px@, k);
    } else {
        lemma_rgb_expansion_index(image.px@, k);
    }
}

/// Flatten a raster to RGB bytes, dropping the alpha channel.
pub fn to_rgb_bytes(image: &Raster) -> (out: Vec<u8>)
    requires
        image.wf(),
    ensures
        out@ == rgb_bytes_spec(image.px@),
{
    let n = image.px.len();
    let mut out: Vec<u8> = Vec::new();
    let mut k: usize = 0;
    proof {
        lemma_grid_index(0, 0, image.width as int, image.height as int);
    }
    while k < n
        invariant
            image.wf(),
            n == image.px@.len(),
            n <= 16777216,
            k <= n,
            out@ == rgb_bytes_spec(image.px@.take(k as int)),
        decreases n - k,
    {
        let p = image.px[k];
        out.push(p.r);
        out.push(p.g);
        out.push(p.b);
        proof {
            assert(image.px@.take(k + 1).drop_last() =~= image.px@.take(k as int));
            assert(image.px@.take(k + 1).last() == p);
            assert(out@ =~= rgb_bytes_spec(image.px@.take(k + 1)));
        }
        k += 1;
    }
    proof {
        assert(image.px@.take(n as int) =~= image.px@);
    }
    out
}

/// Flatten a raster to RGBA bytes.
pub fn to_rgba_bytes(image: &Raster) -> (out: Vec<u8>)
    requires
        image.wf(),
    ensures
        out@ == rgba_bytes_spec(image.px@),
{
    let n = image.px.len();
    let mut out: Vec<u8> = Vec::new();
    let mut k: usize = 0;
    proof {
        lemma_grid_index(0, 0, image.width as int, image.height as int);
    }
    while k < n
        invariant
            image.wf(),
            n == image.px@.len(),
            n <= 16777216,
            k <= n,
            out@ == rgba_bytes_spec(image.px@.take(k as int)),
        decreases n - k,
    {
        let p = image.px[k];
        out.push(p.r);
        out.push(p.g);
        out.push(p.b);
        out.push(p.a);
        proof {
            assert(image.px@.take(k + 1).drop_last() =~= image.px@.take(k as int));
            assert(image.px@.take(k + 1).last() == p);
            assert(out@ =~= rgba_bytes_spec(image.px@.take(k + 1)));
        }
        k += 1;
    }
    proof {
        assert(image.px@.take(n as int) =~= image.px@);
    }
    out
}

/// The pixel that four RGBA bytes at position `k` denote.
pub open spec fn px_from_rgba(b: Seq<u8>, k: int) -> Px {
    Px { r: b[4 * k], g: b[4 * k + 1], b: b[4 * k + 2], a: b[4 * k + 3] }
}

/// Rebuild a raster from RGBA channel bytes.
pub fn from_rgba_bytes(width: usize, height: usize, data: &Vec<u8>) -> (r: Raster)
    requires
        1 <= width <= 4096,
        1 <= height <= 4096,
        data@.len() == 4 * (width * height),
    ensures
        r.wf(),
        r.width == width,
        r.height == height,
        forall|k: int| 0 <= k < width * height ==> #[trigger] r.px@[k] == px_from_rgba(data@, k),
{
    proof {
        lemma_grid_index(0, 0, width as int, height as int);
    }
    let n: usize = width * height;
    let mut px: Vec<Px> = Vec::new();
    let mut k: usize = 0;
    while k < n
        invariant
            n == width * height,
            n <= 16777216,
            data@.len() == 4 * n,
            k <= n,
            px@.len() == k,
            forall|m: int| 0 <= m < k ==> #[trigger] px@[m] == px_from_rgba(data@, m),
        decreases n - k,
    {
        let p = Px { r: data[4 * k], g: data[4 * k + 1], b: data[4 * k + 2], a: data[4 * k + 3] };
        px.push(p);
        k += 1;
    }
    Raster { width, height, px }
}

/// A pixel with its alpha channel saturated: what a pixel becomes when it
/// travels through an RGB encoding and is decoded back to RGBA.
pub open spec fn saturate_alpha(p: Px) -> Px {
    Px { r: p.r, g: p.g, b: p.b, a: 255 }
}

/// The RGBA channel bytes that a run of encoded channel bytes stands for:
/// RGBA bytes stand for themselves, and RGB bytes gain an opaque alpha
/// byte after every third byte.
pub open spec fn rgba_expansion(data: Seq<u8>, rgba: bool) -> Seq<u8> {
    if rgba {
        data
    } else {
        Seq::new(
            data.len() / 3 * 4,
            |i: int|
                if i % 4 == 3 {
                    255u8
                } else {
                    data[(i / 4) * 3 + i % 4]
                },
        )
    }
}

/// What the PNG encoder produces from given channel bytes, dimensions and
/// color model.  The output is a function of those arguments alone.
pub uninterp spec fn png_bytes_of(data: Seq<u8>, width: int, height: int, rgba: bool) -> Seq<u8>;

/// What the PNG decoder makes of a byte buffer: nothing when the bytes are
/// not a decodable image, and otherwise the dimensions together with the
/// RGBA channel bytes, four per pixel.  A function of the bytes alone.
pub uninterp spec fn png_decode_of(data: Seq<u8>) -> Option<(int, int, Seq<u8>)>;

/// Relies on the image crate's PNG encoder (`PngEncoder::new_with_quality`
/// with fast compression and no filtering, then
/// `ImageEncoder::write_image`): the encoder writes the 8-byte PNG signature
/// followed by the IHDR chunk built from exactly the given dimensions, bit
/// depth 8 and the given color type, so the output is a function of the
/// arguments alone, and an 8-by-8 RGB encoding begins with the canonical
/// 33-byte prefix of the compact codec.  The writer always continues past
/// that prefix: at least one IDAT chunk and the IEND chunk follow the
/// header, so the output is strictly longer than the prefix.  The pass is
/// lossless: decoding the output gives back the given dimensions and
/// exactly the given channel bytes, re-expanded to RGBA with an opaque
/// alpha byte where the RGB color model dropped it.  Writing to a plain
/// in-memory buffer with matching buffer length and non-zero dimensions
/// cannot fail.
#[verifier::external_body]
fn encode_png_raw(data: &Vec<u8>, width: u32, height: u32, rgba: bool) -> (r: Vec<u8>)
    requires
        1 <= width <= 4096,
        1 <= height <= 4096,
        data@.len() == (if rgba {
            4int
        } else {
            3int
        }) * (width * height),
    ensures
        r@ == png_bytes_of(data@, width as int, height as int, rgba),
        (width == 8 && height == 8 && !rgba) ==> bytes::has_canonical_header(r@),
        r@.len() > bytes::HEADER_LEN,
        png_decode_of(r@) == Some(
            (width as int, height as int, rgba_expansion(data@, rgba)),
        ),
{
    let mut buffer: Vec<u8> = Vec::new();
    let encoder = image::codecs::png::PngEncoder::new_with_quality(
        &mut buffer,
        image::codecs::png::CompressionType::Fast,
        image::codecs::png::FilterType::NoFilter,
    );
    let color = if rgba {
        image::ColorType::Rgba8
    } else {
        image::ColorType::Rgb8
    };
    image::ImageEncoder::write_image(encoder, data.as_slice(), width, height, color).unwrap();
    buffer
}

/// Relies on `image::load_from_memory` and `DynamicImage::to_rgba8`: whether
/// a buffer decodes, and the raster it decodes to, are functions of the
/// buffer alone; the returned RGBA buffer holds four bytes per pixel of a
/// positive-dimension image.
#[verifier::external_body]
fn decode_png_raw(data: &Vec<u8>) -> (r: Option<(u32, u32, Vec<u8>)>)
    ensures
        match r {
            Some(t) => {
                &&& png_decode_of(data@) == Some((t.0 as int, t.1 as int, t.2@))
                &&& t.0 >= 1
                &&& t.1 >= 1
                &&& t.2@.len() == 4 * (t.0 * t.1)
            },
            None => png_decode_of(data@) is None,
        },
{
    let img = match image::load_from_memory(data.as_slice()) {
        Ok(img) => img.to_rgba8(),
        Err(_) => {
            return None;
        },
    };
    let (w, h) = (img.width(), img.height());
    Some((w, h, img.into_raw()))
}

/// The decoded dimensions and RGBA bytes of a buffer that decodes.
pub open spec fn decoded(data: Seq<u8>) -> (int, int, Seq<u8>) {
    png_decode_of(data)->0
}

/// What `encode_png` produces for a raster and color model.
pub open spec fn encoded_spec(r: Raster, rgba: bool) -> Seq<u8> {
    if rgba {
        png_bytes_of(rgba_bytes_spec(r.px@), r.width as int, r.height as int, true)
    } else {
        png_bytes_of(rgb_bytes_spec(r.px@), r.width as int, r.height as int, false)
    }
}

/// Encode a raster as a PNG in the given color model, with the fast,
/// unfiltered settings.  In the RGB model the alpha channel is dropped
/// first.  An 8-by-8 RGB encoding — the base avatar — always begins with
/// the compact codec's canonical prefix, and every encoding is strictly
/// longer than that prefix.  The pass is lossless: the encoding decodes
/// back to the raster's own dimensions and channel bytes, with the alpha
/// channel saturated where the RGB model dropped it.
pub fn encode_png(image: &Raster, rgba: bool) -> (r: Vec<u8>)
    requires
        image.wf(),
    ensures
        r@ == encoded_spec(*image, rgba),
        (image.width == 8 && image.height == 8 && !rgba) ==> bytes::has_canonical_header(r@),
        r@.len() > bytes::HEADER_LEN,
        rgba ==> png_decode_of(r@) == Some(
            (image.width as int, image.height as int, rgba_bytes_spec(image.px@)),
        ),
        !rgba ==> png_decode_of(r@) == Some(
            (
                image.width as int,
                image.height as int,
                rgba_expansion(rgb_bytes_spec(image.px@), false),
            ),
        ),
{
    if rgba {
        let data = to_rgba_bytes(image);
        proof {
            lemma_rgba_bytes_len(image.px@);
        }
        encode_png_raw(&data, image.width as u32, image.height as u32, true)
    } else {
        let data = to_rgb_bytes(image);
        proof {
            lemma_rgb_bytes_len(image.px@);
        }
        encode_png_raw(&data, image.width as u32, image.height as u32, false)
    }
}

/// Decode a PNG byte buffer into a raster.  Returns `None` exactly when the
/// bytes do not decode at all or the decoded dimensions fall outside the
/// bounds a well-formed raster allows.
pub fn load_raster(data: &Vec<u8>) -> (r: Option<Raster>)
    ensures
        r is Some <==> (png_decode_of(data@) is Some && 1 <= decoded(data@).0 <= 4096 && 1
            <= decoded(data@).1 <= 4096),
        r is Some ==> {
            &&& r->0.wf()
            &&& r->0.width == decoded(data@).0
            &&& r->0.height == decoded(data@).1
            &&& forall|k: int|
                0 <= k < r->0.width * r->0.height ==> #[trigger] r->0.px@[k] == px_from_rgba(
                    decoded(data@).2,
                    k,
                )
        },
{
    match decode_png_raw(data) {
        Some((w, h, raw)) => {
            if w <= 4096 && h <= 4096 {
                let r = from_rgba_bytes(w as usize, h as usize, &raw);
                Some(r)
            } else {
                None
            }
        },
        None => None,
    }
}

} // verus!
