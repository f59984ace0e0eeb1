//! RGBA rasters, backed by the `image` crate's `ImageBuffer`.
//!
//! A raster is modelled by its width, its height and its sample bytes in
//! row-major order, four bytes per pixel. The private functions in the first
//! half of this file are the trusted boundary to the `image` crate; the
//! methods of [`Raster`] are verified against their contracts.

use vstd::prelude::*;

verus! {

/// An 8-bit RGBA pixel buffer. Verus does not look inside: what it knows of
/// a raster comes from `raster_size` and `raster_bytes`.
#[verifier::external_body]
pub struct Raster {
    inner: image::RgbaImage,
}

/// The width and height in pixels that the buffer was made with.
pub uninterp spec fn raster_size(img: Raster) -> (nat, nat);

/// The samples that the buffer's container holds, in row-major order.
pub uninterp spec fn raster_bytes(img: Raster) -> Seq<u8>;

/// Index of the first of the four samples of pixel `(x, y)` in a raster of
/// the given width.
pub open spec fn sample_index(width: nat, x: int, y: int) -> int {
    (y * width + x) * 4
}

/// The samples `bytes` with the four samples of `px` written at `at`.
pub open spec fn write_samples(bytes: Seq<u8>, at: int, px: Seq<u8>) -> Seq<u8> {
    bytes.update(at, px[0]).update(at + 1, px[1]).update(at + 2, px[2]).update(at + 3, px[3])
}

/// `ImageBuffer::new`: a buffer of the given dimensions whose container holds
/// exactly `4 * width * height` zero samples. The call panics when that
/// length cannot be allocated, which the precondition rules out.
#[verifier::external_body]
fn raster_new(width: u32, height: u32) -> (img: Raster)
    requires
        4 * width * height <= isize::MAX,
    ensures
        raster_size(img) == (width as nat, height as nat),
        raster_bytes(img) == Seq::new((4 * width * height) as nat, |i: int| 0u8),
{
    Raster { inner: image::ImageBuffer::new(width, height) }
}

/// `ImageBuffer::from_raw`: a buffer over the given container, which is kept
/// as it is, if the container holds at least `4 * width * height` samples;
/// `None` otherwise.
#[verifier::external_body]
fn raster_from_raw(width: u32, height: u32, bytes: Vec<u8>) -> (img: Option<Raster>)
    ensures
        img.is_some() <==> 4 * width * height <= bytes@.len(),
        img matches Some(r) ==> raster_size(r) == (width as nat, height as nat) && raster_bytes(r)
            == bytes@,
{
    match image::ImageBuffer::from_raw(width, height, bytes) {
        Some(inner) => Some(Raster { inner }),
        None => None,
    }
}

/// `ImageBuffer::dimensions`: the width and height the buffer was made with.
#[verifier::external_body]
fn raster_dimensions(img: &Raster) -> (dims: (u32, u32))
    ensures
        (dims.0 as nat, dims.1 as nat) == raster_size(*img),
{
    img.inner.dimensions()
}

/// `ImageBuffer::get_pixel`: the four samples of pixel `(x, y)`, read from
/// the container at the pixel's row-major position. The call panics outside
/// the buffer's bounds, which the precondition rules out.
#[verifier::external_body]
fn raster_get(img: &Raster, x: u32, y: u32) -> (px: [u8; 4])
    requires
        x < raster_size(*img).0,
        y < raster_size(*img).1,
    ensures
        forall|c: int|
            0 <= c < 4 ==> px[c] == raster_bytes(*img)[sample_index(
                raster_size(*img).0,
                x as int,
                y as int,
            ) + c],
{
    img.inner.get_pixel(x, y).0
}

/// `ImageBuffer::put_pixel`: overwrites the four samples of pixel `(x, y)`
/// and nothing else; the dimensions stay. The call panics outside the
/// buffer's bounds, which the precondition rules out.
#[verifier::external_body]
fn raster_put(img: &mut Raster, x: u32, y: u32, px: [u8; 4])
    requires
        x < raster_size(*old(img)).0,
        y < raster_size(*old(img)).1,
    ensures
        raster_size(*final(img)) == raster_size(*old(img)),
        raster_bytes(*final(img)) == write_samples(
            raster_bytes(*old(img)),
            sample_index(raster_size(*old(img)).0, x as int, y as int),
            px@,
        ),
{
    img.inner.put_pixel(x, y, image::Rgba(px))
}

/// `ImageBuffer::into_raw`: hands out the container with its samples.
#[verifier::external_body]
fn raster_into_raw(img: Raster) -> (bytes: Vec<u8>)
    ensures
        bytes@ == raster_bytes(img),
{
    img.inner.into_raw()
}

/// What a raster is, mathematically: its dimensions and its samples.
pub struct RasterView {
    pub width: nat,
    pub height: nat,
    pub bytes: Seq<u8>,
}

impl RasterView {
    /// The container holds exactly the samples of the `width * height` pixels.
    pub open spec fn wf(self) -> bool {
        self.bytes.len() == 4 * self.width * self.height
    }

    /// `(x, y)` is a pixel of the raster.
    pub open spec fn contains(self, x: int, y: int) -> bool {
        0 <= x < self.width && 0 <= y < self.height
    }

    /// The rectangle with origin `(x, y)` and the given extent lies inside
    /// the raster.
    pub open spec fn contains_rect(self, x: int, y: int, w: int, h: int) -> bool {
        0 <= x && 0 <= y && 0 <= w && 0 <= h && x + w <= self.width && y + h <= self.height
    }

    /// Channel `c` (0 red, 1 green, 2 blue, 3 alpha) of pixel `(x, y)`.
    pub open spec fn sample(self, x: int, y: int, c: int) -> u8 {
        self.bytes[sample_index(self.width, x, y) + c]
    }

    /// The four samples of pixel `(x, y)`.
    pub open spec fn pixel(self, x: int, y: int) -> Seq<u8> {
        Seq::new(4, |c: int| self.sample(x, y, c))
    }

    /// The alpha sample of pixel `(x, y)`.
    pub open spec fn alpha(self, x: int, y: int) -> u8 {
        self.sample(x, y, 3)
    }

    /// The raster of the given dimensions whose sample `c` of pixel `(x, y)`
    /// is `f(x, y, c)`.
    pub open spec fn from_fn(width: nat, height: nat, f: spec_fn(int, int, int) -> u8) -> Self {
        RasterView {
            width,
            height,
            bytes: Seq::new(
                4 * width * height,
                |i: int| f((i / 4) % (width as int), (i / 4) / (width as int), i % 4),
            ),
        }
    }

    /// The fully transparent black raster of the given dimensions.
    pub open spec fn blank(width: nat, height: nat) -> Self {
        Self::from_fn(width, height, |x: int, y: int, c: int| 0u8)
    }

    /// This raster with pixel `(x, y)` replaced by `px`.
    pub open spec fn put(self, x: int, y: int, px: Seq<u8>) -> Self {
        RasterView { bytes: write_samples(self.bytes, sample_index(self.width, x, y), px), ..self }
    }

    /// This raster with the `w * h` pixels at its origin `(ox, oy)` replaced
    /// by the `w * h` pixels at the origin of `src`.
    pub open spec fn blit(self, src: RasterView, ox: int, oy: int, w: int, h: int) -> Self {
        Self::from_fn(
            self.width,
            self.height,
            |x: int, y: int, c: int|
                if ox <= x < ox + w && oy <= y < oy + h {
                    src.sample(x - ox, y - oy, c)
                } else {
                    self.sample(x, y, c)
                },
        )
    }

    /// The raster of twice the width and twice the height that shows this
    /// raster at its origin and transparent black elsewhere.
    pub open spec fn doubled(self) -> Self {
        Self::from_fn(
            2 * self.width,
            2 * self.height,
            |x: int, y: int, c: int|
                if x < self.width && y < self.height {
                    self.sample(x, y, c)
                } else {
                    0u8
                },
        )
    }

    /// `m` is the least alpha over the rectangle, or 0 for an empty one.
    pub open spec fn is_min_alpha(self, x: int, y: int, w: int, h: int, m: u8) -> bool {
        if w <= 0 || h <= 0 {
            m == 0
        } else {
            &&& forall|i: int, j: int|
                x <= i < x + w && y <= j < y + h ==> m <= #[trigger] self.alpha(i, j)
            &&& exists|i: int, j: int|
                x <= i < x + w && y <= j < y + h && #[trigger] self.alpha(i, j) == m
        }
    }

    /// The least alpha over the rectangle, or 0 for an empty one.
    pub open spec fn min_alpha(self, x: int, y: int, w: int, h: int) -> u8 {
        choose|m: u8| self.is_min_alpha(x, y, w, h, m)
    }
}

impl View for Raster {
    type V = RasterView;

    open spec fn view(&self) -> RasterView {
        RasterView {
            width: raster_size(*self).0,
            height: raster_size(*self).1,
            bytes: raster_bytes(*self),
        }
    }
}

/// The samples of a pixel inside a raster of `width * height` pixels lie
/// inside its container.
pub proof fn lemma_sample_index_bounds(width: nat, height: nat, x: int, y: int)
    requires
        0 <= x < width,
        0 <= y < height,
    ensures
        0 <= sample_index(width, x, y),
        sample_index(width, x, y) + 4 <= 4 * width * height,
{
    assert(0 <= y * width) by (nonlinear_arith)
        requires
            0 <= y,
            0 <= width,
    ;
    assert(y * width + width <= height * width) by (nonlinear_arith)
        requires
            y + 1 <= height,
            0 <= width,
    ;
    assert(4 * width * height == 4 * (height * width)) by (nonlinear_arith);
}

/// Distinct pixels of one raster have disjoint samples.
pub proof fn lemma_sample_index_apart(width: nat, x1: int, y1: int, x2: int, y2: int)
    requires
        0 <= x1 < width,
        0 <= x2 < width,
        (x1, y1) != (x2, y2),
    ensures
        sample_index(width, x1, y1) + 4 <= sample_index(width, x2, y2) || sample_index(
            width,
            x2,
            y2,
        ) + 4 <= sample_index(width, x1, y1),
{
    if y1 < y2 {
        assert(y1 * width + width <= y2 * width) by (nonlinear_arith)
            requires
                y1 + 1 <= y2,
                0 <= width,
        ;
    } else if y2 < y1 {
        assert(y2 * width + width <= y1 * width) by (nonlinear_arith)
            requires
                y2 + 1 <= y1,
                0 <= width,
        ;
    }
}

/// Every sample position of a container of `4 * width * height` samples is
/// channel `i % 4` of the pixel in column `(i / 4) % width` and row
/// `(i / 4) / width`.
pub proof fn lemma_sample_index_split(width: nat, height: nat, i: int)
    requires
        0 <= i < 4 * width * height,
    ensures
        width > 0,
        0 <= (i / 4) % (width as int) < width,
        0 <= (i / 4) / (width as int) < height,
        0 <= i % 4 < 4,
        sample_index(width, (i / 4) % (width as int), (i / 4) / (width as int)) + i % 4 == i,
{
    let w = width as int;
    let p = i / 4;
    assert(width > 0) by (nonlinear_arith)
        requires
            0 <= i < 4 * width * height,
    ;
    assert(4 * width * height == 4 * (w * height)) by (nonlinear_arith)
        requires
            w == width,
    ;
    assert(p < w * height);
    vstd::arithmetic::div_mod::lemma_fundamental_div_mod(p, w);
    vstd::arithmetic::div_mod::lemma_mod_bound(p, w);
    vstd::arithmetic::div_mod::lemma_div_pos_is_pos(p, w);
    let q = p / w;
    assert(w * q == q * w) by (nonlinear_arith);
    assert(q < height) by (nonlinear_arith)
        requires
            w * q <= p,
            p < w * height,
            w > 0,
    ;
}

/// A raster made by `from_fn` holds exactly the samples of its pixels.
pub proof fn lemma_from_fn_wf(width: nat, height: nat, f: spec_fn(int, int, int) -> u8)
    ensures
        RasterView::from_fn(width, height, f).wf(),
{
    assert(4 * width * height >= 0) by (nonlinear_arith);
}

/// Samples of a raster made by `from_fn` are what the function says.
pub proof fn lemma_from_fn_sample(
    width: nat,
    height: nat,
    f: spec_fn(int, int, int) -> u8,
    x: int,
    y: int,
    c: int,
)
    requires
        0 <= x < width,
        0 <= y < height,
        0 <= c < 4,
    ensures
        RasterView::from_fn(width, height, f).sample(x, y, c) == f(x, y, c),
{
    let w = width as int;
    let i = sample_index(width, x, y) + c;
    lemma_sample_index_bounds(width, height, x, y);
    assert(i / 4 == y * w + x);
    vstd::arithmetic::div_mod::lemma_fundamental_div_mod_converse(y * w + x, w, y, x);
}

/// Two well-formed rasters of the same dimensions that agree on every
/// sample of every pixel are the same raster.
pub proof fn lemma_raster_ext(a: RasterView, b: RasterView)
    requires
        a.wf(),
        b.wf(),
        a.width == b.width,
        a.height == b.height,
        forall|x: int, y: int, c: int|
            0 <= x < a.width && 0 <= y < a.height && 0 <= c < 4 ==> #[trigger] a.sample(x, y, c)
                == b.sample(x, y, c),
    ensures
        a == b,
{
    assert forall|i: int| 0 <= i < a.bytes.len() implies a.bytes[i] == b.bytes[i] by {
        lemma_sample_index_split(a.width, a.height, i);
        let x = (i / 4) % (a.width as int);
        let y = (i / 4) / (a.width as int);
        assert(a.sample(x, y, i % 4) == b.sample(x, y, i % 4));
    }
    assert(a.bytes =~= b.bytes);
}

/// What `put` does to each sample: the pixel written holds the new samples,
/// every other pixel keeps its own.
pub proof fn lemma_put_sample(v: RasterView, x: int, y: int, px: Seq<u8>, x2: int, y2: int, c: int)
    requires
        v.wf(),
        v.contains(x, y),
        v.contains(x2, y2),
        0 <= c < 4,
        px.len() == 4,
    ensures
        v.put(x, y, px).wf(),
        v.put(x, y, px).sample(x2, y2, c) == if (x2, y2) == (x, y) {
            px[c]
        } else {
            v.sample(x2, y2, c)
        },
{
    lemma_sample_index_bounds(v.width, v.height, x, y);
    lemma_sample_index_bounds(v.width, v.height, x2, y2);
    if (x2, y2) != (x, y) {
        lemma_sample_index_apart(v.width, x, y, x2, y2);
    }
}

/// `is_min_alpha` holds of at most one value.
pub proof fn lemma_min_alpha_unique(v: RasterView, x: int, y: int, w: int, h: int, m: u8)
    requires
        v.is_min_alpha(x, y, w, h, m),
    ensures
        v.min_alpha(x, y, w, h) == m,
{
    let n = v.min_alpha(x, y, w, h);
    assert(v.is_min_alpha(x, y, w, h, n));
    if w > 0 && h > 0 {
        let (i, j) = choose|i: int, j: int|
            x <= i < x + w && y <= j < y + h && #[trigger] v.alpha(i, j) == m;
        let (k, l) = choose|k: int, l: int|
            x <= k < x + w && y <= l < y + h && #[trigger] v.alpha(k, l) == n;
        assert(n <= v.alpha(i, j));
        assert(m <= v.alpha(k, l));
    }
}

/// Over a rectangle that is not empty and holds only fully opaque pixels the
/// minimum alpha is 255.
pub proof fn lemma_min_alpha_opaque(v: RasterView, x: int, y: int, w: int, h: int)
    requires
        w > 0,
        h > 0,
        forall|i: int, j: int| x <= i < x + w && y <= j < y + h ==> #[trigger] v.alpha(i, j) == 255,
    ensures
        v.min_alpha(x, y, w, h) == 255,
{
    assert(v.alpha(x, y) == 255);
    lemma_min_alpha_unique(v, x, y, w, h, 255);
}

/// Over a rectangle that holds a fully transparent pixel the minimum alpha
/// is 0.
pub proof fn lemma_min_alpha_transparent(v: RasterView, x: int, y: int, w: int, h: int, i: int, j: int)
    requires
        x <= i < x + w,
        y <= j < y + h,
        v.alpha(i, j) == 0,
    ensures
        v.min_alpha(x, y, w, h) == 0,
{
    lemma_min_alpha_unique(v, x, y, w, h, 0);
}

impl Raster {
    /// A fully transparent black raster of the given dimensions.
    pub fn new(width: u32, height: u32) -> (r: Raster)
        requires
            4 * width * height <= isize::MAX,
        ensures
            r@ == RasterView::blank(width as nat, height as nat),
    {
        let r = raster_new(width, height);
        assert(r@.bytes =~= RasterView::blank(width as nat, height as nat).bytes);
        r
    }

    /// A raster over the given samples, row by row and four per pixel, if
    /// there are enough of them for `width * height` pixels.
    pub fn from_raw(width: u32, height: u32, bytes: Vec<u8>) -> (r: Option<Raster>)
        ensures
            r.is_some() <==> 4 * width * height <= bytes@.len(),
            r matches Some(img) ==> img@ == (RasterView {
                width: width as nat,
                height: height as nat,
                bytes: bytes@,
            }),
    {
        raster_from_raw(width, height, bytes)
    }

    /// Width and height in pixels.
    pub fn dimensions(&self) -> (dims: (u32, u32))
        ensures
            dims.0 == self@.width,
            dims.1 == self@.height,
    {
        raster_dimensions(self)
    }

    /// The pixel at `(x, y)` as red, green, blue, alpha.
    pub fn get_pixel(&self, x: u32, y: u32) -> (px: [u8; 4])
        requires
            self@.contains(x as int, y as int),
        ensures
            px@ == self@.pixel(x as int, y as int),
    {
        let px = raster_get(self, x, y);
        assert(px@ =~= self@.pixel(x as int, y as int));
        px
    }

    /// Replaces the pixel at `(x, y)`.
    pub fn put_pixel(&mut self, x: u32, y: u32, px: [u8; 4])
        requires
            old(self)@.contains(x as int, y as int),
        ensures
            final(self)@ == old(self)@.put(x as int, y as int, px@),
    {
        raster_put(self, x, y, px);
    }

    /// The samples, row by row and four per pixel.
    pub fn into_raw(self) -> (bytes: Vec<u8>)
        ensures
            bytes@ == self@.bytes,
    {
        raster_into_raw(self)
    }

    /// Copies the `w * h` pixels at the origin of `src` over the rectangle
    /// of the same extent at `(ox, oy)`.
    pub fn blit(&mut self, src: &Raster, ox: u32, oy: u32, w: u32, h: u32)
        requires
            old(self)@.wf(),
            old(self)@.contains_rect(ox as int, oy as int, w as int, h as int),
            src@.contains_rect(0, 0, w as int, h as int),
        ensures
            final(self)@ == old(self)@.blit(src@, ox as int, oy as int, w as int, h as int),
    {
        let ghost start = self@;
        let (width, height) = raster_dimensions(self);
        let mut ix: u32 = 0;
        while ix < w
            invariant
                ix <= w,
                start.width == width,
                start.height == height,
                start.wf(),
                start.contains_rect(ox as int, oy as int, w as int, h as int),
                src@.contains_rect(0, 0, w as int, h as int),
                self@.wf(),
                self@.width == start.width,
                self@.height == start.height,
                forall|x: int, y: int, c: int|
                    start.contains(x, y) && 0 <= c < 4 ==> #[trigger] self@.sample(x, y, c) == (if ox
                        <= x < ox + ix && oy <= y < oy + h {
                        src@.sample(x - ox, y - oy, c)
                    } else {
                        start.sample(x, y, c)
                    }),
            decreases w - ix,
        {
            let mut iy: u32 = 0;
            while iy < h
                invariant
                    ix < w,
                    iy <= h,
                    start.width == width,
                    start.height == height,
                    start.wf(),
                    start.contains_rect(ox as int, oy as int, w as int, h as int),
                    src@.contains_rect(0, 0, w as int, h as int),
                    self@.wf(),
                    self@.width == start.width,
                    self@.height == start.height,
                    forall|x: int, y: int, c: int|
                        start.contains(x, y) && 0 <= c < 4 ==> #[trigger] self@.sample(x, y, c)
                            == (if (ox <= x < ox + ix && oy <= y < oy + h) || (x == ox + ix && oy
                            <= y < oy + iy) {
                            src@.sample(x - ox, y - oy, c)
                        } else {
                            start.sample(x, y, c)
                        }),
                decreases h - iy,
            {
                let px = raster_get(src, ix, iy);
                let ghost before = self@;
                raster_put(self, ix + ox, iy + oy, px);
                proof {
                    assert(self@ == before.put(ix + ox, iy + oy, px@));
                    assert forall|x: int, y: int, c: int|
                        start.contains(x, y) && 0 <= c < 4 implies #[trigger] self@.sample(x, y, c)
                        == (if (ox <= x < ox + ix && oy <= y < oy + h) || (x == ox + ix && oy <= y
                        < oy + iy + 1) {
                        src@.sample(x - ox, y - oy, c)
                    } else {
                        start.sample(x, y, c)
                    }) by {
                        lemma_put_sample(before, ix + ox, iy + oy, px@, x, y, c);
                        assert(before.sample(x, y, c) == (if (ox <= x < ox + ix && oy <= y < oy
                            + h) || (x == ox + ix && oy <= y < oy + iy) {
                            src@.sample(x - ox, y - oy, c)
                        } else {
                            start.sample(x, y, c)
                        }));
                    }
                    lemma_put_sample(before, ix + ox, iy + oy, px@, 0, 0, 0);
                }
                iy = iy + 1;
            }
            ix = ix + 1;
        }
        proof {
            let goal = start.blit(src@, ox as int, oy as int, w as int, h as int);
            let f = |x: int, y: int, c: int|
                if ox <= x < ox + w && oy <= y < oy + h {
                    src@.sample(x - ox, y - oy, c)
                } else {
                    start.sample(x, y, c)
                };
            assert(goal == RasterView::from_fn(start.width, start.height, f));
            lemma_from_fn_wf(start.width, start.height, f);
            assert forall|x: int, y: int, c: int|
                0 <= x < self@.width && 0 <= y < self@.height && 0 <= c < 4 implies #[trigger] self@.sample(
                x,
                y,
                c,
            ) == goal.sample(x, y, c) by {
                lemma_from_fn_sample(start.width, start.height, f, x, y, c);
            }
            lemma_raster_ext(self@, goal);
        }
    }

    /// A raster of twice the width and twice the height that shows this
    /// raster at its origin and is transparent black elsewhere.
    pub fn doubled(&self) -> (r: Raster)
        requires
            self@.wf(),
            2 * self@.width <= u32::MAX,
            2 * self@.height <= u32::MAX,
            16 * self@.width * self@.height <= isize::MAX,
        ensures
            r@ == self@.doubled(),
    {
        let (w, h) = raster_dimensions(self);
        assert(4 * (2 * w) * (2 * h) == 16 * w * h) by (nonlinear_arith);
        let mut r = Raster::new(2 * w, 2 * h);
        let ghost blank = r@;
        proof {
            lemma_from_fn_wf((2 * w) as nat, (2 * h) as nat, |x: int, y: int, c: int| 0u8);
        }
        r.blit(self, 0, 0, w, h);
        proof {
            let goal = self@.doubled();
            let zero = |x: int, y: int, c: int| 0u8;
            let f = |x: int, y: int, c: int|
                if 0 <= x < 0 + w && 0 <= y < 0 + h {
                    self@.sample(x - 0, y - 0, c)
                } else {
                    blank.sample(x, y, c)
                };
            let g = |x: int, y: int, c: int|
                if x < self@.width && y < self@.height {
                    self@.sample(x, y, c)
                } else {
                    0u8
                };
            assert(r@ == RasterView::from_fn(blank.width, blank.height, f));
            assert(goal == RasterView::from_fn(2 * self@.width, 2 * self@.height, g));
            assert forall|x: int, y: int, c: int|
                0 <= x < r@.width && 0 <= y < r@.height && 0 <= c < 4 implies #[trigger] r@.sample(
                x,
                y,
                c,
            ) == goal.sample(x, y, c) by {
                lemma_from_fn_sample(blank.width, blank.height, f, x, y, c);
                lemma_from_fn_sample(2 * self@.width, 2 * self@.height, g, x, y, c);
                lemma_from_fn_sample((2 * w) as nat, (2 * h) as nat, zero, x, y, c);
            }
            lemma_from_fn_wf(blank.width, blank.height, f);
            lemma_from_fn_wf(2 * self@.width, 2 * self@.height, g);
            lemma_raster_ext(r@, goal);
        }
        r
    }

    /// The least alpha over the rectangle with origin `(x, y)` and extent
    /// `w * h`, or 0 if the rectangle is empty.
    pub fn min_alpha(&self, x: u32, y: u32, w: u32, h: u32) -> (m: u8)
        requires
            self@.contains_rect(x as int, y as int, w as int, h as int),
        ensures
            m == self@.min_alpha(x as int, y as int, w as int, h as int),
    {
        if w == 0 || h == 0 {
            proof {
                lemma_min_alpha_unique(self@, x as int, y as int, w as int, h as int, 0);
            }
            return 0;
        }
        let (width, height) = raster_dimensions(self);
        let first = raster_get(self, x, y);
        let mut m: u8 = first[3];
        let ghost mut at: (int, int) = (x as int, y as int);
        let mut ix: u32 = 0;
        while ix < w
            invariant
                ix <= w,
                0 < h,
                self@.width == width,
                self@.height == height,
                self@.contains_rect(x as int, y as int, w as int, h as int),
                x <= at.0 < x + w && y <= at.1 < y + h,
                self@.alpha(at.0, at.1) == m,
                forall|i: int, j: int|
                    x <= i < x + ix && y <= j < y + h ==> m <= #[trigger] self@.alpha(i, j),
            decreases w - ix,
        {
            let mut iy: u32 = 0;
            while iy < h
                invariant
                    ix < w,
                    iy <= h,
                    self@.width == width,
                    self@.height == height,
                    self@.contains_rect(x as int, y as int, w as int, h as int),
                    x <= at.0 < x + w && y <= at.1 < y + h,
                    self@.alpha(at.0, at.1) == m,
                    forall|i: int, j: int|
                        x <= i < x + ix && y <= j < y + h ==> m <= #[trigger] self@.alpha(i, j),
                    forall|j: int| y <= j < y + iy ==> m <= #[trigger] self@.alpha(x + ix, j),
                decreases h - iy,
            {
                let px = raster_get(self, x + ix, y + iy);
                if px[3] < m {
                    m = px[3];
                    proof {
                        at = (x + ix, y + iy);
                    }
                }
                iy = iy + 1;
            }
            ix = ix + 1;
        }
        proof {
            assert(self@.is_min_alpha(x as int, y as int, w as int, h as int, m));
            lemma_min_alpha_unique(self@, x as int, y as int, w as int, h as int, m);
        }
        m
    }
}

} // verus!
