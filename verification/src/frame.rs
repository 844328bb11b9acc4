use vstd::prelude::*;

use crate::color::{lift_pixel, lifted, opaque_black, Rgb, Rgba};
use crate::detection::PixelBox;

verus! {

/// The mathematical picture of a frame: its size and its raw RGBA bytes,
/// row after row, four bytes per pixel.
pub struct FrameView {
    pub width: nat,
    pub height: nat,
    pub bytes: Seq<u8>,
}

impl FrameView {
    /// The byte buffer holds exactly four bytes for every pixel.
    pub open spec fn well_formed(self) -> bool {
        self.bytes.len() == 4 * (self.width * self.height)
    }

    pub open spec fn pixel_count(self) -> nat {
        self.width * self.height
    }

    /// The `k`-th pixel in row-major order.
    pub open spec fn pixel_at(self, k: int) -> Rgba {
        Rgba {
            r: self.bytes[4 * k],
            g: self.bytes[4 * k + 1],
            b: self.bytes[4 * k + 2],
            a: self.bytes[4 * k + 3],
        }
    }

    /// The pixel in column `x` of row `y`.
    pub open spec fn pixel(self, x: int, y: int) -> Rgba {
        self.pixel_at(y * self.width + x)
    }
}

/// Index arithmetic: a pixel inside the frame has its four bytes inside the
/// buffer.
pub proof fn lemma_pixel_index(x: int, y: int, w: int, h: int)
    requires
        0 <= x < w,
        0 <= y < h,
    ensures
        0 <= y * w + x < w * h,
        4 * (y * w + x) + 3 < 4 * (w * h),
{
    assert(y * w + x < w * h) by (nonlinear_arith)
        requires
            0 <= x < w,
            0 <= y < h,
    ;
    assert(0 <= y * w) by (nonlinear_arith)
        requires
            0 <= y,
            0 <= w,
    ;
}

/// Whether the pixel in column `x` of row `y` lies outside the racoon
/// circle: the circle is centred on (`width / 2`, `height / 2`) and its
/// radius is `height / 2`, with integer halves.
pub open spec fn outside_circle(width: nat, height: nat, x: int, y: int) -> bool {
    let cx = width as int / 2;
    let cy = height as int / 2;
    let r = height as int / 2;
    (x - cx) * (x - cx) + (y - cy) * (y - cy) >= r * r
}

/// The circle test fits in 32-bit signed arithmetic for every pixel of a
/// frame of this size.
pub open spec fn circle_fits_i32(width: nat, height: nat) -> bool {
    width == 0 || height == 0 || (width / 2) * (width / 2) + (height / 2) * (height / 2)
        <= i32::MAX
}

/// What the racoon mask makes of one pixel.
pub open spec fn masked_pixel(v: FrameView, x: int, y: int, color: Rgb) -> Rgba {
    if outside_circle(v.width, v.height, x, y) {
        opaque_black()
    } else {
        lifted(v.pixel(x, y), color)
    }
}

/// The bytes sent to the virtual camera: the pixels in reverse order, each
/// as red, green, blue, alpha.
pub open spec fn camera_bytes(v: FrameView) -> Seq<u8> {
    Seq::new(
        v.bytes.len(),
        |i: int| {
            let p = v.pixel_at(v.pixel_count() - 1 - i / 4);
            let c = i % 4;
            if c == 0 {
                p.r
            } else if c == 1 {
                p.g
            } else if c == 2 {
                p.b
            } else {
                p.a
            }
        },
    )
}

/// Two well-formed frame pictures of one size with the same pixels are the
/// same picture.
pub proof fn lemma_same_pixels_same_view(v1: FrameView, v2: FrameView)
    requires
        v1.well_formed(),
        v2.well_formed(),
        v1.width == v2.width,
        v1.height == v2.height,
        forall|k: int| 0 <= k < v1.pixel_count() ==> #[trigger] v1.pixel_at(k) == v2.pixel_at(k),
    ensures
        v1 == v2,
{
    assert forall|i: int| 0 <= i < v1.bytes.len() implies v1.bytes[i] == v2.bytes[i] by {
        let k = i / 4;
        assert(0 <= k < v1.pixel_count());
        assert(v1.pixel_at(k) == v2.pixel_at(k));
        assert(i == 4 * k || i == 4 * k + 1 || i == 4 * k + 2 || i == 4 * k + 3);
    }
    assert(v1.bytes =~= v2.bytes);
}

/// Where a crop starts along one axis of length `size`: the requested start,
/// moved back onto the frame if it lies beyond it.
pub open spec fn crop_start(size: nat, at: int) -> int {
    if at <= size {
        at
    } else {
        size as int
    }
}

/// How far a crop reaches along one axis of length `size`: the requested
/// length, cut at the frame's edge.
pub open spec fn crop_length(size: nat, at: int, len: int) -> int {
    let start = crop_start(size, at);
    if len <= size - start {
        len
    } else {
        size - start
    }
}

/// Whether the box covers the whole of a frame of this size once clamped.
pub open spec fn covers_frame(v: FrameView, b: PixelBox) -> bool {
    &&& crop_start(v.width, b.x as int) == 0
    &&& crop_start(v.height, b.y as int) == 0
    &&& crop_length(v.width, b.x as int, b.w as int) == v.width
    &&& crop_length(v.height, b.y as int, b.h as int) == v.height
}

/// Whether the box, once clamped, holds no pixel of a frame of this size.
pub open spec fn misses_frame(v: FrameView, b: PixelBox) -> bool {
    crop_length(v.width, b.x as int, b.w as int) == 0 || crop_length(v.height, b.y as int, b.h as int)
        == 0
}

/// The part of a frame that a box cuts out once clamped to the frame: pixel
/// (`i`, `j`) of the cut is pixel (`start_x + i`, `start_y + j`) of the frame.
pub open spec fn cropped(v: FrameView, b: PixelBox) -> FrameView {
    let sx = crop_start(v.width, b.x as int);
    let sy = crop_start(v.height, b.y as int);
    let cw = crop_length(v.width, b.x as int, b.w as int);
    let ch = crop_length(v.height, b.y as int, b.h as int);
    FrameView {
        width: cw as nat,
        height: ch as nat,
        bytes: Seq::new(
            (4 * (cw * ch)) as nat,
            |i: int| v.bytes[4 * ((sy + (i / 4) / cw) * v.width + sx + (i / 4) % cw) + i % 4],
        ),
    }
}

/// The bytes that `fast_image_resize` (Lanczos3 convolution, alpha taken
/// into account) makes of an RGBA image of `width` x `height` pixels scaled to
/// `new_width` x `new_height`.
pub uninterp spec fn lanczos3_resized(bytes: Seq<u8>, width: nat, height: nat, new_width: nat, new_height: nat) -> Seq<u8>;

/// A zoom of `src` onto `b`: the box is cut out of the frame and the cut is
/// scaled back to the frame's size. A box covering the whole frame gives the
/// frame back unchanged; a box holding no pixel gives a frame of zero bytes.
pub open spec fn zoom_of(src: FrameView, b: PixelBox, out: FrameView) -> bool {
    let c = cropped(src, b);
    &&& out.well_formed()
    &&& out.width == src.width
    &&& out.height == src.height
    &&& out.bytes == lanczos3_resized(c.bytes, c.width, c.height, src.width, src.height)
    &&& covers_frame(src, b) ==> out == src
    &&& misses_frame(src, b) ==> forall|i: int| 0 <= i < out.bytes.len() ==> #[trigger] out.bytes[i] == 0
}

/// Whether the racoon circle test fits in 32-bit signed arithmetic for a
/// frame of this size (the condition `Frame::circle_masked` needs).
pub fn circle_fits(width: u32, height: u32) -> (ok: bool)
    ensures
        ok == circle_fits_i32(width as nat, height as nat),
{
    if width == 0 || height == 0 {
        return true;
    }
    let cx = (width / 2) as u64;
    let cy = (height / 2) as u64;
    proof {
        assert(cx * cx <= 0x8000_0000 * 0x8000_0000) by (nonlinear_arith)
            requires cx <= 0x8000_0000;
        assert(cy * cy <= 0x8000_0000 * 0x8000_0000) by (nonlinear_arith)
            requires cy <= 0x8000_0000;
    }
    cx * cx + cy * cy <= 0x7fff_ffff
}

/// An RGBA frame of `width` x `height` pixels.
pub struct Frame {
    width: u32,
    height: u32,
    data: Vec<u8>,
}

impl View for Frame {
    type V = FrameView;

    closed spec fn view(&self) -> FrameView {
        FrameView { width: self.width as nat, height: self.height as nat, bytes: self.data@ }
    }
}

impl Frame {
    #[verifier::type_invariant]
    spec fn inv(self) -> bool {
        self.data@.len() == 4 * ((self.width as nat) * (self.height as nat))
    }

    /// Wraps raw RGBA bytes; `None` unless there are exactly four bytes per
    /// pixel.
    pub fn new(width: u32, height: u32, data: Vec<u8>) -> (res: Option<Frame>)
        ensures
            res is Some <==> data@.len() == 4 * ((width as nat) * (height as nat)),
            res matches Some(f) ==> f@.well_formed() && f@ == (FrameView {
                width: width as nat,
                height: height as nat,
                bytes: data@,
            }),
    {
        let n = data.len();
        match (width as usize).checked_mul(height as usize) {
            Some(count) => {
                if n % 4 == 0 && n / 4 == count {
                    Some(Frame { width, height, data })
                } else {
                    None
                }
            },
            None => {
                proof {
                    assert((width as nat) * (height as nat) > usize::MAX);
                }
                None
            },
        }
    }

    /// The width in pixels.
    pub fn width(&self) -> (w: u32)
        ensures
            w == self@.width,
            self@.well_formed(),
    {
        proof {
            use_type_invariant(self);
        }
        self.width
    }

    /// The height in pixels.
    pub fn height(&self) -> (h: u32)
        ensures
            h == self@.height,
            self@.well_formed(),
    {
        proof {
            use_type_invariant(self);
        }
        self.height
    }

    /// The raw RGBA bytes.
    pub fn as_bytes(&self) -> (b: &Vec<u8>)
        ensures
            b@ == self@.bytes,
    {
        &self.data
    }

    /// Gives up the frame and returns its raw RGBA bytes.
    pub fn into_bytes(self) -> (b: Vec<u8>)
        ensures
            b@ == self@.bytes,
    {
        self.data
    }

    /// Row-major index of the pixel in column `x` of row `y`.
    fn index_of(&self, x: u32, y: u32) -> (k: usize)
        requires
            x < self@.width,
            y < self@.height,
        ensures
            k == y * self@.width + x,
            k < self@.pixel_count(),
    {
        proof {
            use_type_invariant(self);
        }
        let n = self.data.len();
        proof {
            lemma_pixel_index(x as int, y as int, self.width as int, self.height as int);
            assert(0 <= (y as int) * (self.width as int)) by (nonlinear_arith)
                requires 0 <= y, 0 <= self.width;
        }
        let row = (y as usize) * (self.width as usize);
        row + (x as usize)
    }

    /// The pixel in column `x` of row `y`.
    pub fn get_pixel(&self, x: u32, y: u32) -> (p: Rgba)
        requires
            x < self@.width,
            y < self@.height,
        ensures
            p == self@.pixel(x as int, y as int),
    {
        proof {
            use_type_invariant(self);
        }
        let k = self.index_of(x, y);
        self.pixel_at_index(k)
    }

    fn pixel_at_index(&self, k: usize) -> (p: Rgba)
        requires
            k < self@.pixel_count(),
        ensures
            p == self@.pixel_at(k as int),
    {
        proof {
            use_type_invariant(self);
        }
        let n = self.data.len();
        let o = 4 * k;
        Rgba { r: self.data[o], g: self.data[o + 1], b: self.data[o + 2], a: self.data[o + 3] }
    }

    fn set_pixel_at_index(&mut self, k: usize, p: Rgba)
        requires
            k < old(self)@.pixel_count(),
        ensures
            final(self)@.well_formed(),
            final(self)@.width == old(self)@.width,
            final(self)@.height == old(self)@.height,
            final(self)@.pixel_at(k as int) == p,
            forall|j: int|
                0 <= j < old(self)@.pixel_count() && j != k ==> #[trigger] final(self)@.pixel_at(j)
                    == old(self)@.pixel_at(j),
    {
        proof {
            use_type_invariant(&*self);
        }
        let mut taken = Frame { width: 0, height: 0, data: Vec::new() };
        std::mem::swap(self, &mut taken);
        let Frame { width, height, mut data } = taken;
        let n = data.len();
        let o = 4 * k;
        data.set(o, p.r);
        data.set(o + 1, p.g);
        data.set(o + 2, p.b);
        data.set(o + 3, p.a);
        *self = Frame { width, height, data };
        proof {
            assert forall|j: int|
                0 <= j < old(self)@.pixel_count() && j != k implies #[trigger] self@.pixel_at(j)
                == old(self)@.pixel_at(j) by {
                assert(j < k || j > k);
            }
        }
    }

    /// Writes the pixel in column `x` of row `y`.
    pub fn put_pixel(&mut self, x: u32, y: u32, p: Rgba)
        requires
            x < old(self)@.width,
            y < old(self)@.height,
        ensures
            final(self)@.well_formed(),
            final(self)@.width == old(self)@.width,
            final(self)@.height == old(self)@.height,
            final(self)@.pixel(x as int, y as int) == p,
            forall|j: int|
                0 <= j < old(self)@.pixel_count() && j != y * old(self)@.width + x
                    ==> #[trigger] final(self)@.pixel_at(j) == old(self)@.pixel_at(j),
    {
        proof {
            use_type_invariant(&*self);
        }
        let k = self.index_of(x, y);
        self.set_pixel_at_index(k, p);
    }

    /// The colour effect on a whole frame: every pixel lifted by `color`.
    pub fn lift_colors(self, color: Rgb) -> (out: Frame)
        ensures
            out@.well_formed(),
            out@.width == self@.width,
            out@.height == self@.height,
            forall|k: int|
                0 <= k < self@.pixel_count() ==> #[trigger] out@.pixel_at(k) == lifted(
                    self@.pixel_at(k),
                    color,
                ),
    {
        proof {
            use_type_invariant(&self);
        }
        let ghost orig = self@;
        let mut f = self;
        let count = f.data.len() / 4;
        let mut k: usize = 0;
        while k < count
            invariant
                orig.well_formed(),
                f@.well_formed(),
                f@.width == orig.width,
                f@.height == orig.height,
                count == orig.pixel_count(),
                k <= count,
                forall|j: int| 0 <= j < k ==> #[trigger] f@.pixel_at(j) == lifted(orig.pixel_at(j), color),
                forall|j: int| k <= j < count ==> #[trigger] f@.pixel_at(j) == orig.pixel_at(j),
            decreases count - k,
        {
            let p = f.pixel_at_index(k);
            f.set_pixel_at_index(k, lift_pixel(p, color));
            k = k + 1;
        }
        f
    }

    /// The racoon mask: every pixel outside the centred circle becomes opaque
    /// black, every pixel inside is lifted by `color`. Columns are visited
    /// left to right, each from top to bottom.
    pub fn circle_masked(self, color: Rgb) -> (out: Frame)
        requires
            circle_fits_i32(self@.width, self@.height),
        ensures
            out@.well_formed(),
            out@.width == self@.width,
            out@.height == self@.height,
            forall|x: int, y: int|
                0 <= x < self@.width && 0 <= y < self@.height ==> #[trigger] out@.pixel(x, y)
                    == masked_pixel(self@, x, y, color),
    {
        proof {
            use_type_invariant(&self);
        }
        let ghost orig = self@;
        let mut f = self;
        let w = f.width;
        let h = f.height;
        let radius: i32 = (h / 2) as i32;
        let cx: i32 = (w / 2) as i32;
        let cy: i32 = (h / 2) as i32;
        let mut x: u32 = 0;
        while x < w
            invariant
                orig.well_formed(),
                f@.well_formed(),
                f@.width == orig.width == w,
                f@.height == orig.height == h,
                circle_fits_i32(w as nat, h as nat),
                radius == h / 2,
                cx == w / 2,
                cy == h / 2,
                x <= w,
                forall|i: int, j: int|
                    0 <= i < x && 0 <= j < h ==> #[trigger] f@.pixel(i, j) == masked_pixel(
                        orig,
                        i,
                        j,
                        color,
                    ),
                forall|i: int, j: int|
                    x <= i < w && 0 <= j < h ==> #[trigger] f@.pixel(i, j) == orig.pixel(i, j),
            decreases w - x,
        {
            let mut y: u32 = 0;
            while y < h
                invariant
                    orig.well_formed(),
                    f@.well_formed(),
                    f@.width == orig.width == w,
                    f@.height == orig.height == h,
                    circle_fits_i32(w as nat, h as nat),
                    radius == h / 2,
                    cx == w / 2,
                    cy == h / 2,
                    x < w,
                    y <= h,
                    forall|i: int, j: int|
                        0 <= i < x && 0 <= j < h ==> #[trigger] f@.pixel(i, j) == masked_pixel(
                            orig,
                            i,
                            j,
                            color,
                        ),
                    forall|j: int|
                        0 <= j < y ==> #[trigger] f@.pixel(x as int, j) == masked_pixel(
                            orig,
                            x as int,
                            j,
                            color,
                        ),
                    forall|i: int, j: int|
                        (x < i < w && 0 <= j < h) || (i == x && y <= j < h) ==> #[trigger] f@.pixel(
                            i,
                            j,
                        ) == orig.pixel(i, j),
                decreases h - y,
            {
                proof {
                    lemma_circle_terms_fit(x as int, y as int, w as int, h as int);
                }
                let dx: i32 = x as i32 - cx;
                let dy: i32 = y as i32 - cy;
                assert(dx * dx + dy * dy <= i32::MAX);
                assert(0 <= dx * dx <= i32::MAX);
                assert(0 <= dy * dy <= i32::MAX);
                let ghost before = f@;
                if dx * dx + dy * dy >= radius * radius {
                    f.put_pixel(x, y, Rgba::opaque_black());
                } else {
                    let p = f.get_pixel(x, y);
                    f.put_pixel(x, y, lift_pixel(p, color));
                }
                proof {
                    lemma_other_pixels_kept(before, f@, x as int, y as int);
                }
                y = y + 1;
            }
            x = x + 1;
        }
        f
    }

    /// The bytes for the virtual camera device: the pixels in reverse order,
    /// each as red, green, blue, alpha.
    pub fn camera_bytes(&self) -> (out: Vec<u8>)
        ensures
            out@ == camera_bytes(self@),
    {
        proof {
            use_type_invariant(self);
        }
        let n = self.data.len();
        let count = n / 4;
        let mut out: Vec<u8> = Vec::with_capacity(n);
        let mut k: usize = 0;
        while k < count
            invariant
                self@.well_formed(),
                n == self@.bytes.len(),
                count == self@.pixel_count(),
                k <= count,
                out@.len() == 4 * k,
                forall|i: int| 0 <= i < 4 * k ==> #[trigger] out@[i] == camera_bytes(self@)[i],
            decreases count - k,
        {
            let p = self.pixel_at_index(count - 1 - k);
            out.push(p.r);
            out.push(p.g);
            out.push(p.b);
            out.push(p.a);
            proof {
                assert forall|i: int| 0 <= i < 4 * (k + 1) implies #[trigger] out@[i] == camera_bytes(
                    self@,
                )[i] by {
                    if i >= 4 * k {
                        assert(i / 4 == k);
                    }
                }
            }
            k = k + 1;
        }
        assert(out@ =~= camera_bytes(self@));
        out
    }

    /// Scales the frame to `width` x `height` (Lanczos3 convolution from
    /// `fast_image_resize`). Equal sizes give the frame back; a frame without
    /// pixels gives zero bytes.
    pub fn resized(&self, width: u32, height: u32) -> (out: Frame)
        requires
            4 * ((width as nat) * (height as nat)) <= usize::MAX,
        ensures
            out@.well_formed(),
            out@.width == width,
            out@.height == height,
            out@.bytes == lanczos3_resized(
                self@.bytes,
                self@.width,
                self@.height,
                width as nat,
                height as nat,
            ),
            width == self@.width && height == self@.height ==> out@ == self@,
            self@.width == 0 || self@.height == 0 ==> forall|i: int|
                0 <= i < out@.bytes.len() ==> #[trigger] out@.bytes[i] == 0,
    {
        proof {
            use_type_invariant(self);
        }
        resize_with_fast_image_resize(self, width, height)
    }

    /// Zooms onto a box: the box is cut out of the frame (clamped to the
    /// frame's edges) and scaled back to the frame's own size.
    pub fn zoomed(&self, b: PixelBox) -> (out: Frame)
        ensures
            zoom_of(self@, b, out@),
    {
        proof {
            use_type_invariant(self);
        }
        let n = self.data.len();
        let cut = crop_with_image(self, b);
        proof {
            lemma_cut_is_cropped(self@, cut@, b);
        }
        let out = resize_with_fast_image_resize(&cut, self.width, self.height);
        proof {
            if covers_frame(self@, b) {
                assert forall|k: int| 0 <= k < self@.pixel_count() implies #[trigger] cut@.pixel_at(k)
                    == self@.pixel_at(k) by {
                    lemma_pixel_coords(k, self@.width as int, self@.height as int);
                    let i = k % (self@.width as int);
                    let j = k / (self@.width as int);
                    assert(cut@.pixel(i, j) == self@.pixel(i, j));
                }
                lemma_same_pixels_same_view(cut@, self@);
            }
        }
        out
    }
}

/// Cuts a box out of a frame with `image::imageops::crop_imm` followed by
/// `SubImage::to_image`. The `image` crate clamps the box to the frame (the
/// start to the frame's size, the length to what is left after the start)
/// and copies pixel (`x + i`, `y + j`) to (`i`, `j`); the result is a
/// well-formed RGBA buffer of the clamped size.
#[verifier::external_body]
fn crop_with_image(frame: &Frame, b: PixelBox) -> (out: Frame)
    requires
        frame@.well_formed(),
    ensures
        out@.well_formed(),
        out@.width == crop_length(frame@.width, b.x as int, b.w as int),
        out@.height == crop_length(frame@.height, b.y as int, b.h as int),
        forall|i: int, j: int|
            0 <= i < out@.width && 0 <= j < out@.height ==> #[trigger] out@.pixel(i, j)
                == frame@.pixel(
                crop_start(frame@.width, b.x as int) + i,
                crop_start(frame@.height, b.y as int) + j,
            ),
{
    let img = image::RgbaImage::from_raw(frame.width, frame.height, frame.data.clone()).unwrap();
    let sub = image::imageops::crop_imm(&img, b.x, b.y, b.w, b.h).to_image();
    Frame { width: sub.width(), height: sub.height(), data: sub.into_raw() }
}

/// Scales a frame to `width` x `height` with `fast_image_resize::Resizer::resize`
/// (default options: Lanczos3 convolution), the frame's bytes taken in as a
/// `U8x4` image and the destination made with `Image::new`. The result is
/// named `lanczos3_resized` of the source bytes and the two sizes (the crate's
/// own tests hold it to the same checksums for every processor extension it
/// may pick at run time). The crate copies the pixels unchanged when the sizes
/// agree, and writes nothing into the zeroed destination when the source has
/// no pixels.
#[verifier::external_body]
fn resize_with_fast_image_resize(frame: &Frame, width: u32, height: u32) -> (out: Frame)
    requires
        frame@.well_formed(),
        4 * ((width as nat) * (height as nat)) <= usize::MAX,
    ensures
        out@.well_formed(),
        out@.width == width,
        out@.height == height,
        out@.bytes == lanczos3_resized(
            frame@.bytes,
            frame@.width,
            frame@.height,
            width as nat,
            height as nat,
        ),
        width == frame@.width && height == frame@.height ==> out@ == frame@,
        frame@.width == 0 || frame@.height == 0 ==> forall|i: int|
            0 <= i < out@.bytes.len() ==> #[trigger] out@.bytes[i] == 0,
{
    let pixel_type = fast_image_resize::PixelType::U8x4;
    let src = fast_image_resize::images::Image::from_vec_u8(
        frame.width,
        frame.height,
        frame.data.clone(),
        pixel_type,
    ).unwrap();
    let mut dst = fast_image_resize::images::Image::new(width, height, pixel_type);
    fast_image_resize::Resizer::new().resize(&src, &mut dst, None).unwrap();
    Frame { width, height, data: dst.into_vec() }
}

/// Lifting a frame by black gives the frame back.
pub proof fn lemma_lift_black_frame(src: FrameView, dst: FrameView)
    requires
        src.well_formed(),
        dst.well_formed(),
        dst.width == src.width,
        dst.height == src.height,
        forall|k: int|
            0 <= k < src.pixel_count() ==> #[trigger] dst.pixel_at(k) == lifted(
                src.pixel_at(k),
                Rgb { r: 0, g: 0, b: 0 },
            ),
    ensures
        dst == src,
{
    lemma_same_pixels_same_view(dst, src);
}

/// Lifting a frame twice by the same colour gives what lifting once gave.
pub proof fn lemma_lift_frame_twice(src: FrameView, once: FrameView, twice: FrameView, color: Rgb)
    requires
        src.well_formed(),
        once.well_formed(),
        twice.well_formed(),
        once.width == src.width && once.height == src.height,
        twice.width == src.width && twice.height == src.height,
        forall|k: int|
            0 <= k < src.pixel_count() ==> #[trigger] once.pixel_at(k) == lifted(src.pixel_at(k), color),
        forall|k: int|
            0 <= k < src.pixel_count() ==> #[trigger] twice.pixel_at(k) == lifted(once.pixel_at(k), color),
    ensures
        twice == once,
{
    assert forall|k: int| 0 <= k < twice.pixel_count() implies #[trigger] twice.pixel_at(k)
        == once.pixel_at(k) by {
        crate::color::lemma_lift_idempotent(src.pixel_at(k), color);
    }
    lemma_same_pixels_same_view(twice, once);
}

/// The racoon mask applied a second time with the same colour changes
/// nothing.
pub proof fn lemma_mask_twice(src: FrameView, once: FrameView, twice: FrameView, color: Rgb)
    requires
        src.well_formed(),
        once.well_formed(),
        twice.well_formed(),
        once.width == src.width && once.height == src.height,
        twice.width == src.width && twice.height == src.height,
        forall|x: int, y: int|
            0 <= x < src.width && 0 <= y < src.height ==> #[trigger] once.pixel(x, y) == masked_pixel(
                src,
                x,
                y,
                color,
            ),
        forall|x: int, y: int|
            0 <= x < src.width && 0 <= y < src.height ==> #[trigger] twice.pixel(x, y) == masked_pixel(
                once,
                x,
                y,
                color,
            ),
    ensures
        twice == once,
{
    assert forall|k: int| 0 <= k < twice.pixel_count() implies #[trigger] twice.pixel_at(k)
        == once.pixel_at(k) by {
        lemma_pixel_coords(k, src.width as int, src.height as int);
        let x = k % (src.width as int);
        let y = k / (src.width as int);
        assert(twice.pixel(x, y) == masked_pixel(once, x, y, color));
        assert(once.pixel(x, y) == masked_pixel(src, x, y, color));
        crate::color::lemma_lift_idempotent(src.pixel(x, y), color);
    }
    lemma_same_pixels_same_view(twice, once);
}

/// The camera bytes, read as a frame of the same size, hold the frame's
/// pixels in reverse order.
pub proof fn lemma_camera_bytes_reverse_pixels(v: FrameView, k: int)
    requires
        v.well_formed(),
        0 <= k < v.pixel_count(),
    ensures
        (FrameView { width: v.width, height: v.height, bytes: camera_bytes(v) }).pixel_at(k)
            == v.pixel_at(v.pixel_count() - 1 - k),
{
    let c = FrameView { width: v.width, height: v.height, bytes: camera_bytes(v) };
    assert((4 * k) / 4 == k && (4 * k + 1) / 4 == k && (4 * k + 2) / 4 == k && (4 * k + 3) / 4 == k);
    assert((4 * k) % 4 == 0 && (4 * k + 1) % 4 == 1 && (4 * k + 2) % 4 == 2 && (4 * k + 3) % 4 == 3);
}

/// Turning the camera bytes into camera bytes once more gives the frame's own
/// bytes back.
pub proof fn lemma_camera_bytes_round_trip(v: FrameView)
    requires
        v.well_formed(),
    ensures
        camera_bytes(FrameView { width: v.width, height: v.height, bytes: camera_bytes(v) }) == v.bytes,
{
    let c = FrameView { width: v.width, height: v.height, bytes: camera_bytes(v) };
    assert forall|i: int| 0 <= i < v.bytes.len() implies #[trigger] camera_bytes(c)[i] == v.bytes[i] by {
        let k = i / 4;
        let n = v.pixel_count() as int;
        assert(0 <= k < n);
        lemma_camera_bytes_reverse_pixels(v, n - 1 - k);
        assert(i == 4 * k || i == 4 * k + 1 || i == 4 * k + 2 || i == 4 * k + 3);
    }
    assert(camera_bytes(c) =~= v.bytes);
}

/// A box that starts at the corner and is at least as large as the frame
/// covers it, so zooming onto it gives the frame back.
pub proof fn lemma_full_box_covers(v: FrameView, b: PixelBox)
    requires
        b.x == 0,
        b.y == 0,
        b.w >= v.width,
        b.h >= v.height,
    ensures
        covers_frame(v, b),
{
}

/// A box that lies inside the frame is cut out exactly as given.
pub proof fn lemma_inside_box_not_clamped(v: FrameView, b: PixelBox)
    requires
        b.x + b.w <= v.width,
        b.y + b.h <= v.height,
    ensures
        crop_start(v.width, b.x as int) == b.x,
        crop_start(v.height, b.y as int) == b.y,
        crop_length(v.width, b.x as int, b.w as int) == b.w,
        crop_length(v.height, b.y as int, b.h as int) == b.h,
{
}

/// A cut with the size and pixels that the `image` crate gives is the
/// `cropped` view.
proof fn lemma_cut_is_cropped(src: FrameView, cut: FrameView, b: PixelBox)
    requires
        src.well_formed(),
        cut.well_formed(),
        cut.width == crop_length(src.width, b.x as int, b.w as int),
        cut.height == crop_length(src.height, b.y as int, b.h as int),
        forall|i: int, j: int|
            0 <= i < cut.width && 0 <= j < cut.height ==> #[trigger] cut.pixel(i, j) == src.pixel(
                crop_start(src.width, b.x as int) + i,
                crop_start(src.height, b.y as int) + j,
            ),
    ensures
        cut == cropped(src, b),
{
    let c = cropped(src, b);
    let cw = cut.width as int;
    let ch = cut.height as int;
    let sx = crop_start(src.width, b.x as int);
    let sy = crop_start(src.height, b.y as int);
    assert(c.bytes.len() == cut.bytes.len());
    assert forall|i: int| 0 <= i < cut.bytes.len() implies #[trigger] cut.bytes[i] == c.bytes[i] by {
        let k = i / 4;
        lemma_pixel_coords(k, cw, ch);
        let ii = k % cw;
        let jj = k / cw;
        assert(cut.pixel(ii, jj) == src.pixel(sx + ii, sy + jj));
        assert(jj * cw + ii == k);
        assert(i == 4 * k + i % 4);
        assert(0 <= sx + ii < src.width && 0 <= sy + jj < src.height);
        lemma_pixel_index(sx + ii, sy + jj, src.width as int, src.height as int);
    }
    assert(cut.bytes =~= c.bytes);
}

/// The squared distances of the circle test stay within `i32`.
pub(crate) proof fn lemma_circle_terms_fit(x: int, y: int, w: int, h: int)
    requires
        0 <= x < w,
        0 <= y < h,
        w <= u32::MAX,
        h <= u32::MAX,
        circle_fits_i32(w as nat, h as nat),
    ensures
        w / 2 <= i32::MAX,
        h / 2 <= i32::MAX,
        x <= i32::MAX,
        y <= i32::MAX,
        (x - w / 2) * (x - w / 2) <= (w / 2) * (w / 2),
        (y - h / 2) * (y - h / 2) <= (h / 2) * (h / 2),
        (x - w / 2) * (x - w / 2) + (y - h / 2) * (y - h / 2) <= i32::MAX,
        (h / 2) * (h / 2) <= i32::MAX,
        (x - w / 2) * (x - w / 2) >= 0,
        (y - h / 2) * (y - h / 2) >= 0,
{
    assert((x - w / 2) * (x - w / 2) >= 0 && (y - h / 2) * (y - h / 2) >= 0) by (nonlinear_arith);
    let cx = w / 2;
    let cy = h / 2;
    assert(-cx <= x - cx <= cx);
    assert(-cy <= y - cy <= cy);
    assert((x - cx) * (x - cx) <= cx * cx) by (nonlinear_arith)
        requires -cx <= x - cx <= cx;
    assert((y - cy) * (y - cy) <= cy * cy) by (nonlinear_arith)
        requires -cy <= y - cy <= cy;
    assert(cx * cx >= 0 && cy * cy >= 0) by (nonlinear_arith);
    assert(cx <= i32::MAX) by (nonlinear_arith)
        requires cx * cx <= i32::MAX, cx >= 0;
    assert(cy <= i32::MAX) by (nonlinear_arith)
        requires cy * cy <= i32::MAX, cy >= 0;
    assert(x <= 2 * cx + 1);
    assert(y <= 2 * cy + 1);
    assert(cx < 46341) by (nonlinear_arith)
        requires cx * cx <= i32::MAX, cx >= 0;
    assert(cy < 46341) by (nonlinear_arith)
        requires cy * cy <= i32::MAX, cy >= 0;
}

/// Writing pixel (`x`, `y`) leaves every other pixel as it was.
pub(crate) proof fn lemma_other_pixels_kept(before: FrameView, after: FrameView, x: int, y: int)
    requires
        before.well_formed(),
        after.width == before.width,
        after.height == before.height,
        0 <= x < before.width,
        0 <= y < before.height,
        forall|j: int|
            0 <= j < before.pixel_count() && j != y * before.width + x ==> #[trigger] after.pixel_at(j)
                == before.pixel_at(j),
    ensures
        forall|i: int, j: int|
            0 <= i < before.width && 0 <= j < before.height && (i != x || j != y)
                ==> #[trigger] after.pixel(i, j) == before.pixel(i, j),
{
    assert forall|i: int, j: int|
        0 <= i < before.width && 0 <= j < before.height && (i != x || j != y) implies #[trigger] after.pixel(
        i,
        j,
    ) == before.pixel(i, j) by {
        lemma_pixel_index(i, j, before.width as int, before.height as int);
        lemma_distinct_index(i, j, x, y, before.width as int);
    }
}

/// The column and row of the `k`-th pixel in row-major order.
pub proof fn lemma_pixel_coords(k: int, w: int, h: int)
    requires
        0 <= k < w * h,
        0 <= w,
        0 <= h,
    ensures
        w > 0,
        0 <= k % w < w,
        0 <= k / w < h,
        k == (k / w) * w + k % w,
{
    if w == 0 {
        assert(w * h == 0);
    }
    vstd::arithmetic::div_mod::lemma_fundamental_div_mod(k, w);
    assert(w * (k / w) == (k / w) * w) by (nonlinear_arith);
    vstd::arithmetic::div_mod::lemma_div_pos_is_pos(k, w);
    vstd::arithmetic::div_mod::lemma_mod_pos_bound(k, w);
    if k / w >= h {
        assert((k / w) * w >= h * w) by (nonlinear_arith)
            requires k / w >= h, w > 0;
        assert(h * w == w * h) by (nonlinear_arith);
    }
}

/// Distinct pixels have distinct row-major indices.
pub(crate) proof fn lemma_distinct_index(i: int, j: int, x: int, y: int, w: int)
    requires
        0 <= i < w,
        0 <= x < w,
        0 <= j,
        0 <= y,
        i != x || j != y,
    ensures
        j * w + i != y * w + x,
{
    if j == y {
    } else if j < y {
        assert(j * w + i < y * w + x) by (nonlinear_arith)
            requires j < y, 0 <= i < w, 0 <= x;
    } else {
        assert(j * w + i > y * w + x) by (nonlinear_arith)
            requires j > y, 0 <= x < w, 0 <= i;
    }
}

} // verus!
