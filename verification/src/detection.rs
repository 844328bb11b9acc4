use vstd::prelude::*;

verus! {

/// A box in pixel coordinates: its top-left corner and its size.
#[derive(Clone, Copy, Debug, PartialEq, Eq, Structural)]
pub struct PixelBox {
    pub x: u32,
    pub y: u32,
    pub w: u32,
    pub h: u32,
}

impl PixelBox {
    /// The empty box at the origin, which stands for "no face seen yet".
    pub open spec fn empty() -> PixelBox {
        PixelBox { x: 0, y: 0, w: 0, h: 0 }
    }

    pub fn new(x: u32, y: u32, w: u32, h: u32) -> (b: PixelBox)
        ensures
            b == (PixelBox { x, y, w, h }),
    {
        PixelBox { x, y, w, h }
    }

    /// Whether both corner coordinates fit in an `i32` (the condition
    /// `box_replaces` needs).
    pub fn fits_i32(&self) -> (ok: bool)
        ensures
            ok == fits_i32(*self),
    {
        self.x <= 0x7fff_ffff && self.y <= 0x7fff_ffff
    }

    pub fn zero() -> (b: PixelBox)
        ensures
            b == PixelBox::empty(),
    {
        PixelBox { x: 0, y: 0, w: 0, h: 0 }
    }
}

/// The smaller of two sizes.
pub open spec fn min_u32(a: u32, b: u32) -> u32 {
    if a <= b {
        a
    } else {
        b
    }
}

/// A zoom box with the given corner, its width and height cut so that it
/// ends inside a frame of `frame_w` x `frame_h`.
pub open spec fn fitted(x: u32, y: u32, w: u32, h: u32, frame_w: u32, frame_h: u32) -> PixelBox {
    PixelBox { x, y, w: min_u32(w, (frame_w - x) as u32), h: min_u32(h, (frame_h - y) as u32) }
}

/// Cuts a zoom box at the frame's right and bottom edges (the last step of
/// turning a detection into the box to zoom on). The corner must lie inside
/// the frame or on its edge.
pub fn fit_box(x: u32, y: u32, w: u32, h: u32, frame_w: u32, frame_h: u32) -> (b: PixelBox)
    requires
        x <= frame_w,
        y <= frame_h,
    ensures
        b == fitted(x, y, w, h, frame_w, frame_h),
{
    let room_w = frame_w - x;
    let room_h = frame_h - y;
    PixelBox { x, y, w: if w <= room_w { w } else { room_w }, h: if h <= room_h { h } else { room_h } }
}

/// Fitting cuts each axis on its own: the fitted width is the smaller of the
/// requested width and the room right of the corner, the fitted height the
/// smaller of the requested height and the room below it; the height does not
/// depend on the width or the frame's width, nor the width on the height or
/// the frame's height.
pub proof fn lemma_fitted_axes(
    x: u32,
    y: u32,
    w: u32,
    h: u32,
    frame_w: u32,
    frame_h: u32,
    w2: u32,
    h2: u32,
    frame_w2: u32,
    frame_h2: u32,
)
    requires
        x <= frame_w,
        y <= frame_h,
        x <= frame_w2,
        y <= frame_h2,
    ensures
        ({
            let b = fitted(x, y, w, h, frame_w, frame_h);
            &&& b.x == x && b.y == y
            &&& b.w <= w && b.w <= frame_w - x && (b.w == w || b.w == frame_w - x)
            &&& b.h <= h && b.h <= frame_h - y && (b.h == h || b.h == frame_h - y)
        }),
        fitted(x, y, w, h, frame_w, frame_h).h == fitted(x, y, w2, h, frame_w2, frame_h).h,
        fitted(x, y, w, h, frame_w, frame_h).w == fitted(x, y, w, h2, frame_w, frame_h2).w,
{
}

/// A fitted box lies inside the frame.
pub proof fn lemma_fitted_inside(x: u32, y: u32, w: u32, h: u32, frame_w: u32, frame_h: u32)
    requires
        x <= frame_w,
        y <= frame_h,
    ensures
        fitted(x, y, w, h, frame_w, frame_h).x + fitted(x, y, w, h, frame_w, frame_h).w <= frame_w,
        fitted(x, y, w, h, frame_w, frame_h).y + fitted(x, y, w, h, frame_w, frame_h).h <= frame_h,
        fitted(x, y, w, h, frame_w, frame_h).w <= w,
        fitted(x, y, w, h, frame_w, frame_h).h <= h,
{
}

/// The distance between two coordinates.
pub open spec fn distance(a: u32, b: u32) -> int {
    if a >= b {
        a - b
    } else {
        b - a
    }
}

/// Whether a newly detected box replaces the one being zoomed on: always
/// when there is none yet; otherwise when the face moved by more than a
/// quarter of the old box's size along either axis, or the box shrank or grew
/// in both directions.
pub open spec fn replaces(old_box: PixelBox, new_box: PixelBox) -> bool {
    ||| old_box == PixelBox::empty()
    ||| distance(new_box.x, old_box.x) > old_box.w / 4
    ||| distance(new_box.y, old_box.y) > old_box.h / 4
    ||| new_box.w < old_box.w && new_box.h < old_box.h
    ||| new_box.w > old_box.w && new_box.h > old_box.h
}

/// Coordinates that the detection arithmetic handles as 32-bit signed
/// integers.
pub open spec fn fits_i32(b: PixelBox) -> bool {
    b.x <= i32::MAX && b.y <= i32::MAX
}

/// Decides whether `new_box` replaces `old_box` (see `replaces`).
pub fn box_replaces(old_box: PixelBox, new_box: PixelBox) -> (r: bool)
    requires
        fits_i32(old_box),
        fits_i32(new_box),
    ensures
        r == replaces(old_box, new_box),
{
    let a: u32 = if new_box.x >= old_box.x { new_box.x - old_box.x } else { old_box.x - new_box.x };
    let b: u32 = if new_box.y >= old_box.y { new_box.y - old_box.y } else { old_box.y - new_box.y };
    (old_box.x == 0 && old_box.y == 0 && old_box.w == 0 && old_box.h == 0)
        || a > old_box.w / 4
        || b > old_box.h / 4
        || (new_box.w < old_box.w && new_box.h < old_box.h)
        || (new_box.w > old_box.w && new_box.h > old_box.h)
}

/// For a box already followed, a face of the same size that moved along one
/// axis only replaces it exactly when it moved by more than a quarter of the
/// old box's extent along that axis, whatever the other extent.
pub proof fn lemma_replaces_on_one_axis(old_box: PixelBox, new_box: PixelBox)
    requires
        old_box != PixelBox::empty(),
        new_box.w == old_box.w,
        new_box.h == old_box.h,
    ensures
        new_box.y == old_box.y ==> (replaces(old_box, new_box) <==> distance(new_box.x, old_box.x)
            > old_box.w / 4),
        new_box.x == old_box.x ==> (replaces(old_box, new_box) <==> distance(new_box.y, old_box.y)
            > old_box.h / 4),
{
}

/// For a box already followed, a face at the same place replaces it exactly
/// when its box shrank in both directions or grew in both directions.
pub proof fn lemma_replaces_on_resize(old_box: PixelBox, new_box: PixelBox)
    requires
        old_box != PixelBox::empty(),
        new_box.x == old_box.x,
        new_box.y == old_box.y,
    ensures
        replaces(old_box, new_box) <==> ((new_box.w < old_box.w && new_box.h < old_box.h) || (
        new_box.w > old_box.w && new_box.h > old_box.h)),
{
}

/// A box never replaces itself unless there is no box yet.
pub proof fn lemma_box_keeps_itself(b: PixelBox)
    ensures
        replaces(b, b) <==> b == PixelBox::empty(),
{
}

/// Any detection replaces the empty box.
pub proof fn lemma_empty_always_replaced(b: PixelBox)
    ensures
        replaces(PixelBox::empty(), b),
{
}

/// The frame counter of the effects camera, which runs the face detector on
/// every third frame, and on every frame while it holds no detection box.
pub struct DetectionClock {
    frame_count: u8,
}

impl DetectionClock {
    /// Frames counted since the detector last ran to completion.
    pub closed spec fn count(self) -> u8 {
        self.frame_count
    }

    pub fn new() -> (c: DetectionClock)
        ensures
            c.count() == 0,
    {
        DetectionClock { frame_count: 0 }
    }

    pub fn frame_count(&self) -> (n: u8)
        ensures
            n == self.count(),
    {
        self.frame_count
    }

    /// Counts one more frame and tells whether the detector runs on it: when
    /// the count reaches a multiple of three, or when no box is held yet.
    pub fn next_frame(&mut self, box_unset: bool) -> (due: bool)
        requires
            old(self).count() < u8::MAX,
        ensures
            final(self).count() == old(self).count() + 1,
            due == (final(self).count() % 3 == 0 || box_unset),
    {
        self.frame_count = self.frame_count + 1;
        self.frame_count % 3 == 0 || box_unset
    }

    /// The detector ran to completion: counting starts again.
    pub fn detection_ran(&mut self)
        ensures
            final(self).count() == 0,
    {
        self.frame_count = 0;
    }
}

/// Once the detector has run, it runs again on the third frame after, and not
/// on the two before it unless no box is held.
pub proof fn lemma_detection_every_third_frame(c: DetectionClock)
    requires
        c.count() == 0,
    ensures
        (c.count() + 1) % 3 != 0,
        (c.count() + 2) % 3 != 0,
        (c.count() + 3) % 3 == 0,
{
}

} // verus!
