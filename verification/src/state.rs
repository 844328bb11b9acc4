use vstd::prelude::*;

use crate::color::{lift_pixel, lifted, opaque_black, Rgb, Rgba};
use crate::detection::{box_replaces, fits_i32, replaces, PixelBox};
use crate::disco::poll_color;
use crate::frame::{
    circle_fits_i32, crop_length, crop_start, lemma_circle_terms_fit, lemma_other_pixels_kept,
    outside_circle, zoom_of, Frame, FrameView,
};

verus! {

/// The mathematical picture of the viewer's effect state.
pub struct ViewModel {
    /// The lift colour chosen with the sliders.
    pub rgb: Rgb,
    /// The disco colour in use (the last one received).
    pub disco_rgb: Rgb,
    pub racoon: bool,
    pub disco: bool,
    pub zoom: bool,
    /// Milliseconds between two disco colours.
    pub timeout: u64,
    /// The box the zoom follows; the empty box until a face is seen.
    pub previous_box: PixelBox,
    /// Frames shown so far.
    pub frame_count: u32,
}

/// The outcome of the face detector for one frame.
pub enum Detection {
    /// The detector did not run on this frame, or saw no face sure enough.
    Skipped,
    /// The detector failed; the frame is passed on untouched.
    Failed,
    /// A face, already turned into the box to zoom on.
    Found(PixelBox),
}

/// The effect state of the camera viewer: what the sliders and switches
/// chose, the disco colour in use, and the face box that the zoom follows.
pub struct ViewState {
    rgb: Rgb,
    current_disco_rgb: Rgb,
    is_racoon: bool,
    is_disco: bool,
    is_zoom: bool,
    timeout: u64,
    previous_box: PixelBox,
    frame_count: u32,
    /// Every answer the disco channel gave, oldest first.
    polls: Ghost<Seq<Option<Rgb>>>,
}

impl View for ViewState {
    type V = ViewModel;

    closed spec fn view(&self) -> ViewModel {
        ViewModel {
            rgb: self.rgb,
            disco_rgb: self.current_disco_rgb,
            racoon: self.is_racoon,
            disco: self.is_disco,
            zoom: self.is_zoom,
            timeout: self.timeout,
            previous_box: self.previous_box,
            frame_count: self.frame_count,
        }
    }
}

/// `dst` is `src` with its `k`-th pixel lifted by `colors[k]`, for every `k`.
pub open spec fn lifted_pointwise(src: FrameView, dst: FrameView, colors: Seq<Rgb>) -> bool {
    &&& colors.len() == src.pixel_count()
    &&& dst.width == src.width
    &&& dst.height == src.height
    &&& forall|k: int|
        0 <= k < src.pixel_count() ==> #[trigger] dst.pixel_at(k) == lifted(src.pixel_at(k), colors[k])
}

/// `dst` is `src` under the racoon mask, each pixel inside the circle lifted
/// by `colors` at its row-major index.
pub open spec fn masked_pointwise(src: FrameView, dst: FrameView, colors: Seq<Rgb>) -> bool {
    &&& colors.len() == src.pixel_count()
    &&& dst.width == src.width
    &&& dst.height == src.height
    &&& forall|x: int, y: int|
        0 <= x < src.width && 0 <= y < src.height ==> #[trigger] dst.pixel(x, y) == (if outside_circle(
            src.width,
            src.height,
            x,
            y,
        ) {
            opaque_black()
        } else {
            lifted(src.pixel(x, y), colors[y * src.width + x])
        })
}

/// Whether pixel (`x`, `y`) comes no later than (`lx`, `ly`) when columns are
/// visited left to right, each from top to bottom.
pub open spec fn visited_by(x: int, y: int, lx: int, ly: int) -> bool {
    x < lx || (x == lx && y <= ly)
}

/// Whether (`lx`, `ly`) is the last pixel inside the racoon circle in visiting
/// order.
pub open spec fn last_inside(v: FrameView, lx: int, ly: int) -> bool {
    &&& 0 <= lx < v.width
    &&& 0 <= ly < v.height
    &&& !outside_circle(v.width, v.height, lx, ly)
    &&& forall|x: int, y: int|
        0 <= x < v.width && 0 <= y < v.height && !#[trigger] outside_circle(v.width, v.height, x, y)
            ==> visited_by(x, y, lx, ly)
}

/// Whether the frame has no pixel inside the racoon circle.
pub open spec fn all_outside(v: FrameView) -> bool {
    forall|x: int, y: int|
        0 <= x < v.width && 0 <= y < v.height ==> #[trigger] outside_circle(v.width, v.height, x, y)
}

/// The disco colour left after the racoon look: the one the last pixel inside
/// the circle was lifted by, or the one before if no pixel lies inside.
pub open spec fn disco_left_by_mask(v: FrameView, colors: Seq<Rgb>, before: Rgb, after: Rgb) -> bool {
    ||| all_outside(v) && after == before
    ||| exists|lx: int, ly: int|
        #[trigger] last_inside(v, lx, ly) && colors[ly * v.width + lx] == after
}

/// The disco colour in use after a run of channel polls starting from
/// `start`: the last colour received, or `start` if none was.
pub open spec fn disco_after(start: Rgb, polls: Seq<Option<Rgb>>) -> Rgb
    decreases polls.len(),
{
    if polls.len() == 0 {
        start
    } else {
        match polls.last() {
            Some(c) => c,
            None => disco_after(start, polls.drop_last()),
        }
    }
}

/// The disco colour in use after some polls is the colour before them or a
/// colour that one of the polls received: nothing else (the slider colour in
/// particular) enters it.
pub proof fn lemma_disco_after_received(start: Rgb, polls: Seq<Option<Rgb>>)
    ensures
        disco_after(start, polls) == start || exists|i: int|
            0 <= i < polls.len() && #[trigger] polls[i] == Some(disco_after(start, polls)),
    decreases polls.len(),
{
    if polls.len() > 0 {
        match polls.last() {
            Some(c) => {
                assert(polls[polls.len() - 1] == Some(disco_after(start, polls)));
            },
            None => {
                lemma_disco_after_received(start, polls.drop_last());
                if disco_after(start, polls) != start {
                    let i = choose|i: int|
                        0 <= i < polls.drop_last().len() && #[trigger] polls.drop_last()[i] == Some(
                            disco_after(start, polls.drop_last()),
                        );
                    assert(polls[i] == Some(disco_after(start, polls)));
                }
            },
        }
    }
}

/// Polls after which the disco colour was read pixel by pixel, in visiting
/// order: pixel (`x`, `y`) of a frame of height `h` is the `x * h + y`-th one
/// visited, and is lifted by the colour in use after the polls up to its own.
pub open spec fn lifted_by_disco(v: FrameView, colors: Seq<Rgb>, start: Rgb, polls: Seq<Option<Rgb>>) -> bool {
    &&& polls.len() == v.pixel_count()
    &&& forall|x: int, y: int|
        0 <= x < v.width && 0 <= y < v.height ==> #[trigger] colors[y * v.width + x] == disco_after(
            start,
            polls.take(x * v.height + y + 1),
        )
}

/// One more poll: a colour received becomes the disco colour, nothing
/// received keeps the one in use.
pub proof fn lemma_disco_after_push(start: Rgb, polls: Seq<Option<Rgb>>, r: Option<Rgb>)
    ensures
        disco_after(start, polls.push(r)) == (match r {
            Some(c) => c,
            None => disco_after(start, polls),
        }),
        disco_after(start, polls.push(r)) == disco_after(disco_after(start, polls), seq![r]),
{
    assert(polls.push(r).drop_last() =~= polls);
    assert(seq![r].drop_last() =~= Seq::<Option<Rgb>>::empty());
    reveal_with_fuel(disco_after, 2);
}

/// A pixel visited before (`x`, `y`) comes earlier in visiting order.
proof fn lemma_visited_earlier(i: int, j: int, x: int, y: int, h: int)
    requires
        0 <= i,
        0 <= j < h,
        0 <= y,
        (i < x) || (i == x && j < y),
    ensures
        i * h + j + 1 <= x * h + y,
        0 <= i * h + j,
{
    if i < x {
        assert((i + 1) * h <= x * h) by (nonlinear_arith)
            requires i + 1 <= x, h >= 0;
        assert((i + 1) * h == i * h + h) by (nonlinear_arith);
    }
    assert(0 <= i * h) by (nonlinear_arith)
        requires 0 <= i, 0 <= h;
}

/// Whether `c` is a disco colour that was in use at some point during the
/// polls (after at least one of them).
pub open spec fn in_use_during(c: Rgb, start: Rgb, polls: Seq<Option<Rgb>>) -> bool {
    exists|t: int| 0 < t <= polls.len() && c == #[trigger] disco_after(start, polls.take(t))
}

/// Every pixel inside the racoon circle is lifted by a disco colour in use
/// during the polls.
pub open spec fn masked_by_disco(v: FrameView, colors: Seq<Rgb>, start: Rgb, polls: Seq<Option<Rgb>>) -> bool {
    forall|x: int, y: int|
        0 <= x < v.width && 0 <= y < v.height && !outside_circle(v.width, v.height, x, y)
            ==> in_use_during(#[trigger] colors[y * v.width + x], start, polls)
}

/// A colour in use during some polls stays one after a further poll.
proof fn lemma_in_use_extends(c: Rgb, start: Rgb, polls: Seq<Option<Rgb>>, r: Option<Rgb>)
    requires
        in_use_during(c, start, polls),
    ensures
        in_use_during(c, start, polls.push(r)),
{
    let t = choose|t: int| 0 < t <= polls.len() && c == #[trigger] disco_after(start, polls.take(t));
    assert(polls.push(r).take(t) =~= polls.take(t));
}

/// With disco on, every pixel of the colour effect is lifted by the disco
/// colour from before the call or by a colour the call received from the
/// channel; the slider colour plays no part.
pub proof fn lemma_disco_pixels_received(v: FrameView, colors: Seq<Rgb>, start: Rgb, polls: Seq<Option<Rgb>>)
    requires
        lifted_by_disco(v, colors, start, polls),
    ensures
        forall|x: int, y: int|
            0 <= x < v.width && 0 <= y < v.height ==> #[trigger] colors[y * v.width + x] == start
                || exists|i: int| 0 <= i < polls.len() && polls[i] == Some(colors[y * v.width + x]),
{
    assert forall|x: int, y: int|
        0 <= x < v.width && 0 <= y < v.height implies #[trigger] colors[y * v.width + x] == start
        || exists|i: int| 0 <= i < polls.len() && polls[i] == Some(colors[y * v.width + x]) by {
        let t = x * v.height + y + 1;
        lemma_visited_earlier(x, y, v.width as int, 0, v.height as int);
        assert(0 < t <= polls.len());
        let part = polls.take(t);
        assert(colors[y * v.width + x] == disco_after(start, part));
        lemma_disco_after_received(start, part);
        if colors[y * v.width + x] != start {
            let i = choose|i: int|
                0 <= i < part.len() && #[trigger] part[i] == Some(disco_after(start, part));
            assert(polls[i] == part[i]);
        }
    }
}

/// With disco on, every pixel inside the racoon circle is lifted by the disco
/// colour from before the call or by a colour the call received from the
/// channel; the slider colour plays no part.
pub proof fn lemma_masked_disco_pixels_received(v: FrameView, colors: Seq<Rgb>, start: Rgb, polls: Seq<Option<Rgb>>)
    requires
        masked_by_disco(v, colors, start, polls),
    ensures
        forall|x: int, y: int|
            0 <= x < v.width && 0 <= y < v.height && !outside_circle(v.width, v.height, x, y)
                ==> #[trigger] colors[y * v.width + x] == start || exists|i: int|
                0 <= i < polls.len() && polls[i] == Some(colors[y * v.width + x]),
{
    assert forall|x: int, y: int|
        0 <= x < v.width && 0 <= y < v.height && !outside_circle(v.width, v.height, x, y) implies #[trigger] colors[y
        * v.width + x] == start || exists|i: int| 0 <= i < polls.len() && polls[i] == Some(colors[y * v.width + x]) by {
        let c = colors[y * v.width + x];
        assert(in_use_during(c, start, polls));
        let t = choose|t: int| 0 < t <= polls.len() && c == #[trigger] disco_after(start, polls.take(t));
        let part = polls.take(t);
        lemma_disco_after_received(start, part);
        if c != start {
            let i = choose|i: int|
                0 <= i < part.len() && #[trigger] part[i] == Some(disco_after(start, part));
            assert(polls[i] == part[i]);
        }
    }
}

/// The polls a call added to the log.
pub open spec fn added_polls(before: Seq<Option<Rgb>>, after: Seq<Option<Rgb>>) -> Seq<Option<Rgb>> {
    after.subrange(before.len() as int, after.len() as int)
}

/// Every colour of the sequence is `c`.
pub open spec fn all_equal(colors: Seq<Rgb>, c: Rgb) -> bool {
    forall|k: int| 0 <= k < colors.len() ==> #[trigger] colors[k] == c
}

/// The box the zoom follows after a detection outcome.
pub open spec fn next_box(previous: PixelBox, detection: Detection) -> PixelBox {
    match detection {
        Detection::Found(b) => if replaces(previous, b) {
            b
        } else {
            previous
        },
        _ => previous,
    }
}

impl ViewState {
    /// The state the viewer starts in: black lift colour, every effect off,
    /// a disco colour every 300 ms, no face box, no frame shown.
    pub fn new() -> (s: ViewState)
        ensures
            s@ == (ViewModel {
                rgb: Rgb { r: 0, g: 0, b: 0 },
                disco_rgb: Rgb { r: 0, g: 0, b: 0 },
                racoon: false,
                disco: false,
                zoom: false,
                timeout: 300,
                previous_box: PixelBox::empty(),
                frame_count: 0,
            }),
    {
        ViewState {
            rgb: Rgb::black(),
            current_disco_rgb: Rgb::black(),
            is_racoon: false,
            is_disco: false,
            is_zoom: false,
            timeout: 300,
            previous_box: PixelBox::zero(),
            frame_count: 0,
            polls: Ghost(Seq::empty()),
        }
    }

    /// Every answer the disco channel gave so far, oldest first (`None` when
    /// nothing was waiting).
    pub closed spec fn poll_log(self) -> Seq<Option<Rgb>> {
        self.polls@
    }

    /// The colour a pixel is lifted by. With disco off it is the slider
    /// colour. With disco on it is the disco colour, which a colour just
    /// `received` replaces first.
    pub fn effect_color(&mut self, received: Option<Rgb>) -> (c: Rgb)
        ensures
            !old(self)@.disco ==> c == old(self)@.rgb && final(self)@ == old(self)@,
            old(self)@.disco ==> c == (match received {
                Some(n) => n,
                None => old(self)@.disco_rgb,
            }) && final(self)@ == (ViewModel { disco_rgb: c, ..old(self)@ }),
            final(self).poll_log() == old(self).poll_log(),
    {
        if self.is_disco {
            if let Some(n) = received {
                self.current_disco_rgb = n;
            }
            self.current_disco_rgb
        } else {
            self.rgb
        }
    }

    /// The colour effect on one pixel. With disco on, a colour waiting on
    /// `disco_colors` becomes the disco colour first.
    pub fn color_effected_pixel(
        &mut self,
        pixel: Rgba,
        disco_colors: &std::sync::mpsc::Receiver<Rgb>,
    ) -> (out: Rgba)
        ensures
            !old(self)@.disco ==> out == lifted(pixel, old(self)@.rgb) && final(self)@ == old(self)@,
            old(self)@.disco ==> out == lifted(pixel, final(self)@.disco_rgb) && final(self)@ == (
            ViewModel { disco_rgb: final(self)@.disco_rgb, ..old(self)@ }),
            !old(self)@.disco ==> final(self).poll_log() == old(self).poll_log(),
            old(self)@.disco ==> final(self).poll_log().len() == old(self).poll_log().len() + 1
                && final(self).poll_log().drop_last() == old(self).poll_log() && final(self)@.disco_rgb
                == disco_after(old(self)@.disco_rgb, seq![final(self).poll_log().last()]),
    {
        let received = if self.is_disco {
            poll_color(disco_colors)
        } else {
            None
        };
        if self.is_disco {
            self.polls = Ghost(self.polls@.push(received));
        }
        let c = self.effect_color(received);
        proof {
            if old(self)@.disco {
                let one = seq![received];
                assert(self.polls@.drop_last() =~= old(self).poll_log());
                assert(one.drop_last() =~= Seq::<Option<Rgb>>::empty());
                assert(one.last() == received);
                reveal_with_fuel(disco_after, 2);
            }
        }
        lift_pixel(pixel, c)
    }

    /// The colour effect on a whole frame, columns left to right, each from
    /// top to bottom; with disco on, the disco colour may change between any
    /// two pixels as colours arrive on `disco_colors`, and the disco colour
    /// left in the state is the one the last pixel was lifted by.
    pub fn color_effected_image(
        &mut self,
        frame: Frame,
        disco_colors: &std::sync::mpsc::Receiver<Rgb>,
    ) -> (out: Frame)
        ensures
            out@.well_formed(),
            exists|colors: Seq<Rgb>|
                #[trigger] lifted_pointwise(frame@, out@, colors) && (!old(self)@.disco ==> all_equal(
                    colors,
                    old(self)@.rgb,
                )) && (old(self)@.disco && frame@.pixel_count() > 0 ==> colors[frame@.pixel_count()
                    - 1] == final(self)@.disco_rgb) && (old(self)@.disco ==> lifted_by_disco(
                    frame@,
                    colors,
                    old(self)@.disco_rgb,
                    added_polls(old(self).poll_log(), final(self).poll_log()),
                )),
            final(self)@ == (ViewModel { disco_rgb: final(self)@.disco_rgb, ..old(self)@ }),
            !old(self)@.disco || frame@.pixel_count() == 0 ==> final(self)@ == old(self)@,
            !old(self)@.disco ==> final(self).poll_log() == old(self).poll_log(),
            old(self)@.disco ==> final(self).poll_log() == old(self).poll_log() + added_polls(
                old(self).poll_log(),
                final(self).poll_log(),
            ) && final(self)@.disco_rgb == disco_after(
                old(self)@.disco_rgb,
                added_polls(old(self).poll_log(), final(self).poll_log()),
            ),
    {
        let ghost orig = frame@;
        let ghost start = self@;
        let ghost start_log = self.poll_log();
        let ghost mut np: Seq<Option<Rgb>> = Seq::empty();
        let mut f = frame;
        let w = f.width();
        let h = f.height();
        let ghost mut colors: Seq<Rgb> = Seq::new(orig.pixel_count(), |k: int| start.rgb);
        let ghost mut last: int = 0;
        let mut x: u32 = 0;
        while x < w
            invariant
                orig.well_formed(),
                f@.well_formed(),
                f@.width == orig.width == w,
                f@.height == orig.height == h,
                colors.len() == orig.pixel_count(),
                self@ == (ViewModel { disco_rgb: self@.disco_rgb, ..start }),
                !start.disco ==> self@ == start && all_equal(colors, start.rgb),
                x <= w,
                self.poll_log() == start_log + np,
                !start.disco ==> np.len() == 0,
                start.disco ==> np.len() == x * h,
                start.disco ==> self@.disco_rgb == disco_after(start.disco_rgb, np),
                start.disco ==> forall|i: int, j: int|
                    0 <= i < x && 0 <= j < h ==> #[trigger] colors[j * w + i] == disco_after(
                        start.disco_rgb,
                        np.take(i * h + j + 1),
                    ),
                x > 0 && h > 0 ==> last == (h - 1) * w + (x - 1),
                (x == 0 || h == 0) ==> self@ == start,
                start.disco && x > 0 && h > 0 ==> colors[last] == self@.disco_rgb,
                forall|i: int, j: int|
                    0 <= i < x && 0 <= j < h ==> #[trigger] f@.pixel(i, j) == lifted(
                        orig.pixel(i, j),
                        colors[j * w + i],
                    ),
                forall|i: int, j: int|
                    x <= i < w && 0 <= j < h ==> #[trigger] f@.pixel(i, j) == orig.pixel(i, j),
            decreases w - x,
        {
            let mut y: u32 = 0;
            while y < h
                invariant
                    orig.well_formed(),
                    f@.well_formed(),
                    f@.width == orig.width == w,
                    f@.height == orig.height == h,
                    colors.len() == orig.pixel_count(),
                    self@ == (ViewModel { disco_rgb: self@.disco_rgb, ..start }),
                    !start.disco ==> self@ == start && all_equal(colors, start.rgb),
                    x < w,
                    y <= h,
                    self.poll_log() == start_log + np,
                    !start.disco ==> np.len() == 0,
                    start.disco ==> np.len() == x * h + y,
                    start.disco ==> self@.disco_rgb == disco_after(start.disco_rgb, np),
                    start.disco ==> forall|i: int, j: int|
                        ((0 <= i < x && 0 <= j < h) || (i == x && 0 <= j < y)) ==> #[trigger] colors[j
                            * w + i] == disco_after(start.disco_rgb, np.take(i * h + j + 1)),
                    y > 0 ==> last == (y - 1) * w + x,
                    y == 0 && x > 0 && h > 0 ==> last == (h - 1) * w + (x - 1),
                    (x == 0 || h == 0) && y == 0 ==> self@ == start,
                    start.disco && (y > 0 || (x > 0 && h > 0)) ==> colors[last] == self@.disco_rgb,
                    forall|i: int, j: int|
                        (0 <= i < x && 0 <= j < h) || (i == x && 0 <= j < y) ==> #[trigger] f@.pixel(
                            i,
                            j,
                        ) == lifted(orig.pixel(i, j), colors[j * w + i]),
                    forall|i: int, j: int|
                        (x < i < w && 0 <= j < h) || (i == x && y <= j < h) ==> #[trigger] f@.pixel(
                            i,
                            j,
                        ) == orig.pixel(i, j),
                decreases h - y,
            {
                proof {
                    crate::frame::lemma_pixel_index(x as int, y as int, w as int, h as int);
                }
                let p = f.get_pixel(x, y);
                let ghost before = f@;
                let ghost np_before = np;
                let ghost disco_before = self@.disco_rgb;
                let q = self.color_effected_pixel(p, disco_colors);
                proof {
                    let c = if start.disco { self@.disco_rgb } else { start.rgb };
                    colors = colors.update(y * w + x, c);
                    last = y * w + x;
                    if start.disco {
                        let r = self.poll_log().last();
                        assert(self.poll_log() =~= self.poll_log().drop_last().push(r));
                        np = np.push(r);
                        assert(self.poll_log() =~= start_log + np);
                        lemma_disco_after_push(start.disco_rgb, np_before, r);
                        assert(np.take(np.len() as int) =~= np);
                        assert(x * h + y + 1 == np.len());
                        assert forall|i: int, j: int|
                            ((0 <= i < x && 0 <= j < h) || (i == x && 0 <= j < y + 1)) implies #[trigger] colors[j
                            * w + i] == disco_after(start.disco_rgb, np.take(i * h + j + 1)) by {
                            crate::frame::lemma_pixel_index(i, j, w as int, h as int);
                            if i != x || j != y {
                                crate::frame::lemma_distinct_index(i, j, x as int, y as int, w as int);
                                lemma_visited_earlier(i, j, x as int, y as int, h as int);
                                assert(np.take(i * h + j + 1) =~= np_before.take(i * h + j + 1));
                            }
                        }
                    }
                }
                f.put_pixel(x, y, q);
                proof {
                    lemma_other_pixels_kept(before, f@, x as int, y as int);
                    assert forall|i: int, j: int|
                        (0 <= i < x && 0 <= j < h) || (i == x && 0 <= j < y + 1) implies #[trigger] f@.pixel(
                        i,
                        j,
                    ) == lifted(orig.pixel(i, j), colors[j * w + i]) by {
                        crate::frame::lemma_pixel_index(i, j, w as int, h as int);
                        if i != x || j != y {
                            crate::frame::lemma_distinct_index(i, j, x as int, y as int, w as int);
                        }
                    }
                }
                y = y + 1;
            }
            proof {
                assert((x + 1) * h == x * h + h) by (nonlinear_arith);
            }
            x = x + 1;
        }
        proof {
            assert forall|k: int| 0 <= k < orig.pixel_count() implies #[trigger] f@.pixel_at(k) == lifted(
                orig.pixel_at(k),
                colors[k],
            ) by {
                crate::frame::lemma_pixel_coords(k, w as int, h as int);
                let i = k % (w as int);
                let j = k / (w as int);
                assert(f@.pixel(i, j) == lifted(orig.pixel(i, j), colors[j * w + i]));
            }
            assert(lifted_pointwise(orig, f@, colors));
            assert(w * h == orig.pixel_count());
            assert(added_polls(start_log, self.poll_log()) =~= np);
            if w > 0 && h > 0 {
                assert((h - 1) * w + (w - 1) == w * h - 1) by (nonlinear_arith);
            } else {
                assert(w * h == 0) by (nonlinear_arith)
                    requires w == 0 || h == 0;
            }
        }
        f
    }

    /// The racoon look on an already rotated frame: outside the centred
    /// circle opaque black, inside the colour effect (see
    /// `color_effected_image`); the disco colour is only looked at for pixels
    /// inside the circle.
    pub fn racoon_style_image(
        &mut self,
        rotated: Frame,
        disco_colors: &std::sync::mpsc::Receiver<Rgb>,
    ) -> (out: Frame)
        requires
            circle_fits_i32(rotated@.width, rotated@.height),
        ensures
            out@.well_formed(),
            exists|colors: Seq<Rgb>|
                #[trigger] masked_pointwise(rotated@, out@, colors) && (!old(self)@.disco ==> all_equal(
                    colors,
                    old(self)@.rgb,
                )) && (old(self)@.disco ==> disco_left_by_mask(
                    rotated@,
                    colors,
                    old(self)@.disco_rgb,
                    final(self)@.disco_rgb,
                )) && (old(self)@.disco ==> masked_by_disco(
                    rotated@,
                    colors,
                    old(self)@.disco_rgb,
                    added_polls(old(self).poll_log(), final(self).poll_log()),
                )),
            final(self)@ == (ViewModel { disco_rgb: final(self)@.disco_rgb, ..old(self)@ }),
            !old(self)@.disco ==> final(self)@ == old(self)@,
            !old(self)@.disco ==> final(self).poll_log() == old(self).poll_log(),
            old(self)@.disco ==> final(self).poll_log() == old(self).poll_log() + added_polls(
                old(self).poll_log(),
                final(self).poll_log(),
            ) && final(self)@.disco_rgb == disco_after(
                old(self)@.disco_rgb,
                added_polls(old(self).poll_log(), final(self).poll_log()),
            ),
    {
        let ghost orig = rotated@;
        let ghost start = self@;
        let ghost start_log = self.poll_log();
        let ghost mut np: Seq<Option<Rgb>> = Seq::empty();
        let mut f = rotated;
        let w = f.width();
        let h = f.height();
        let radius: i32 = (h / 2) as i32;
        let cx: i32 = (w / 2) as i32;
        let cy: i32 = (h / 2) as i32;
        let ghost mut colors: Seq<Rgb> = Seq::new(orig.pixel_count(), |k: int| start.rgb);
        let ghost mut any: bool = false;
        let ghost mut lx: int = 0;
        let ghost mut ly: int = 0;
        let mut x: u32 = 0;
        while x < w
            invariant
                orig.well_formed(),
                f@.well_formed(),
                f@.width == orig.width == w,
                f@.height == orig.height == h,
                circle_fits_i32(w as nat, h as nat),
                radius == h / 2,
                cx == w / 2,
                cy == h / 2,
                colors.len() == orig.pixel_count(),
                self@ == (ViewModel { disco_rgb: self@.disco_rgb, ..start }),
                !start.disco ==> self@ == start && all_equal(colors, start.rgb),
                x <= w,
                self.poll_log() == start_log + np,
                !start.disco ==> np.len() == 0,
                start.disco ==> self@.disco_rgb == disco_after(start.disco_rgb, np),
                start.disco ==> forall|i: int, j: int|
                    0 <= i < x && 0 <= j < h && !outside_circle(w as nat, h as nat, i, j)
                        ==> in_use_during(#[trigger] colors[j * w + i], start.disco_rgb, np),
                any ==> 0 <= lx < w && 0 <= ly < h && !outside_circle(w as nat, h as nat, lx, ly),
                any ==> forall|i: int, j: int|
                    0 <= i < x && 0 <= j < h && !#[trigger] outside_circle(w as nat, h as nat, i, j)
                        ==> visited_by(i, j, lx, ly),
                !any ==> self@ == start,
                !any ==> forall|i: int, j: int|
                    0 <= i < x && 0 <= j < h ==> #[trigger] outside_circle(w as nat, h as nat, i, j),
                any && start.disco ==> colors[ly * w + lx] == self@.disco_rgb,
                forall|i: int, j: int|
                    0 <= i < x && 0 <= j < h ==> #[trigger] f@.pixel(i, j) == (if outside_circle(
                        orig.width,
                        orig.height,
                        i,
                        j,
                    ) {
                        opaque_black()
                    } else {
                        lifted(orig.pixel(i, j), colors[j * w + i])
                    }),
                forall|i: int, j: int|
                    x <= i < w && 0 <= j < h ==> #[trigger] f@.pixel(i, j) == orig.pixel(i, j),
            decreases w - x,
        {
            let mut y: u32 = 0;
            while y < h
                invariant
                    orig.well_formed(),
                    f@.well_formed(),
                    f@.width == orig.width == w,
                    f@.height == orig.height == h,
                    circle_fits_i32(w as nat, h as nat),
                    radius == h / 2,
                    cx == w / 2,
                    cy == h / 2,
                    colors.len() == orig.pixel_count(),
                    self@ == (ViewModel { disco_rgb: self@.disco_rgb, ..start }),
                    !start.disco ==> self@ == start && all_equal(colors, start.rgb),
                    x < w,
                    y <= h,
                    self.poll_log() == start_log + np,
                    !start.disco ==> np.len() == 0,
                    start.disco ==> self@.disco_rgb == disco_after(start.disco_rgb, np),
                    start.disco ==> forall|i: int, j: int|
                        ((0 <= i < x && 0 <= j < h) || (i == x && 0 <= j < y)) && !outside_circle(
                            w as nat,
                            h as nat,
                            i,
                            j,
                        ) ==> in_use_during(#[trigger] colors[j * w + i], start.disco_rgb, np),
                    any ==> 0 <= lx < w && 0 <= ly < h && !outside_circle(w as nat, h as nat, lx, ly),
                    any ==> forall|i: int, j: int|
                        ((0 <= i < x && 0 <= j < h) || (i == x && 0 <= j < y)) && !#[trigger] outside_circle(
                            w as nat,
                            h as nat,
                            i,
                            j,
                        ) ==> visited_by(i, j, lx, ly),
                    !any ==> self@ == start,
                    !any ==> forall|i: int, j: int|
                        (0 <= i < x && 0 <= j < h) || (i == x && 0 <= j < y) ==> #[trigger] outside_circle(
                            w as nat,
                            h as nat,
                            i,
                            j,
                        ),
                    any && start.disco ==> colors[ly * w + lx] == self@.disco_rgb,
                    forall|i: int, j: int|
                        (0 <= i < x && 0 <= j < h) || (i == x && 0 <= j < y) ==> #[trigger] f@.pixel(
                            i,
                            j,
                        ) == (if outside_circle(orig.width, orig.height, i, j) {
                            opaque_black()
                        } else {
                            lifted(orig.pixel(i, j), colors[j * w + i])
                        }),
                    forall|i: int, j: int|
                        (x < i < w && 0 <= j < h) || (i == x && y <= j < h) ==> #[trigger] f@.pixel(
                            i,
                            j,
                        ) == orig.pixel(i, j),
                decreases h - y,
            {
                proof {
                    crate::frame::lemma_pixel_index(x as int, y as int, w as int, h as int);
                    lemma_circle_terms_fit(x as int, y as int, w as int, h as int);
                }
                let dx: i32 = x as i32 - cx;
                let dy: i32 = y as i32 - cy;
                assert(dx * dx + dy * dy <= i32::MAX);
                assert(0 <= dx * dx <= i32::MAX);
                assert(0 <= dy * dy <= i32::MAX);
                let ghost before = f@;
                if dx * dx + dy * dy >= radius * radius {
                    f.put_pixel(x, y, Rgba::opaque_black());
                } else {
                    let p = f.get_pixel(x, y);
                    let ghost np_before = np;
                    let q = self.color_effected_pixel(p, disco_colors);
                    proof {
                        let c = if start.disco { self@.disco_rgb } else { start.rgb };
                        colors = colors.update(y * w + x, c);
                        if start.disco {
                            let r = self.poll_log().last();
                            assert(self.poll_log() =~= self.poll_log().drop_last().push(r));
                            np = np.push(r);
                            assert(self.poll_log() =~= start_log + np);
                            lemma_disco_after_push(start.disco_rgb, np_before, r);
                            assert(np.take(np.len() as int) =~= np);
                            assert(c == disco_after(start.disco_rgb, np.take(np.len() as int)));
                            assert(in_use_during(c, start.disco_rgb, np));
                            assert forall|i: int, j: int|
                                ((0 <= i < x && 0 <= j < h) || (i == x && 0 <= j < y + 1)) && !outside_circle(
                                    w as nat,
                                    h as nat,
                                    i,
                                    j,
                                ) implies in_use_during(#[trigger] colors[j * w + i], start.disco_rgb, np) by {
                                crate::frame::lemma_pixel_index(i, j, w as int, h as int);
                                if i != x || j != y {
                                    crate::frame::lemma_distinct_index(i, j, x as int, y as int, w as int);
                                    lemma_in_use_extends(colors[j * w + i], start.disco_rgb, np_before, r);
                                }
                            }
                        }
                        any = true;
                        lx = x as int;
                        ly = y as int;
                    }
                    f.put_pixel(x, y, q);
                }
                proof {
                    lemma_other_pixels_kept(before, f@, x as int, y as int);
                    assert forall|i: int, j: int|
                        (0 <= i < x && 0 <= j < h) || (i == x && 0 <= j < y + 1) implies #[trigger] f@.pixel(
                        i,
                        j,
                    ) == (if outside_circle(orig.width, orig.height, i, j) {
                        opaque_black()
                    } else {
                        lifted(orig.pixel(i, j), colors[j * w + i])
                    }) by {
                        crate::frame::lemma_pixel_index(i, j, w as int, h as int);
                        if i != x || j != y {
                            crate::frame::lemma_distinct_index(i, j, x as int, y as int, w as int);
                        }
                    }
                }
                y = y + 1;
            }
            x = x + 1;
        }
        proof {
            assert(masked_pointwise(orig, f@, colors));
            assert(added_polls(start_log, self.poll_log()) =~= np);
            if any {
                assert(last_inside(orig, lx, ly));
            } else {
                assert(all_outside(orig));
            }
        }
        f
    }

    /// The face zoom for one frame. A failed detection passes the frame on
    /// untouched. Otherwise a found face may replace the box being followed
    /// (see `replaces`), and the frame is zoomed onto the box followed.
    pub fn zoomed_face(&mut self, frame: Frame, detection: Detection) -> (out: Frame)
        requires
            fits_i32(old(self)@.previous_box),
            detection matches Detection::Found(b) ==> fits_i32(b),
        ensures
            final(self)@ == (ViewModel {
                previous_box: next_box(old(self)@.previous_box, detection),
                ..old(self)@
            }),
            fits_i32(final(self)@.previous_box),
            detection is Failed ==> out@ == frame@,
            !(detection is Failed) ==> zoom_of(frame@, final(self)@.previous_box, out@),
    {
        match detection {
            Detection::Failed => {
                return frame;
            },
            Detection::Found(b) => {
                if box_replaces(self.previous_box, b) {
                    self.previous_box = b;
                }
            },
            Detection::Skipped => {},
        }
        frame.zoomed(self.previous_box)
    }

    /// Whether the face detector runs on the current frame: every fifth
    /// frame.
    pub fn detection_due(&self) -> (due: bool)
        ensures
            due == (self@.frame_count % 5 == 0),
    {
        self.frame_count % 5 == 0
    }

    /// Counts one more frame shown.
    pub fn advance_frame(&mut self)
        requires
            old(self)@.frame_count < u32::MAX,
        ensures
            final(self)@ == (ViewModel { frame_count: (old(self)@.frame_count + 1) as u32, ..old(self)@ }),
    {
        self.frame_count = self.frame_count + 1;
    }

    /// The colour effects for one frame: the racoon look when it is on (the
    /// frame is then expected already rotated), the plain colour effect
    /// otherwise.
    pub fn render_effects(
        &mut self,
        frame: Frame,
        disco_colors: &std::sync::mpsc::Receiver<Rgb>,
    ) -> (out: Frame)
        requires
            old(self)@.racoon ==> circle_fits_i32(frame@.width, frame@.height),
        ensures
            out@.well_formed(),
            old(self)@.racoon ==> exists|colors: Seq<Rgb>|
                #[trigger] masked_pointwise(frame@, out@, colors) && (!old(self)@.disco ==> all_equal(
                    colors,
                    old(self)@.rgb,
                )) && (old(self)@.disco ==> disco_left_by_mask(
                    frame@,
                    colors,
                    old(self)@.disco_rgb,
                    final(self)@.disco_rgb,
                )) && (old(self)@.disco ==> masked_by_disco(
                    frame@,
                    colors,
                    old(self)@.disco_rgb,
                    added_polls(old(self).poll_log(), final(self).poll_log()),
                )),
            !old(self)@.racoon ==> exists|colors: Seq<Rgb>|
                #[trigger] lifted_pointwise(frame@, out@, colors) && (!old(self)@.disco ==> all_equal(
                    colors,
                    old(self)@.rgb,
                )) && (old(self)@.disco && frame@.pixel_count() > 0 ==> colors[frame@.pixel_count()
                    - 1] == final(self)@.disco_rgb) && (old(self)@.disco ==> lifted_by_disco(
                    frame@,
                    colors,
                    old(self)@.disco_rgb,
                    added_polls(old(self).poll_log(), final(self).poll_log()),
                )),
            !old(self)@.disco ==> final(self).poll_log() == old(self).poll_log(),
            old(self)@.disco ==> final(self).poll_log() == old(self).poll_log() + added_polls(
                old(self).poll_log(),
                final(self).poll_log(),
            ) && final(self)@.disco_rgb == disco_after(
                old(self)@.disco_rgb,
                added_polls(old(self).poll_log(), final(self).poll_log()),
            ),
            final(self)@ == (ViewModel { disco_rgb: final(self)@.disco_rgb, ..old(self)@ }),
            !old(self)@.disco ==> final(self)@ == old(self)@,
    {
        if self.is_racoon {
            self.racoon_style_image(frame, disco_colors)
        } else {
            self.color_effected_image(frame, disco_colors)
        }
    }

    pub fn rgb(&self) -> (c: Rgb)
        ensures
            c == self@.rgb,
    {
        self.rgb
    }

    /// Sets the lift colour from the three sliders.
    pub fn set_rgb(&mut self, r: u8, g: u8, b: u8)
        ensures
            final(self)@ == (ViewModel { rgb: Rgb { r, g, b }, ..old(self)@ }),
    {
        self.rgb.r = r;
        self.rgb.g = g;
        self.rgb.b = b;
    }

    pub fn disco_rgb(&self) -> (c: Rgb)
        ensures
            c == self@.disco_rgb,
    {
        self.current_disco_rgb
    }

    pub fn is_racoon(&self) -> (on: bool)
        ensures
            on == self@.racoon,
    {
        self.is_racoon
    }

    pub fn set_racoon(&mut self, on: bool)
        ensures
            final(self)@ == (ViewModel { racoon: on, ..old(self)@ }),
    {
        self.is_racoon = on;
    }

    pub fn is_disco(&self) -> (on: bool)
        ensures
            on == self@.disco,
    {
        self.is_disco
    }

    pub fn set_disco(&mut self, on: bool)
        ensures
            final(self)@ == (ViewModel { disco: on, ..old(self)@ }),
    {
        self.is_disco = on;
    }

    pub fn is_zoom(&self) -> (on: bool)
        ensures
            on == self@.zoom,
    {
        self.is_zoom
    }

    pub fn set_zoom(&mut self, on: bool)
        ensures
            final(self)@ == (ViewModel { zoom: on, ..old(self)@ }),
    {
        self.is_zoom = on;
    }

    pub fn timeout(&self) -> (t: u64)
        ensures
            t == self@.timeout,
    {
        self.timeout
    }

    pub fn set_timeout(&mut self, t: u64)
        ensures
            final(self)@ == (ViewModel { timeout: t, ..old(self)@ }),
    {
        self.timeout = t;
    }

    pub fn previous_box(&self) -> (b: PixelBox)
        ensures
            b == self@.previous_box,
    {
        self.previous_box
    }

    pub fn frame_count(&self) -> (n: u32)
        ensures
            n == self@.frame_count,
    {
        self.frame_count
    }
}

/// After any detection the zoom follows either the box it followed before or
/// the face just found; a face found while no box is followed is always
/// taken, and a detection that found nothing (or failed) keeps the box.
pub proof fn lemma_next_box_choices(previous: PixelBox, detection: Detection)
    ensures
        next_box(previous, detection) == previous || (detection matches Detection::Found(b)
            && next_box(previous, detection) == b),
        previous == PixelBox::empty() ==> (detection matches Detection::Found(b) ==> next_box(
            previous,
            detection,
        ) == b),
        !(detection is Found) ==> next_box(previous, detection) == previous,
        fits_i32(previous) && (detection matches Detection::Found(b) ==> fits_i32(b)) ==> fits_i32(
            next_box(previous, detection),
        ),
{
}

} // verus!
