use vstd::prelude::*;
use vstd::std_specs::cmp::PartialEqSpec;

verus! {

/// `T::default()` always returns `d`.
pub open spec fn default_is<T: Default>(d: T) -> bool {
    forall|e: T| #[trigger] call_ensures(T::default, (), e) ==> e == d
}

/// The default of a `u32` coordinate is zero.
pub proof fn lemma_u32_default_is_zero()
    ensures
        default_is(0u32),
{
}

/// A detection box given by its two corners, in whatever unit the detector
/// uses.
#[derive(Default, Clone)]
pub struct DetectionRect<T> {
    pub x_min: T,
    pub y_min: T,
    pub x_max: T,
    pub y_max: T,
}

impl<T> DetectionRect<T> {
    /// The box with its top-left corner moved to (`x`, `y`).
    pub open spec fn with_min(self, x: T, y: T) -> Self {
        DetectionRect { x_min: x, y_min: y, ..self }
    }

    /// The box with its bottom-right corner moved to (`x`, `y`).
    pub open spec fn with_max(self, x: T, y: T) -> Self {
        DetectionRect { x_max: x, y_max: y, ..self }
    }
}

/// Setting both corners fixes the whole box, whatever it was before and in
/// whichever order the corners are set.
pub proof fn lemma_set_both_corners<T>(r: DetectionRect<T>, x0: T, y0: T, x1: T, y1: T)
    ensures
        r.with_min(x0, y0).with_max(x1, y1) == (DetectionRect { x_min: x0, y_min: y0, x_max: x1, y_max: y1 }),
        r.with_max(x1, y1).with_min(x0, y0) == r.with_min(x0, y0).with_max(x1, y1),
{
}

impl<T: Default + PartialEq + Clone> DetectionRect<T> {
    /// Sets the top-left corner and hands the box back for chaining.
    pub fn set_min(&mut self, x: T, y: T) -> (r: &mut Self)
        ensures
            *r == old(self).with_min(x, y),
            *final(self) == *final(r),
    {
        self.x_min = x;
        self.y_min = y;
        self
    }

    /// Sets the bottom-right corner and hands the box back for chaining.
    pub fn set_max(&mut self, x: T, y: T) -> (r: &mut Self)
        ensures
            *r == old(self).with_max(x, y),
            *final(self) == *final(r),
    {
        self.x_max = x;
        self.y_max = y;
        self
    }

    /// Whether all four coordinates equal `T::default()` (the box was never
    /// set).
    pub fn is_default(&self) -> (r: bool)
        ensures
            forall|d: T|
                #[trigger] default_is(d) ==> (
                T::obeys_eq_spec() ==> r == (self.x_min.eq_spec(&d) && self.y_min.eq_spec(&d)
                    && self.x_max.eq_spec(&d) && self.y_max.eq_spec(&d))),
    {
        let d1 = T::default();
        let d2 = T::default();
        let d3 = T::default();
        let d4 = T::default();
        let r = self.x_min == d1 && self.y_min == d2 && self.x_max == d3 && self.y_max == d4;
        assert(T::obeys_eq_spec() ==> r == (self.x_min.eq_spec(&d1) && self.y_min.eq_spec(&d2)
            && self.x_max.eq_spec(&d3) && self.y_max.eq_spec(&d4)));
        assert(call_ensures(T::default, (), d1) && call_ensures(T::default, (), d2)
            && call_ensures(T::default, (), d3) && call_ensures(T::default, (), d4));
        r
    }
}

} // verus!
