use vstd::prelude::*;

use crate::color::Rgb;

verus! {

/// Which effects are switched on.
#[derive(Clone, Copy)]
pub struct EffectsActivationConfig {
    is_zoom: bool,
    is_racoon: bool,
    is_disco: bool,
}

impl EffectsActivationConfig {
    pub closed spec fn zoom_on(self) -> bool {
        self.is_zoom
    }

    pub closed spec fn racoon_on(self) -> bool {
        self.is_racoon
    }

    pub closed spec fn disco_on(self) -> bool {
        self.is_disco
    }

    pub fn new(is_zoom: bool, is_racoon: bool, is_disco: bool) -> (c: Self)
        ensures
            c.zoom_on() == is_zoom,
            c.racoon_on() == is_racoon,
            c.disco_on() == is_disco,
    {
        Self { is_zoom, is_racoon, is_disco }
    }
}

impl Default for EffectsActivationConfig {
    /// Every effect switched off.
    fn default() -> (c: Self)
        ensures
            !c.zoom_on(),
            !c.racoon_on(),
            !c.disco_on(),
    {
        Self::new(false, false, false)
    }
}

/// The colour and the switches of the effects applied to the camera image.
/// (The zoom factor and the rotation angle are floating-point settings and
/// are kept beside this by the application.)
#[derive(Clone, Copy)]
pub struct EffectsConfig {
    activations: EffectsActivationConfig,
    rgb: Rgb,
}

impl EffectsConfig {
    /// The colour that the colour effect lifts pixels to.
    pub closed spec fn lift_color(self) -> Rgb {
        self.rgb
    }

    /// The effect switches.
    pub closed spec fn switches(self) -> EffectsActivationConfig {
        self.activations
    }

    pub fn color(&self) -> (c: Rgb)
        ensures
            c == self.lift_color(),
    {
        self.rgb
    }

    pub fn set_color(&mut self, rgb: Rgb)
        ensures
            final(self).lift_color() == rgb,
            final(self).switches() == old(self).switches(),
    {
        self.rgb = rgb;
    }

    pub fn set_red(&mut self, r: u8)
        ensures
            final(self).lift_color() == (Rgb { r, ..old(self).lift_color() }),
            final(self).switches() == old(self).switches(),
    {
        self.rgb.r = r;
    }

    pub fn set_green(&mut self, g: u8)
        ensures
            final(self).lift_color() == (Rgb { g, ..old(self).lift_color() }),
            final(self).switches() == old(self).switches(),
    {
        self.rgb.g = g;
    }

    pub fn set_blue(&mut self, b: u8)
        ensures
            final(self).lift_color() == (Rgb { b, ..old(self).lift_color() }),
            final(self).switches() == old(self).switches(),
    {
        self.rgb.b = b;
    }

    pub fn is_zoom(&self) -> (on: bool)
        ensures
            on == self.switches().zoom_on(),
    {
        self.activations.is_zoom
    }

    pub fn is_disco(&self) -> (on: bool)
        ensures
            on == self.switches().disco_on(),
    {
        self.activations.is_disco
    }

    pub fn is_racoon(&self) -> (on: bool)
        ensures
            on == self.switches().racoon_on(),
    {
        self.activations.is_racoon
    }

    /// Takes over all three switches.
    pub fn update_activations(&mut self, activations: EffectsActivationConfig)
        ensures
            final(self).switches().zoom_on() == activations.zoom_on(),
            final(self).switches().racoon_on() == activations.racoon_on(),
            final(self).switches().disco_on() == activations.disco_on(),
            final(self).lift_color() == old(self).lift_color(),
    {
        self.activations.is_disco = activations.is_disco;
        self.activations.is_racoon = activations.is_racoon;
        self.activations.is_zoom = activations.is_zoom;
    }
}

impl Default for EffectsConfig {
    /// Every effect off and the lift colour black (which changes nothing).
    fn default() -> (c: Self)
        ensures
            c.lift_color() == (Rgb { r: 0, g: 0, b: 0 }),
            !c.switches().zoom_on(),
            !c.switches().racoon_on(),
            !c.switches().disco_on(),
    {
        Self { activations: EffectsActivationConfig::new(false, false, false), rgb: Rgb::black() }
    }
}

/// Setting the three channels one by one gives the colour made of them,
/// whatever the colour was before.
pub proof fn lemma_channels_make_color(c: Rgb, r: u8, g: u8, b: u8)
    ensures
        (Rgb { b, ..(Rgb { g, ..(Rgb { r, ..c }) }) }) == (Rgb { r, g, b }),
{
}

} // verus!
