use vstd::prelude::*;

use crate::color::Rgb;

verus! {

#[verifier::external_type_specification]
#[verifier::external_body]
#[verifier::reject_recursive_types(T)]
pub struct ExReceiver<T>(std::sync::mpsc::Receiver<T>);

/// Takes the next colour waiting on the channel, if any, with
/// `std::sync::mpsc::Receiver::try_recv` (an empty or disconnected channel
/// gives `None`). What arrives depends on the sending thread's timing, so
/// nothing is stated of it.
#[verifier::external_body]
pub(crate) fn poll_color(colors: &std::sync::mpsc::Receiver<Rgb>) -> (c: Option<Rgb>) {
    colors.try_recv().ok()
}

/// Draws a number uniformly from `low..=high` with `rand::random_range`
/// (thread-local generator). The result lies in the range; the range must not
/// be empty, or the call panics.
#[verifier::external_body]
fn random_in_range(low: u8, high: u8) -> (v: u8)
    requires
        low <= high,
    ensures
        low <= v <= high,
{
    rand::random_range(low..=high)
}

/// Whether a colour is one that the disco effect may pick: every channel
/// between 10 and 200.
pub open spec fn disco_color(c: Rgb) -> bool {
    10 <= c.r <= 200 && 10 <= c.g <= 200 && 10 <= c.b <= 200
}

/// A random disco colour: red, green and blue each drawn from 10..=200.
pub fn random_disco_color() -> (c: Rgb)
    ensures
        disco_color(c),
{
    let mut rgb = Rgb::black();
    rgb.r = random_in_range(10, 200);
    rgb.g = random_in_range(10, 200);
    rgb.b = random_in_range(10, 200);
    rgb
}

} // verus!
