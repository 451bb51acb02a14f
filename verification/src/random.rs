use rand::Rng;
use vstd::prelude::*;

verus! {

/// `rand::rngs::ThreadRng`: the handle to a thread's generator, carried
/// through without looking inside.
#[verifier::external_type_specification]
#[verifier::external_body]
pub struct ExThreadRng(rand::rngs::ThreadRng);

/// Number of distinct draws: a draw `d` stands for the threshold
/// `d / DRAW_RANGE`, so draws cover `[0, 1)` in steps of `2^-24`.
pub const DRAW_RANGE: u32 = 0x100_0000;

/// `rand::thread_rng`: a handle to the generator of the current thread,
/// which the operating system seeds. Nothing is known of its state.
#[verifier::external_body]
pub(crate) fn thread_generator() -> (rng: rand::rngs::ThreadRng) {
    rand::thread_rng()
}

/// `Rng::gen::<u32>`: the next 32 bits of the generator. Any value may come.
#[verifier::external_body]
fn next_bits(rng: &mut rand::rngs::ThreadRng) -> (bits: u32) {
    rng.gen::<u32>()
}

/// The next draw from the generator: the upper 24 bits of its next 32, so
/// every value below `DRAW_RANGE` is equally likely.
pub(crate) fn random_draw(rng: &mut rand::rngs::ThreadRng) -> (draw: u32)
    ensures
        draw < DRAW_RANGE,
{
    let bits = next_bits(rng);
    let draw = draw_from_bits(bits);
    draw
}

/// The draw that 32 generator bits stand for: their upper 24 bits, which is
/// the bits divided by 256, rounded down. Each draw comes from exactly 256
/// bit patterns, so uniform bits give uniform draws.
pub fn draw_from_bits(bits: u32) -> (draw: u32)
    ensures
        draw == bits / 256,
        draw < DRAW_RANGE,
{
    assert(bits >> 8 == bits / 256 && bits >> 8 < 0x100_0000u32) by (bit_vector);
    bits >> 8
}

} // verus!
