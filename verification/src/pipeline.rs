use crate::quantize::{
    apply_bayer, apply_dithering, apply_monochrome, apply_palette, bayer_of, dithering_of,
    lemma_bayer_twice, lemma_dithering_twice, lemma_monochrome_twice, lemma_palette_twice,
    monochrome_of, palette_of,
};
use crate::raster::Raster;
use crate::threshold::Threshold;
use vstd::prelude::*;

verus! {

/// The four transforms a raster can be put through.
#[derive(Clone, Copy, Debug, PartialEq, Eq, Structural)]
pub enum Operation {
    Monochrome,
    Palette,
    Dithering,
    Bayer,
}

/// The matrix order that ordered dithering uses when selected by name.
pub const PIPELINE_BAYER_ORDER: u32 = 1;

/// The operation a name selects: `monochrome`, `palette`, `dithering` or
/// `bayer`, spelled exactly so. Every other name selects nothing.
pub open spec fn operation_named(name: Seq<char>) -> Option<Operation> {
    if name == "monochrome"@ {
        Some(Operation::Monochrome)
    } else if name == "palette"@ {
        Some(Operation::Palette)
    } else if name == "dithering"@ {
        Some(Operation::Dithering)
    } else if name == "bayer"@ {
        Some(Operation::Bayer)
    } else {
        None
    }
}

/// What an operation makes of an image: the relation between its result
/// `out` and its input `image`. Only thresholding reads the threshold.
pub open spec fn result_of(
    operation: Operation,
    out: Raster,
    image: Raster,
    threshold: Threshold,
) -> bool {
    match operation {
        Operation::Monochrome => monochrome_of(out, image, threshold),
        Operation::Palette => palette_of(out, image),
        Operation::Dithering => dithering_of(out, image),
        Operation::Bayer => bayer_of(out, image, PIPELINE_BAYER_ORDER as nat),
    }
}

/// Reads an operation's name.
pub fn parse_operation(name: &str) -> (operation: Option<Operation>)
    ensures
        operation == operation_named(name@),
{
    let given = name.to_owned();
    if given == "monochrome".to_owned() {
        Some(Operation::Monochrome)
    } else if given == "palette".to_owned() {
        Some(Operation::Palette)
    } else if given == "dithering".to_owned() {
        Some(Operation::Dithering)
    } else if given == "bayer".to_owned() {
        Some(Operation::Bayer)
    } else {
        None
    }
}

/// Puts an image through one operation.
pub fn apply_operation(operation: Operation, image: Raster, threshold: Threshold) -> (out: Raster)
    ensures
        result_of(operation, out, image, threshold),
{
    match operation {
        Operation::Monochrome => apply_monochrome(image, threshold),
        Operation::Palette => apply_palette(image),
        Operation::Dithering => apply_dithering(image),
        Operation::Bayer => apply_bayer(image, PIPELINE_BAYER_ORDER),
    }
}

/// Puts an image through the operation that `operation` names. A name that
/// selects no operation is not an error: the answer is `None` and there is
/// no image to write.
pub fn process_image(image: Raster, operation: &str, threshold: Threshold) -> (processed: Option<
    Raster,
>)
    ensures
        processed is Some <==> operation_named(operation@) is Some,
        processed matches Some(out) ==> result_of(
            operation_named(operation@).unwrap(),
            out,
            image,
            threshold,
        ),
{
    match parse_operation(operation) {
        Some(selected) => Some(apply_operation(selected, image, threshold)),
        None => None,
    }
}

/// No operation changes the width or the height of an image.
pub proof fn lemma_operation_keeps_size(
    operation: Operation,
    image: Raster,
    out: Raster,
    threshold: Threshold,
)
    requires
        result_of(operation, out, image, threshold),
    ensures
        out.same_size(image),
{
}

/// Putting an image through the same operation a second time gives the
/// image that the first pass gave.
pub proof fn lemma_operation_twice(
    operation: Operation,
    image: Raster,
    once: Raster,
    twice: Raster,
    threshold: Threshold,
)
    requires
        result_of(operation, once, image, threshold),
        result_of(operation, twice, once, threshold),
    ensures
        twice.same_image(once),
{
    match operation {
        Operation::Monochrome => lemma_monochrome_twice(image, once, twice, threshold),
        Operation::Palette => lemma_palette_twice(image, once, twice),
        Operation::Dithering => lemma_dithering_twice(image, once, twice),
        Operation::Bayer => lemma_bayer_twice(image, once, twice, PIPELINE_BAYER_ORDER as nat),
    }
}

} // verus!
