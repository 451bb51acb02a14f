use dither::{
    apply_bayer, apply_monochrome, apply_operation, apply_palette, parse_operation, process_image,
    Color, Operation, Raster, Threshold, PIPELINE_BAYER_ORDER,
};

fn ramp() -> Raster {
    let mut raster = Raster::new(4, 4).unwrap();
    for y in 0..4u32 {
        for x in 0..4u32 {
            let v = ((y * 4 + x) * 17) as u8;
            assert!(raster.set(x, y, Color::new(v, 255 - v, v / 2)));
        }
    }
    raster
}

fn cells_of(raster: &Raster) -> Vec<Color> {
    let (width, height) = raster.dimensions();
    let mut cells = Vec::new();
    for y in 0..height {
        for x in 0..width {
            cells.push(raster.get(x, y).unwrap());
        }
    }
    cells
}

#[test]
fn the_four_names_select_the_four_operations() {
    assert_eq!(parse_operation("monochrome"), Some(Operation::Monochrome));
    assert_eq!(parse_operation("palette"), Some(Operation::Palette));
    assert_eq!(parse_operation("dithering"), Some(Operation::Dithering));
    assert_eq!(parse_operation("bayer"), Some(Operation::Bayer));
}

#[test]
fn other_names_select_nothing() {
    assert_eq!(parse_operation(""), None);
    assert_eq!(parse_operation("Bayer"), None);
    assert_eq!(parse_operation("bayer "), None);
    assert_eq!(parse_operation(" palette"), None);
    assert_eq!(parse_operation("mono"), None);
    assert_eq!(parse_operation("monochromes"), None);
    assert_eq!(parse_operation("sepia"), None);
    assert_eq!(parse_operation("dith\u{e9}ring"), None);
}

#[test]
fn pipeline_bayer_order_is_one() {
    assert_eq!(PIPELINE_BAYER_ORDER, 1);
}

#[test]
fn process_monochrome_is_apply_monochrome() {
    let t = Threshold::new(2, 5).unwrap();
    let out = process_image(ramp(), "monochrome", t).unwrap();
    assert_eq!(cells_of(&out), cells_of(&apply_monochrome(ramp(), t)));
}

#[test]
fn process_palette_is_apply_palette() {
    let out = process_image(ramp(), "palette", Threshold::half()).unwrap();
    assert_eq!(cells_of(&out), cells_of(&apply_palette(ramp())));
}

#[test]
fn process_bayer_uses_order_one() {
    let out = process_image(ramp(), "bayer", Threshold::half()).unwrap();
    assert_eq!(cells_of(&out), cells_of(&apply_bayer(ramp(), 1)));
}

#[test]
fn process_dithering_gives_black_and_white_of_the_same_size() {
    let out = process_image(ramp(), "dithering", Threshold::half()).unwrap();
    assert_eq!(out.dimensions(), (4, 4));
    for cell in cells_of(&out) {
        assert!(cell == Color::black() || cell == Color::white());
    }
}

#[test]
fn process_ignores_the_threshold_outside_monochrome() {
    let low = Threshold::new(0, 1).unwrap();
    let high = Threshold::new(1, 1).unwrap();
    for name in ["palette", "bayer"] {
        let a = process_image(ramp(), name, low).unwrap();
        let b = process_image(ramp(), name, high).unwrap();
        assert_eq!(cells_of(&a), cells_of(&b));
    }
    let a = process_image(ramp(), "monochrome", low).unwrap();
    let b = process_image(ramp(), "monochrome", high).unwrap();
    assert_ne!(cells_of(&a), cells_of(&b));
}

#[test]
fn process_with_an_unknown_name_gives_no_image() {
    assert!(process_image(ramp(), "sharpen", Threshold::half()).is_none());
    assert!(process_image(ramp(), "", Threshold::half()).is_none());
    assert!(process_image(ramp(), "MONOCHROME", Threshold::half()).is_none());
}

#[test]
fn apply_operation_dispatches_on_the_variant() {
    let t = Threshold::half();
    assert_eq!(
        cells_of(&apply_operation(Operation::Monochrome, ramp(), t)),
        cells_of(&apply_monochrome(ramp(), t))
    );
    assert_eq!(
        cells_of(&apply_operation(Operation::Palette, ramp(), t)),
        cells_of(&apply_palette(ramp()))
    );
    assert_eq!(
        cells_of(&apply_operation(Operation::Bayer, ramp(), t)),
        cells_of(&apply_bayer(ramp(), 1))
    );
    assert_eq!(apply_operation(Operation::Dithering, ramp(), t).dimensions(), (4, 4));
}

#[test]
fn every_named_operation_keeps_the_dimensions() {
    for name in ["monochrome", "palette", "dithering", "bayer"] {
        let out = process_image(ramp(), name, Threshold::half()).unwrap();
        assert_eq!(out.dimensions(), (4, 4));
    }
}
