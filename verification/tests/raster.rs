use dither::{Color, Raster};

#[test]
fn new_raster_has_the_given_dimensions() {
    let raster = Raster::new(3, 2).unwrap();
    assert_eq!(raster.dimensions(), (3, 2));
}

#[test]
fn new_raster_is_black_everywhere() {
    let raster = Raster::new(3, 2).unwrap();
    for y in 0..2 {
        for x in 0..3 {
            assert_eq!(raster.get(x, y), Some(Color::new(0, 0, 0)));
        }
    }
}

#[test]
fn new_raster_may_be_empty() {
    let none = Raster::new(0, 0).unwrap();
    assert_eq!(none.dimensions(), (0, 0));
    assert_eq!(none.get(0, 0), None);
    let flat = Raster::new(5, 0).unwrap();
    assert_eq!(flat.dimensions(), (5, 0));
    assert_eq!(flat.get(0, 0), None);
    let thin = Raster::new(0, 5).unwrap();
    assert_eq!(thin.dimensions(), (0, 5));
    assert_eq!(thin.get(0, 0), None);
}

#[test]
fn new_raster_beyond_memory_is_refused() {
    assert!(Raster::new(u32::MAX, u32::MAX).is_none());
}

#[test]
fn set_then_get_returns_the_stored_color() {
    let mut raster = Raster::new(2, 2).unwrap();
    assert!(raster.set(1, 0, Color::new(10, 20, 30)));
    assert_eq!(raster.get(1, 0), Some(Color::new(10, 20, 30)));
}

#[test]
fn set_changes_only_its_own_cell() {
    let mut raster = Raster::new(3, 3).unwrap();
    assert!(raster.set(0, 0, Color::new(1, 2, 3)));
    assert!(raster.set(2, 1, Color::new(4, 5, 6)));
    assert!(raster.set(1, 2, Color::new(7, 8, 9)));
    for y in 0..3 {
        for x in 0..3 {
            let expected = match (x, y) {
                (0, 0) => Color::new(1, 2, 3),
                (2, 1) => Color::new(4, 5, 6),
                (1, 2) => Color::new(7, 8, 9),
                _ => Color::new(0, 0, 0),
            };
            assert_eq!(raster.get(x, y), Some(expected));
        }
    }
    assert_eq!(raster.dimensions(), (3, 3));
}

#[test]
fn set_keeps_column_and_row_apart() {
    let mut raster = Raster::new(3, 2).unwrap();
    assert!(raster.set(2, 0, Color::new(9, 9, 9)));
    assert_eq!(raster.get(2, 0), Some(Color::new(9, 9, 9)));
    assert_eq!(raster.get(0, 1), Some(Color::new(0, 0, 0)));
    assert_eq!(raster.get(0, 2), None);
}

#[test]
fn set_outside_changes_nothing() {
    let mut raster = Raster::new(2, 2).unwrap();
    assert!(!raster.set(2, 0, Color::new(1, 1, 1)));
    assert!(!raster.set(0, 2, Color::new(1, 1, 1)));
    assert!(!raster.set(u32::MAX, u32::MAX, Color::new(1, 1, 1)));
    for y in 0..2 {
        for x in 0..2 {
            assert_eq!(raster.get(x, y), Some(Color::new(0, 0, 0)));
        }
    }
}

#[test]
fn get_outside_is_none() {
    let raster = Raster::new(2, 3).unwrap();
    assert_eq!(raster.get(2, 0), None);
    assert_eq!(raster.get(0, 3), None);
    assert_eq!(raster.get(1, 2), Some(Color::new(0, 0, 0)));
}

#[test]
fn set_overwrites_an_earlier_color() {
    let mut raster = Raster::new(1, 1).unwrap();
    assert!(raster.set(0, 0, Color::new(1, 2, 3)));
    assert!(raster.set(0, 0, Color::new(200, 100, 50)));
    assert_eq!(raster.get(0, 0), Some(Color::new(200, 100, 50)));
}
