use dither::{color_distance, find_closest_color, palette, Color, MAX_DISTANCE};

#[test]
fn color_keeps_its_channels() {
    let c = Color::new(1, 2, 3);
    assert_eq!((c.r, c.g, c.b), (1, 2, 3));
    assert_eq!(Color::black(), Color::new(0, 0, 0));
    assert_eq!(Color::white(), Color::new(255, 255, 255));
}

#[test]
fn channel_sum_adds_the_three_channels() {
    assert_eq!(Color::new(0, 0, 0).channel_sum(), 0);
    assert_eq!(Color::new(255, 255, 255).channel_sum(), 765);
    assert_eq!(Color::new(10, 20, 30).channel_sum(), 60);
}

#[test]
fn brightness_is_the_mean_rounded_down() {
    assert_eq!(Color::new(0, 0, 0).brightness(), 0);
    assert_eq!(Color::new(255, 255, 255).brightness(), 255);
    assert_eq!(Color::new(10, 10, 11).brightness(), 10);
    assert_eq!(Color::new(10, 11, 11).brightness(), 10);
    assert_eq!(Color::new(128, 0, 0).brightness(), 42);
    assert_eq!(Color::new(255, 255, 254).brightness(), 254);
}

#[test]
fn distance_is_the_sum_of_squared_differences() {
    assert_eq!(color_distance(Color::new(128, 0, 0), Color::new(255, 0, 0)), 16129);
    assert_eq!(color_distance(Color::new(128, 0, 0), Color::new(0, 0, 0)), 16384);
    assert_eq!(color_distance(Color::new(1, 2, 3), Color::new(4, 6, 8)), 9 + 16 + 25);
}

#[test]
fn distance_handles_a_smaller_first_channel() {
    assert_eq!(color_distance(Color::new(0, 0, 0), Color::new(3, 4, 12)), 169);
    assert_eq!(color_distance(Color::new(3, 4, 12), Color::new(0, 0, 0)), 169);
}

#[test]
fn distance_is_symmetric() {
    let colors = [
        Color::new(0, 0, 0),
        Color::new(255, 255, 255),
        Color::new(12, 200, 77),
        Color::new(128, 0, 0),
        Color::new(1, 254, 3),
    ];
    for a in colors {
        for b in colors {
            assert_eq!(color_distance(a, b), color_distance(b, a));
        }
    }
}

#[test]
fn distance_is_zero_only_between_equal_colors() {
    let colors = [
        Color::new(0, 0, 0),
        Color::new(0, 0, 1),
        Color::new(0, 1, 0),
        Color::new(1, 0, 0),
        Color::new(255, 255, 255),
    ];
    for a in colors {
        for b in colors {
            assert_eq!(color_distance(a, b) == 0, a == b);
        }
    }
}

#[test]
fn distance_from_black_to_white_is_the_largest() {
    assert_eq!(color_distance(Color::black(), Color::white()), 195075);
    assert_eq!(MAX_DISTANCE, 195075);
}

#[test]
fn palette_holds_the_eight_colors_in_order() {
    let expected = vec![
        Color::new(0, 0, 0),
        Color::new(255, 255, 255),
        Color::new(255, 0, 0),
        Color::new(0, 255, 0),
        Color::new(0, 0, 255),
        Color::new(255, 255, 0),
        Color::new(255, 0, 255),
        Color::new(0, 255, 255),
    ];
    assert_eq!(palette(), expected);
}

#[test]
fn dark_red_is_nearest_to_red() {
    let colors = palette();
    assert_eq!(find_closest_color(Color::new(128, 0, 0), &colors), Color::new(255, 0, 0));
}

#[test]
fn slightly_darker_red_is_nearest_to_black() {
    let colors = palette();
    assert_eq!(find_closest_color(Color::new(127, 0, 0), &colors), Color::new(0, 0, 0));
}

#[test]
fn closest_color_is_always_a_palette_entry() {
    let colors = palette();
    let mut r: u32 = 0;
    while r < 256 {
        let mut g: u32 = 0;
        while g < 256 {
            let mut b: u32 = 0;
            while b < 256 {
                let found = find_closest_color(Color::new(r as u8, g as u8, b as u8), &colors);
                assert!(colors.contains(&found));
                b += 17;
            }
            g += 17;
        }
        r += 17;
    }
}

#[test]
fn closest_color_rounds_each_channel() {
    let colors = palette();
    assert_eq!(find_closest_color(Color::new(200, 190, 20), &colors), Color::new(255, 255, 0));
    assert_eq!(find_closest_color(Color::new(10, 130, 250), &colors), Color::new(0, 255, 255));
    assert_eq!(find_closest_color(Color::new(128, 127, 128), &colors), Color::new(255, 0, 255));
    assert_eq!(find_closest_color(Color::new(128, 128, 128), &colors), Color::new(255, 255, 255));
    assert_eq!(find_closest_color(Color::new(127, 127, 127), &colors), Color::new(0, 0, 0));
}

#[test]
fn of_two_equally_near_entries_the_earlier_wins() {
    let pixel = Color::new(10, 0, 0);
    let low = Color::new(0, 0, 0);
    let high = Color::new(20, 0, 0);
    assert_eq!(color_distance(pixel, low), color_distance(pixel, high));
    assert_eq!(find_closest_color(pixel, &[low, high]), low);
    assert_eq!(find_closest_color(pixel, &[high, low]), high);
}

#[test]
fn a_later_entry_wins_only_when_strictly_nearer() {
    let pixel = Color::new(10, 0, 0);
    let far = Color::new(30, 0, 0);
    let near = Color::new(12, 0, 0);
    let as_near = Color::new(8, 0, 0);
    assert_eq!(find_closest_color(pixel, &[far, near, as_near]), near);
    assert_eq!(find_closest_color(pixel, &[far, as_near, near]), as_near);
}

#[test]
fn a_palette_of_one_always_answers_that_one() {
    let only = Color::new(7, 7, 7);
    assert_eq!(find_closest_color(Color::new(250, 0, 99), &[only]), only);
    assert_eq!(find_closest_color(Color::white(), &[only]), only);
}

#[test]
fn farthest_possible_entry_is_still_found() {
    let only = Color::white();
    assert_eq!(find_closest_color(Color::black(), &[only]), only);
}

#[test]
fn palette_entries_map_to_themselves() {
    let colors = palette();
    for entry in &colors {
        assert_eq!(find_closest_color(*entry, &colors), *entry);
    }
}

#[test]
fn mapping_to_the_palette_twice_is_mapping_once() {
    let colors = palette();
    let samples = [
        Color::new(128, 0, 0),
        Color::new(10, 200, 130),
        Color::new(127, 128, 127),
        Color::new(99, 99, 99),
    ];
    for sample in samples {
        let once = find_closest_color(sample, &colors);
        assert_eq!(find_closest_color(once, &colors), once);
    }
}
