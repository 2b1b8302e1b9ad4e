use buddhabrot::iterat_point::iterations_to_color;
use buddhabrot::pixels::Pixels;

fn grey(level: u32) -> u32 {
    level | level << 8 | level << 16
}

#[test]
fn new_pixels_are_all_zero() {
    let pixels = Pixels::new(4, 3);
    assert_eq!(pixels.pixels, vec![0; 12]);
    assert_eq!(Pixels::new(0, 7).pixels.len(), 0);
}

#[test]
fn add_one_counts_one_hit() {
    let mut pixels = Pixels::new(2, 2);
    pixels.add_one(3);
    pixels.add_one(3);
    pixels.add_one(1);
    assert_eq!(pixels.pixels, vec![0, 1, 0, 2]);
}

#[test]
fn add_one_stays_at_the_largest_count() {
    let mut pixels = Pixels::new(2, 1);
    pixels.set(1, u32::MAX - 1);
    pixels.add_one(1);
    assert_eq!(pixels.pixels, vec![0, u32::MAX]);
    pixels.add_one(1);
    assert_eq!(pixels.pixels, vec![0, u32::MAX]);
}

#[test]
fn quad_add_one_counts_four_pixels() {
    let mut pixels = Pixels::new(3, 2);
    pixels.quad_add_one([0, 5, 2, 3]);
    assert_eq!(pixels.pixels, vec![1, 0, 1, 1, 0, 1]);
}

#[test]
fn quad_add_one_counts_a_pixel_that_is_named_twice_twice() {
    let mut pixels = Pixels::new(2, 2);
    pixels.quad_add_one([1, 1, 2, 3]);
    assert_eq!(pixels.pixels, vec![0, 2, 1, 1]);
    let mut pixels = Pixels::new(3, 2);
    pixels.quad_add_one([4, 4, 1, 4]);
    assert_eq!(pixels.pixels, vec![0, 1, 0, 0, 3, 0]);
    pixels.set(4, u32::MAX - 2);
    pixels.quad_add_one([4, 4, 4, 4]);
    assert_eq!(pixels.pixels, vec![0, 1, 0, 0, u32::MAX, 0]);
}

#[test]
fn set_and_clear() {
    let mut pixels = Pixels::new(2, 2);
    pixels.set(2, 77);
    assert_eq!(pixels.pixels, vec![0, 0, 77, 0]);
    pixels.clear();
    assert_eq!(pixels.pixels, vec![0; 4]);
}

#[test]
fn max_is_the_largest_counter() {
    let mut pixels = Pixels::new(5, 1);
    assert_eq!(pixels.max(), 0);
    pixels.set(1, 7);
    pixels.set(3, 9);
    pixels.set(4, 2);
    assert_eq!(pixels.max(), 9);
}

#[test]
fn reduced_max_halves_while_few_pixels_lie_above() {
    // 2000 pixels: two of them, one in a thousand, end the halving.
    let mut pixels = Pixels::new(2000, 1);
    for index in 1..2000 {
        pixels.set(index, 3);
    }
    pixels.set(5, 1000);
    // One pixel above 1000, 500, .., 3 is too few; above 1 lie 1999.
    assert_eq!(pixels.reduced_max(), 1);
    pixels.set(6, 400);
    // Above 250 lie two pixels.
    assert_eq!(pixels.reduced_max(), 250);
    pixels.set(6, 1000);
    // Above 500 lie two pixels.
    assert_eq!(pixels.reduced_max(), 500);
}

#[test]
fn reduced_max_of_a_small_picture_is_its_max() {
    let mut pixels = Pixels::new(3, 3);
    pixels.set(4, 800);
    // No pixel above 800, and 0 * 1000 < 9; one pixel above 400.
    assert_eq!(pixels.reduced_max(), 400);
    let empty = Pixels::new(3, 3);
    assert_eq!(empty.reduced_max(), 0);
    let mut ones = Pixels::new(3, 3);
    ones.set(2, 1);
    assert_eq!(ones.reduced_max(), 1);
}

#[test]
fn reduced_max_never_exceeds_the_max() {
    let mut seed: u64 = 12345;
    for round in 0..50 {
        let mut pixels = Pixels::new(40, 30);
        for index in 0..1200 {
            seed = seed.wrapping_mul(6364136223846793005).wrapping_add(1442695040888963407);
            let value = ((seed >> 33) % (1 << (round % 20 + 1))) as u32;
            pixels.set(index, value);
        }
        let max = pixels.max();
        let reduced = pixels.reduced_max();
        assert!(reduced <= max);
        assert_eq!(reduced == 0, max == 0);
        let mut halved = max;
        while halved > reduced {
            halved /= 2;
        }
        assert_eq!(halved, reduced);
    }
}

#[test]
fn linear_normalise_scales_to_255() {
    let mut pixels = Pixels::new(5, 1);
    pixels.pixels = vec![9, 0, 100, 50, 1];
    let colors = pixels.linear_normalise();
    assert_eq!(pixels.pixels, vec![0, 0, 100, 50, 1]);
    assert_eq!(colors, vec![grey(0), grey(0), grey(255), grey(127), grey(2)]);
}

#[test]
fn linear_normalise_of_an_empty_picture_is_black() {
    let mut pixels = Pixels::new(2, 2);
    pixels.set(0, 5);
    assert_eq!(pixels.linear_normalise(), vec![0; 4]);
    assert_eq!(pixels.squre_normalise(), vec![0; 4]);
}

#[test]
fn squre_normalise_scales_by_the_root() {
    let mut pixels = Pixels::new(6, 1);
    pixels.pixels = vec![3, 0, 100, 25, 1, 400];
    // One pixel above 400 is none, above 200 one: reduced max 200.
    let colors = pixels.squre_normalise();
    assert_eq!(pixels.pixels, vec![0, 0, 100, 25, 1, 400]);
    // sqrt(100 * 65025 / 200) = 180.3, sqrt(25 * 65025 / 200) = 90.2,
    // sqrt(65025 / 200) = 18.03
    assert_eq!(colors, vec![grey(0), grey(0), grey(180), grey(90), grey(18), grey(255)]);
}

#[test]
fn squre_normalise_shows_the_reduced_max_as_white() {
    let mut pixels = Pixels::new(4, 1);
    pixels.pixels = vec![0, 16, 8, 4];
    // No pixel above 16, one above 8: reduced max 8.
    let colors = pixels.squre_normalise();
    // sqrt(4 * 65025 / 8) = 180.3
    assert_eq!(colors, vec![grey(0), grey(255), grey(255), grey(180)]);
}

#[test]
fn grey_has_the_level_in_three_channels() {
    let mut pixels = Pixels::new(2, 1);
    pixels.pixels = vec![0, 1];
    assert_eq!(pixels.linear_normalise(), vec![0, 0x00ff_ffff]);
}

#[test]
fn iterations_to_color_falls_in_steps_of_16() {
    assert_eq!(
        iterations_to_color([0, 1, 2, 7]),
        [0x80_8080, 0x70_7070, 0x60_6060, 0x10_1010]
    );
    assert_eq!(
        iterations_to_color([8, 9, 255, 256]),
        [0x80_8080, 0x70_7070, 0x10_1010, 0x80_8080]
    );
}
