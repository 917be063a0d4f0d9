use pnmseam::pixelpairs::{energy_of_pair, energy_of_pair_luma, Pixel};

#[test]
fn luma_of_a_grey_pixel_is_its_value() {
    assert_eq!(Pixel::Luma(7).luma(), 7);
    assert_eq!(Pixel::LumaA(7, 3).luma(), 7);
    assert_eq!(Pixel::Luma(0).luma(), 0);
    assert_eq!(Pixel::Luma(255).luma(), 255);
}

#[test]
fn luma_of_a_colour_weighs_the_channels() {
    assert_eq!(Pixel::Rgb(255, 0, 0).luma(), 54);
    assert_eq!(Pixel::Rgb(0, 255, 0).luma(), 182);
    assert_eq!(Pixel::Rgb(0, 0, 255).luma(), 18);
    assert_eq!(Pixel::Rgb(10, 200, 30).luma(), 147);
    assert_eq!(Pixel::Rgb(255, 255, 255).luma(), 255);
    assert_eq!(Pixel::Rgb(0, 0, 0).luma(), 0);
}

#[test]
fn luma_of_a_colour_ignores_alpha() {
    assert_eq!(Pixel::Rgba(10, 200, 30, 0).luma(), 147);
    assert_eq!(Pixel::Rgba(10, 200, 30, 255).luma(), 147);
}

#[test]
fn luma_of_a_grey_colour_is_the_grey() {
    for v in 0..=255u8 {
        assert_eq!(Pixel::Rgb(v, v, v).luma(), v);
    }
}

#[test]
fn to_rgb_spreads_grey_and_drops_alpha() {
    assert_eq!(Pixel::Luma(4).to_rgb(), [4, 4, 4]);
    assert_eq!(Pixel::LumaA(4, 9).to_rgb(), [4, 4, 4]);
    assert_eq!(Pixel::Rgb(1, 2, 3).to_rgb(), [1, 2, 3]);
    assert_eq!(Pixel::Rgba(1, 2, 3, 4).to_rgb(), [1, 2, 3]);
}

#[test]
fn luma_energy_is_the_squared_difference() {
    assert_eq!(energy_of_pair_luma(&Pixel::Luma(9), &Pixel::Luma(1)), 64);
    assert_eq!(energy_of_pair_luma(&Pixel::Luma(0), &Pixel::Luma(255)), 65025);
    assert_eq!(
        energy_of_pair_luma(&Pixel::Rgb(255, 0, 0), &Pixel::Rgb(0, 0, 255)),
        36 * 36
    );
}

#[test]
fn luma_energy_is_symmetric() {
    let a = Pixel::Rgb(12, 240, 7);
    let b = Pixel::LumaA(90, 1);
    assert_eq!(energy_of_pair_luma(&a, &b), energy_of_pair_luma(&b, &a));
    assert_eq!(energy_of_pair_luma(&Pixel::Luma(1), &Pixel::Luma(9)), 64);
}

#[test]
fn luma_energy_of_equal_pixels_is_zero() {
    let a = Pixel::Rgba(12, 240, 7, 3);
    assert_eq!(energy_of_pair_luma(&a, &a), 0);
    assert_eq!(energy_of_pair_luma(&Pixel::Luma(3), &Pixel::LumaA(3, 200)), 0);
    assert_ne!(energy_of_pair_luma(&Pixel::Luma(3), &Pixel::Luma(4)), 0);
}

#[test]
fn channel_energy_sums_the_squares() {
    assert_eq!(energy_of_pair(&[1, 2, 3], &[4, 6, 8]), 9 + 16 + 25);
    assert_eq!(energy_of_pair(&[4, 6, 8], &[1, 2, 3]), 50);
    assert_eq!(energy_of_pair(&[0, 0, 0], &[255, 255, 255]), 195075);
}

#[test]
fn channel_energy_of_equal_pixels_is_zero() {
    assert_eq!(energy_of_pair(&[7, 8, 9, 10], &[7, 8, 9, 10]), 0);
    assert_ne!(energy_of_pair(&[7, 8, 9, 10], &[7, 8, 9, 11]), 0);
}

#[test]
fn channel_energy_compares_the_channels_that_both_have() {
    assert_eq!(energy_of_pair(&[1, 2], &[4]), 9);
    assert_eq!(energy_of_pair(&[4], &[1, 2]), 9);
    assert_eq!(energy_of_pair(&[], &[1, 2]), 0);
    assert_eq!(energy_of_pair(&[], &[]), 0);
}

#[test]
fn luma_of_every_colour_is_the_weighted_sum() {
    for r in (0..=255u32).step_by(5) {
        for g in (0..=255u32).step_by(5) {
            for b in (0..=255u32).step_by(5) {
                let expected = (2126 * r + 7152 * g + 722 * b) / 10000;
                assert_eq!(Pixel::Rgb(r as u8, g as u8, b as u8).luma() as u32, expected);
            }
        }
    }
}
