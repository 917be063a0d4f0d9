use pnmseam::avisha1::{calculate_energy, energy_to_horizontal_seam, energy_to_vertical_seam};
use pnmseam::pixelpairs::Pixel;
use pnmseam::twodmap::TwoDimensionalMap;

const IMAGE_DATA: [u8; 20] = [9, 9, 0, 9, 9, 9, 1, 9, 8, 9, 9, 9, 9, 9, 0, 9, 9, 9, 0, 9];
const IMAGE_ENERGY: [u32; 20] = [
    0, 145, 81, 82, 0, 64, 0, 130, 0, 82, 0, 64, 0, 145, 81, 0, 0, 81, 81, 162,
];
const ENERGY_DATA: [u32; 20] = [9, 9, 0, 9, 9, 9, 1, 9, 8, 9, 9, 9, 9, 9, 0, 9, 9, 9, 0, 9];

#[test]
fn avisha1_energy_generator_works() {
    let buf = TwoDimensionalMap {
        width: 5,
        height: 4,
        energy: IMAGE_DATA.iter().map(|l| Pixel::Luma(*l)).collect(),
    };
    let energy = calculate_energy(&buf);
    assert_eq!(energy.energy, IMAGE_ENERGY);
}

#[test]
fn avisha1_energy_grid_to_vertical_seam() {
    let energies = TwoDimensionalMap {
        width: 5,
        height: 4,
        energy: ENERGY_DATA.to_vec(),
    };
    let expected = [2, 3, 4, 3];
    assert_eq!(energy_to_vertical_seam(&energies), expected);
}

#[test]
fn avisha1_energy_grid_to_horizontal_seam() {
    let energies = TwoDimensionalMap {
        width: 5,
        height: 4,
        energy: ENERGY_DATA.to_vec(),
    };
    let expected = [0, 1, 0, 1, 2];
    assert_eq!(energy_to_horizontal_seam(&energies), expected);
}
