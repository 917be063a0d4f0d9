use pnmseam::avisha1::{
    calculate_energy, calculate_horizontal_seam, calculate_vertical_seam, cumulative_costs,
    energy_to_horizontal_seam, energy_to_vertical_seam, AviShaOne,
};
use pnmseam::pixelpairs::Pixel;
use pnmseam::seamfinder::{energy_to_seam, SeamFinder};
use pnmseam::twodmap::{EnergyAndBackPointer, TwoDimensionalMap};

const IMAGE_DATA: [u8; 20] = [9, 9, 0, 9, 9, 9, 1, 9, 8, 9, 9, 9, 9, 9, 0, 9, 9, 9, 0, 9];

fn grey(width: u32, height: u32, data: &[u8]) -> TwoDimensionalMap<Pixel> {
    TwoDimensionalMap::from_raw(width, height, data.iter().map(|l| Pixel::Luma(*l)).collect())
        .unwrap()
}

fn scrambled(width: u32, height: u32, seed: u32) -> Vec<u32> {
    let mut state = seed;
    (0..width * height)
        .map(|_| {
            state = state.wrapping_mul(1664525).wrapping_add(1013904223);
            (state >> 24) % 50
        })
        .collect()
}

fn assert_is_seam(seam: &[u32], width: u32, length: u32) {
    assert_eq!(seam.len(), length as usize);
    for x in seam {
        assert!(*x < width);
    }
    for pair in seam.windows(2) {
        assert!(pair[0].abs_diff(pair[1]) <= 1);
    }
}

#[test]
fn uniform_image_has_no_energy() {
    for colour in [Pixel::Luma(77), Pixel::Rgb(200, 3, 90), Pixel::Rgba(1, 2, 3, 4)] {
        let image = TwoDimensionalMap::filled(6, 5, colour);
        let energy = calculate_energy(&image);
        assert_eq!((energy.width, energy.height), (6, 5));
        assert_eq!(energy.energy, vec![0; 30]);
    }
}

#[test]
fn energy_of_a_single_pixel_is_zero() {
    let energy = calculate_energy(&grey(1, 1, &[200]));
    assert_eq!(energy.energy, vec![0]);
}

#[test]
fn energy_of_an_empty_image_is_empty() {
    let energy = calculate_energy(&grey(0, 0, &[]));
    assert_eq!((energy.width, energy.height), (0, 0));
    assert!(energy.energy.is_empty());
}

#[test]
fn energy_of_a_row_counts_left_and_right_only() {
    let energy = calculate_energy(&grey(4, 1, &[1, 4, 9, 3]));
    assert_eq!(energy.energy, vec![9, 64, 1, 36]);
}

#[test]
fn energy_of_a_column_counts_up_and_down_only() {
    let energy = calculate_energy(&grey(1, 4, &[1, 4, 9, 3]));
    assert_eq!(energy.energy, vec![9, 64, 1, 36]);
}

#[test]
fn vertical_seam_has_one_column_per_row() {
    for seed in 0..20 {
        let (width, height) = (3 + seed % 9, 2 + seed % 7);
        let energies =
            TwoDimensionalMap::from_raw(width, height, scrambled(width, height, seed)).unwrap();
        assert_is_seam(&energy_to_vertical_seam(&energies), width, height);
    }
}

#[test]
fn horizontal_seam_has_one_row_per_column() {
    for seed in 0..20 {
        let (width, height) = (3 + seed % 9, 2 + seed % 7);
        let energies =
            TwoDimensionalMap::from_raw(width, height, scrambled(width, height, seed)).unwrap();
        assert_is_seam(&energy_to_horizontal_seam(&energies), height, width);
    }
}

#[test]
fn horizontal_seam_is_the_vertical_seam_of_the_flipped_map() {
    for seed in 0..20 {
        let (width, height) = (2 + seed % 5, 2 + seed % 3);
        let energies =
            TwoDimensionalMap::from_raw(width, height, scrambled(width, height, seed)).unwrap();
        assert_eq!(
            energy_to_horizontal_seam(&energies),
            energy_to_vertical_seam(&energies.transposed())
        );
    }
}

#[test]
fn seam_through_one_column_stays_in_it() {
    let energies = TwoDimensionalMap::from_raw(1, 4, vec![5u32, 1, 7, 2]).unwrap();
    assert_eq!(energy_to_vertical_seam(&energies), [0, 0, 0, 0]);
    assert_eq!(energy_to_horizontal_seam(&energies), [1]);
}

#[test]
fn seam_through_one_row_takes_the_cheapest_cell() {
    let energies = TwoDimensionalMap::from_raw(4, 1, vec![5u32, 1, 7, 1]).unwrap();
    assert_eq!(energy_to_vertical_seam(&energies), [1]);
    assert_eq!(energy_to_horizontal_seam(&energies), [0, 0, 0, 0]);
}

#[test]
fn seam_of_equal_costs_keeps_left() {
    let energies = TwoDimensionalMap::from_raw(3, 3, vec![1u32; 9]).unwrap();
    assert_eq!(energy_to_vertical_seam(&energies), [0, 0, 0]);
    assert_eq!(energy_to_horizontal_seam(&energies), [0, 0, 0]);
}

#[test]
fn seam_costs_do_not_overflow() {
    let energies = TwoDimensionalMap::from_raw(2, 3, vec![u32::MAX; 6]).unwrap();
    assert_eq!(energy_to_vertical_seam(&energies), [0, 0, 0]);
}

#[test]
fn seam_follows_the_back_pointers() {
    let cell = |energy: u64, parent: u32| EnergyAndBackPointer { energy, parent };
    let costs = TwoDimensionalMap::from_raw(
        3,
        3,
        vec![
            cell(5, 0),
            cell(5, 0),
            cell(5, 0),
            cell(9, 1),
            cell(9, 2),
            cell(9, 1),
            cell(4, 0),
            cell(3, 1),
            cell(3, 2),
        ],
    )
    .unwrap();
    assert_eq!(energy_to_seam(&costs), [2, 1, 1]);
}

#[test]
fn base_finder_lays_the_seams_of_the_energy_map() {
    let image = grey(5, 4, &IMAGE_DATA);
    let finder = AviShaOne::new(&image);
    assert_eq!(finder.find_vertical_seam(), [0, 1, 0, 0]);
    assert_eq!(finder.find_horizontal_seam(), [0, 1, 2, 1, 0]);
}

#[test]
fn cost_map_of_the_fixture() {
    let energy: Vec<u32> =
        vec![9, 9, 0, 9, 9, 9, 1, 9, 8, 9, 9, 9, 9, 9, 0, 9, 9, 9, 0, 9];
    let costs = cumulative_costs(&TwoDimensionalMap::from_raw(5, 4, energy).unwrap());
    let cells: Vec<(u64, u32)> = costs.energy.iter().map(|c| (c.energy, c.parent)).collect();
    assert_eq!(
        cells,
        vec![
            (9, 0),
            (9, 0),
            (0, 0),
            (9, 0),
            (9, 0),
            (18, 0),
            (1, 2),
            (9, 2),
            (8, 2),
            (18, 3),
            (10, 1),
            (10, 1),
            (10, 1),
            (17, 3),
            (8, 3),
            (19, 0),
            (19, 0),
            (19, 1),
            (8, 4),
            (17, 4)
        ]
    );
}

#[test]
fn convenience_wrappers_lay_the_seams_of_the_image() {
    let image = grey(5, 4, &IMAGE_DATA);
    assert_eq!(calculate_vertical_seam(&image), [0, 1, 0, 0]);
    assert_eq!(calculate_horizontal_seam(&image), [0, 1, 2, 1, 0]);
}
