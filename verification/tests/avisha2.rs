use pnmseam::avisha2::{
    calculate_cost, calculate_one_row, cost_candidate_pixel, start_and_end, workers_for,
    AviShaTwo,
};
use pnmseam::flipper::Flipper;
use pnmseam::imageview::ImageView;
use pnmseam::pixelpairs::Pixel;
use pnmseam::seamfinder::SeamFinder;
use pnmseam::twodmap::{EnergyAndBackPointer, TwoDimensionalMap};

const IMAGE_DATA: [u8; 20] = [9, 9, 0, 9, 9, 9, 1, 9, 8, 9, 9, 9, 9, 9, 0, 9, 9, 9, 0, 9];

fn grey(width: u32, height: u32, data: &[u8]) -> TwoDimensionalMap<Pixel> {
    TwoDimensionalMap::from_raw(width, height, data.iter().map(|l| Pixel::Luma(*l)).collect())
        .unwrap()
}

fn scrambled(width: u32, height: u32, seed: u32) -> TwoDimensionalMap<Pixel> {
    let mut state = seed;
    let mut next = move || {
        state = state.wrapping_mul(1664525).wrapping_add(1013904223);
        (state >> 24) as u8
    };
    let pixels = (0..width * height).map(|_| Pixel::Rgb(next(), next(), next())).collect();
    TwoDimensionalMap::from_raw(width, height, pixels).unwrap()
}

fn cells(image: &TwoDimensionalMap<Pixel>, workers: usize) -> Vec<(u64, u32)> {
    calculate_cost(image, workers).energy.iter().map(|c| (c.energy, c.parent)).collect()
}

#[test]
fn forward_costs_of_the_grey_fixture() {
    let expected = vec![
        (0, 0),
        (81, 0),
        (0, 0),
        (81, 0),
        (0, 0),
        (64, 0),
        (0, 0),
        (49, 2),
        (0, 2),
        (1, 4),
        (0, 1),
        (0, 1),
        (0, 1),
        (81, 3),
        (81, 3),
        (0, 0),
        (0, 1),
        (81, 2),
        (0, 2),
        (162, 4),
    ];
    assert_eq!(cells(&grey(5, 4, &IMAGE_DATA), 1), expected);
}

#[test]
fn forward_costs_of_a_colour_image() {
    let image = TwoDimensionalMap::from_raw(
        3,
        2,
        vec![
            Pixel::Rgb(255, 0, 0),
            Pixel::Rgb(0, 255, 0),
            Pixel::Rgb(0, 0, 255),
            Pixel::Rgb(10, 200, 30),
            Pixel::Rgb(9, 9, 9),
            Pixel::Rgb(0, 0, 0),
        ],
    )
    .unwrap();
    let expected = vec![(16384, 0), (1296, 0), (26896, 0), (22365, 1), (22905, 1), (1458, 1)];
    assert_eq!(cells(&image, 2), expected);
}

#[test]
fn forward_costs_of_the_first_row_have_no_predecessor() {
    assert_eq!(cells(&grey(4, 1, &[1, 4, 9, 3]), 3), vec![(9, 0), (64, 0), (1, 0), (36, 0)]);
}

#[test]
fn forward_costs_of_one_column() {
    assert_eq!(cells(&grey(1, 3, &[1, 4, 9]), 3), vec![(0, 0), (0, 0), (0, 0)]);
}

#[test]
fn forward_costs_prefer_straight_up_then_left() {
    let image = TwoDimensionalMap::filled(3, 2, Pixel::Luma(5));
    assert_eq!(
        cells(&image, 1),
        vec![(0, 0), (0, 0), (0, 0), (0, 0), (0, 1), (0, 2)]
    );
}

#[test]
fn forward_costs_do_not_depend_on_the_workers() {
    let image = scrambled(37, 23, 7);
    let single = cells(&image, 1);
    for workers in [0, 2, 3, 4, 5, 8, 16, 36, 37, 38, 1000] {
        assert_eq!(cells(&image, workers), single);
    }
}

#[test]
fn forward_costs_of_the_flipped_image() {
    let image = grey(5, 4, &IMAGE_DATA);
    let flipped = Flipper { image: &image };
    let costs = calculate_cost(&flipped, 2);
    assert_eq!((costs.width, costs.height), (4, 5));
    let direct = calculate_cost(&image.transposed(), 2);
    let pairs = |m: &TwoDimensionalMap<_>| -> Vec<(u64, u32)> {
        m.energy.iter().map(|c: &pnmseam::twodmap::EnergyAndBackPointer<u64>| (c.energy, c.parent)).collect()
    };
    assert_eq!(pairs(&costs), pairs(&direct));
}

#[test]
fn workers_share_the_columns() {
    assert_eq!(start_and_end(0, 3, 10, 2), (0, 3));
    assert_eq!(start_and_end(1, 3, 10, 2), (3, 6));
    assert_eq!(start_and_end(2, 3, 10, 2), (6, 10));
    assert_eq!(start_and_end(0, 11, 10, 0), (0, 10));
    assert_eq!(start_and_end(3, 0, 10, 4), (0, 0));
    assert_eq!(start_and_end(4, 0, 10, 4), (0, 10));
}

#[test]
fn forward_finder_lays_the_cheapest_seams() {
    let image = grey(5, 4, &IMAGE_DATA);
    let finder = AviShaTwo::with_workers(&image, 3);
    assert_eq!(finder.find_vertical_seam(), [0, 1, 0, 0]);
    assert_eq!(finder.find_horizontal_seam(), [1, 1, 2, 1, 0]);
}

#[test]
fn forward_finder_takes_the_processors_of_the_machine() {
    let image = grey(5, 4, &IMAGE_DATA);
    let finder = AviShaTwo::new(&image);
    assert_eq!(finder.find_vertical_seam(), [0, 1, 0, 0]);
    assert_eq!(finder.find_horizontal_seam(), [1, 1, 2, 1, 0]);
}

#[test]
fn forward_seams_are_seams() {
    for seed in 0..10 {
        let (width, height) = (2 + seed % 11, 2 + seed % 5);
        let image = scrambled(width, height, seed);
        let finder = AviShaTwo::with_workers(&image, 4);
        let vertical = finder.find_vertical_seam();
        assert_eq!(vertical.len(), height as usize);
        assert!(vertical.iter().all(|x| *x < width));
        assert!(vertical.windows(2).all(|p| p[0].abs_diff(p[1]) <= 1));
        let horizontal = finder.find_horizontal_seam();
        assert_eq!(horizontal.len(), width as usize);
        assert!(horizontal.iter().all(|y| *y < height));
        assert!(horizontal.windows(2).all(|p| p[0].abs_diff(p[1]) <= 1));
    }
}

#[test]
fn flipper_swaps_every_query() {
    let image = grey(5, 4, &IMAGE_DATA);
    let flipped = Flipper { image: &image };
    assert_eq!(image.dimensions(), (5, 4));
    assert_eq!(flipped.dimensions(), (4, 5));
    assert_eq!(flipped.width(), 4);
    assert_eq!(flipped.height(), 5);
    assert_eq!(image.bounds(), (0, 0, 5, 4));
    assert_eq!(flipped.bounds(), (0, 0, 4, 5));
    assert_eq!(flipped.get_pixel(1, 2), image.get_pixel(2, 1));
    assert_eq!(flipped.get_pixel(3, 4), Pixel::Luma(9));
    assert_eq!(flipped.get_pixel(1, 3), Pixel::Luma(8));
    assert_eq!(flipped.inner().energy, image.energy);
}

fn costs(width: u32, height: u32, first_row: &[u64]) -> TwoDimensionalMap<EnergyAndBackPointer<u64>> {
    let mut map = TwoDimensionalMap::filled(width, height, EnergyAndBackPointer::new(0u64, 0));
    for (x, energy) in first_row.iter().enumerate() {
        map.put_pt(x as u32, 0, EnergyAndBackPointer::new(*energy, 0));
    }
    map
}

fn pair(cell: EnergyAndBackPointer<u64>) -> (u64, u32) {
    (cell.energy, cell.parent)
}

#[test]
fn candidate_adds_the_step_to_the_cheapest_way_in() {
    let image = grey(5, 4, &IMAGE_DATA);
    let above = costs(5, 4, &[0, 81, 0, 81, 0]);
    assert_eq!(pair(cost_candidate_pixel(&image, &above, (0, 1))), (64, 0));
    assert_eq!(pair(cost_candidate_pixel(&image, &above, (1, 1))), (0, 0));
    assert_eq!(pair(cost_candidate_pixel(&image, &above, (2, 1))), (49, 2));
    assert_eq!(pair(cost_candidate_pixel(&image, &above, (3, 1))), (0, 2));
    assert_eq!(pair(cost_candidate_pixel(&image, &above, (4, 1))), (1, 4));
}

#[test]
fn candidate_of_equal_costs_comes_from_straight_above() {
    let image = TwoDimensionalMap::filled(3, 2, Pixel::Luma(5));
    let above = costs(3, 2, &[4, 4, 4]);
    assert_eq!(pair(cost_candidate_pixel(&image, &above, (0, 1))), (4, 0));
    assert_eq!(pair(cost_candidate_pixel(&image, &above, (1, 1))), (4, 1));
    assert_eq!(pair(cost_candidate_pixel(&image, &above, (2, 1))), (4, 2));
}

#[test]
fn candidate_of_equal_sides_comes_from_the_left() {
    let image = TwoDimensionalMap::filled(3, 2, Pixel::Luma(5));
    let above = costs(3, 2, &[1, 5, 1]);
    assert_eq!(pair(cost_candidate_pixel(&image, &above, (1, 1))), (1, 0));
    let above = costs(3, 2, &[2, 5, 1]);
    assert_eq!(pair(cost_candidate_pixel(&image, &above, (1, 1))), (1, 2));
}

#[test]
fn candidate_pays_for_the_edges_that_a_step_aside_makes() {
    // Row 0 is 0 9 0, row 1 is 5 5 5: stepping aside into the middle of
    // row 1 brings the 9 above next to a 5.
    let image = grey(3, 2, &[0, 9, 0, 5, 5, 5]);
    let above = costs(3, 2, &[0, 20, 0]);
    assert_eq!(pair(cost_candidate_pixel(&image, &above, (1, 1))), (16, 0));
    let above = costs(3, 2, &[0, 15, 0]);
    assert_eq!(pair(cost_candidate_pixel(&image, &above, (1, 1))), (15, 1));
}

#[test]
fn one_row_is_the_same_however_it_is_shared_out() {
    let image = grey(5, 4, &IMAGE_DATA);
    let map = calculate_cost(&image, 1);
    let expected = vec![(64, 0), (0, 0), (49, 2), (0, 2), (1, 4)];
    for (segment_size, thread_count) in [(5, 1), (2, 3), (1, 5), (0, 7), (3, 2), (1, 1), (0, 1)] {
        let row = calculate_one_row(1, 5, segment_size, thread_count, &image, &map);
        assert_eq!(row.into_iter().map(pair).collect::<Vec<_>>(), expected);
    }
    let row = calculate_one_row(3, 5, 2, 2, &image, &map);
    assert_eq!(
        row.into_iter().map(pair).collect::<Vec<_>>(),
        vec![(0, 0), (0, 1), (81, 2), (0, 2), (162, 4)]
    );
}

#[test]
fn a_machine_gives_one_worker_for_each_processor() {
    assert_eq!(workers_for(1), 1);
    assert_eq!(workers_for(8), 8);
    assert_eq!(workers_for(usize::MAX), usize::MAX);
}

#[test]
fn a_machine_without_processors_gives_one_worker() {
    assert_eq!(workers_for(0), 1);
}

#[test]
fn a_finder_takes_at_least_one_worker() {
    let image = grey(5, 4, &IMAGE_DATA);
    assert!(AviShaTwo::new(&image).workers >= 1);
}
