use pnmseam::avisha2::AviShaTwo;
use pnmseam::flipper::Flipper;
use pnmseam::pixelpairs::Pixel;
use pnmseam::seamcarver::{
    remove_horizontal_seam, remove_vertical_seam, seamcarve, seamcarve_with, to_image, Axis,
    CarveError, CarveState,
};
use pnmseam::seamfinder::SeamFinder;
use pnmseam::twodmap::TwoDimensionalMap;

const IMAGE_DATA: [u8; 20] = [9, 9, 0, 9, 9, 9, 1, 9, 8, 9, 9, 9, 9, 9, 0, 9, 9, 9, 0, 9];

fn grey(width: u32, height: u32, data: &[u8]) -> TwoDimensionalMap<Pixel> {
    TwoDimensionalMap::from_raw(width, height, data.iter().map(|l| Pixel::Luma(*l)).collect())
        .unwrap()
}

fn lumas(image: &TwoDimensionalMap<Pixel>) -> Vec<u8> {
    image.energy.iter().map(|p| p.luma()).collect()
}

fn scrambled(width: u32, height: u32, seed: u32) -> TwoDimensionalMap<Pixel> {
    let mut state = seed;
    let mut next = move || {
        state = state.wrapping_mul(1664525).wrapping_add(1013904223);
        (state >> 24) as u8
    };
    let pixels = (0..width * height).map(|_| Pixel::Rgba(next(), next(), next(), next())).collect();
    TwoDimensionalMap::from_raw(width, height, pixels).unwrap()
}

#[test]
fn carving_to_the_same_size_copies_the_image() {
    let image = scrambled(7, 5, 3);
    let copy = seamcarve(&image, 7, 5).unwrap();
    assert_eq!((copy.width, copy.height), (7, 5));
    assert_eq!(copy.energy, image.energy);
}

#[test]
fn carving_an_empty_image_to_its_size_copies_it() {
    let image = grey(0, 0, &[]);
    let copy = seamcarve(&image, 0, 0).unwrap();
    assert_eq!((copy.width, copy.height), (0, 0));
    let image = grey(1, 3, &[1, 2, 3]);
    assert_eq!(seamcarve(&image, 1, 3).unwrap().energy, image.energy);
}

#[test]
fn carving_to_a_larger_size_is_refused() {
    let image = grey(5, 4, &IMAGE_DATA);
    assert_eq!(seamcarve(&image, 6, 4).unwrap_err(), CarveError::UpscaleRequested);
    assert_eq!(seamcarve(&image, 5, 5).unwrap_err(), CarveError::UpscaleRequested);
    assert_eq!(seamcarve(&image, 6, 5).unwrap_err(), CarveError::UpscaleRequested);
    assert_eq!(seamcarve(&image, 6, 1).unwrap_err(), CarveError::UpscaleRequested);
    assert_eq!(seamcarve(&image, 1, 5).unwrap_err(), CarveError::UpscaleRequested);
    assert_eq!(seamcarve(&image, u32::MAX, 4).unwrap_err(), CarveError::UpscaleRequested);
}

#[test]
fn carving_a_thin_image_to_a_larger_size_is_refused_first() {
    let image = grey(1, 3, &[1, 2, 3]);
    assert_eq!(seamcarve(&image, 2, 2).unwrap_err(), CarveError::UpscaleRequested);
}

#[test]
fn carving_through_a_thin_image_finds_no_seam() {
    let image = grey(1, 3, &[1, 2, 3]);
    assert_eq!(seamcarve(&image, 0, 3).unwrap_err(), CarveError::DegenerateImage);
    assert_eq!(seamcarve(&image, 1, 2).unwrap_err(), CarveError::DegenerateImage);
    let image = grey(3, 1, &[1, 2, 3]);
    assert_eq!(seamcarve(&image, 2, 1).unwrap_err(), CarveError::DegenerateImage);
    assert_eq!(seamcarve(&image, 3, 0).unwrap_err(), CarveError::DegenerateImage);
}

#[test]
fn carving_until_the_image_is_thin_finds_no_seam() {
    let image = grey(5, 4, &IMAGE_DATA);
    assert_eq!(seamcarve(&image, 0, 4).unwrap_err(), CarveError::DegenerateImage);
    assert_eq!(seamcarve(&image, 5, 0).unwrap_err(), CarveError::DegenerateImage);
    let image = grey(2, 2, &[1, 2, 3, 4]);
    assert_eq!(seamcarve(&image, 1, 1).unwrap_err(), CarveError::DegenerateImage);
}

#[test]
fn carving_down_to_one_column_works() {
    let image = grey(5, 4, &IMAGE_DATA);
    let thin = seamcarve(&image, 1, 4).unwrap();
    assert_eq!((thin.width, thin.height), (1, 4));
    assert_eq!(lumas(&thin), vec![9, 9, 0, 9]);
    let thin = seamcarve(&image, 1, 3).unwrap();
    assert_eq!((thin.width, thin.height), (1, 3));
    assert_eq!(lumas(&thin), vec![9, 0, 9]);
}

#[test]
fn carving_one_column_out_of_the_fixture() {
    let image = grey(5, 4, &IMAGE_DATA);
    let narrow = seamcarve(&image, 4, 4).unwrap();
    assert_eq!((narrow.width, narrow.height), (4, 4));
    assert_eq!(lumas(&narrow), vec![9, 0, 9, 9, 9, 9, 8, 9, 9, 9, 9, 0, 9, 9, 0, 9]);
}

#[test]
fn carving_one_row_out_of_the_fixture() {
    let image = grey(5, 4, &IMAGE_DATA);
    let low = seamcarve(&image, 5, 3).unwrap();
    assert_eq!((low.width, low.height), (5, 3));
    assert_eq!(lumas(&low), vec![9, 9, 0, 9, 9, 9, 9, 9, 9, 0, 9, 9, 9, 0, 9]);
}

#[test]
fn carving_both_axes_takes_turns() {
    let image = grey(5, 4, &IMAGE_DATA);
    let small = seamcarve(&image, 3, 2).unwrap();
    assert_eq!((small.width, small.height), (3, 2));
    assert_eq!(lumas(&small), vec![9, 9, 9, 9, 0, 9]);
}

#[test]
fn carving_one_column_deletes_the_seam_from_each_row() {
    for seed in 0..8 {
        let (width, height) = (3 + seed % 6, 2 + seed % 4);
        let image = scrambled(width, height, seed);
        let seam = AviShaTwo::with_workers(&image, 2).find_vertical_seam();
        let narrow = seamcarve(&image, width - 1, height).unwrap();
        assert_eq!((narrow.width, narrow.height), (width - 1, height));
        for r in 0..height as usize {
            let w = width as usize;
            let mut row = image.energy[r * w..(r + 1) * w].to_vec();
            row.remove(seam[r] as usize);
            assert_eq!(&narrow.energy[r * (w - 1)..(r + 1) * (w - 1)], &row[..]);
        }
    }
}

#[test]
fn carving_one_row_deletes_the_seam_from_each_column() {
    for seed in 0..8 {
        let (width, height) = (2 + seed % 6, 3 + seed % 4);
        let image = scrambled(width, height, seed);
        let seam = AviShaTwo::with_workers(&image, 2).find_horizontal_seam();
        let low = seamcarve(&image, width, height - 1).unwrap();
        assert_eq!((low.width, low.height), (width, height - 1));
        for c in 0..width {
            let mut column: Vec<Pixel> = (0..height).map(|y| image.get_pt(c, y)).collect();
            column.remove(seam[c as usize] as usize);
            let carved: Vec<Pixel> = (0..height - 1).map(|y| low.get_pt(c, y)).collect();
            assert_eq!(carved, column);
        }
    }
}

#[test]
fn carving_does_not_depend_on_the_workers() {
    let image = scrambled(12, 9, 5);
    let single = seamcarve_with(&image, 7, 6, 1).unwrap();
    for workers in [0, 2, 5, 64] {
        assert_eq!(seamcarve_with(&image, 7, 6, workers).unwrap().energy, single.energy);
    }
    assert_eq!(seamcarve(&image, 7, 6).unwrap().energy, single.energy);
}

#[test]
fn carving_a_flipped_image_carves_the_other_axis() {
    let image = grey(5, 4, &IMAGE_DATA);
    let flipped = Flipper { image: &image };
    let carved = seamcarve(&flipped, 4, 4).unwrap();
    assert_eq!((carved.width, carved.height), (4, 4));
    let low = seamcarve(&image, 5, 4).unwrap();
    assert_eq!(low.energy, image.energy);
    let direct = seamcarve(&image.transposed(), 4, 4).unwrap();
    assert_eq!(carved.energy, direct.energy);
}

#[test]
fn removing_a_vertical_seam_closes_each_row() {
    let image = TwoDimensionalMap::from_raw(4, 3, (0..12).collect::<Vec<u8>>()).unwrap();
    let carved = remove_vertical_seam(&image, &[0, 3, 2]);
    assert_eq!((carved.width, carved.height), (3, 3));
    assert_eq!(carved.energy, vec![1, 2, 3, 4, 5, 6, 8, 9, 11]);
}

#[test]
fn removing_a_horizontal_seam_closes_each_column() {
    let image = TwoDimensionalMap::from_raw(4, 3, (0..12).collect::<Vec<u8>>()).unwrap();
    let carved = remove_horizontal_seam(&image, &[0, 1, 2, 1]);
    assert_eq!((carved.width, carved.height), (4, 2));
    assert_eq!(carved.energy, vec![4, 1, 2, 3, 8, 9, 6, 11]);
}

#[test]
fn removing_the_last_column_leaves_nothing() {
    let image = TwoDimensionalMap::from_raw(1, 3, vec![1u8, 2, 3]).unwrap();
    let carved = remove_vertical_seam(&image, &[0, 0, 0]);
    assert_eq!((carved.width, carved.height), (0, 3));
    assert!(carved.energy.is_empty());
    let image = TwoDimensionalMap::from_raw(3, 1, vec![1u8, 2, 3]).unwrap();
    let carved = remove_horizontal_seam(&image, &[0, 0, 0]);
    assert_eq!((carved.width, carved.height), (3, 0));
    assert!(carved.energy.is_empty());
}

#[test]
fn horizontal_removal_is_vertical_removal_flipped() {
    let image = TwoDimensionalMap::from_raw(4, 3, (0..12).collect::<Vec<u8>>()).unwrap();
    let seam = [2, 1, 0, 1];
    let direct = remove_horizontal_seam(&image, &seam);
    let flipped = remove_vertical_seam(&image.transposed(), &seam).transposed();
    assert_eq!(direct.energy, flipped.energy);
    assert_eq!((direct.width, direct.height), (flipped.width, flipped.height));
}

#[test]
fn carve_state_follows_the_sizes() {
    assert_eq!(CarveState::of(5, 4, 3, 2), CarveState::BothAxesShrinking);
    assert_eq!(CarveState::of(5, 4, 3, 4), CarveState::SingleAxisShrinking(Axis::Width));
    assert_eq!(CarveState::of(5, 4, 5, 2), CarveState::SingleAxisShrinking(Axis::Height));
    assert_eq!(CarveState::of(5, 4, 5, 4), CarveState::Done);
}

#[test]
fn carve_state_names_the_axis_to_shrink() {
    assert_eq!(CarveState::BothAxesShrinking.axis(Axis::Width), Some(Axis::Width));
    assert_eq!(CarveState::BothAxesShrinking.axis(Axis::Height), Some(Axis::Height));
    assert_eq!(
        CarveState::SingleAxisShrinking(Axis::Height).axis(Axis::Width),
        Some(Axis::Height)
    );
    assert_eq!(CarveState::Done.axis(Axis::Width), None);
    assert_eq!(Axis::Width.other(), Axis::Height);
    assert_eq!(Axis::Height.other(), Axis::Width);
}

#[test]
fn copy_of_a_view_shows_the_same_pixels() {
    let image = grey(5, 4, &IMAGE_DATA);
    assert_eq!(to_image(&image).energy, image.energy);
    let flipped = to_image(&Flipper { image: &image });
    assert_eq!((flipped.width, flipped.height), (4, 5));
    assert_eq!(flipped.energy, image.transposed().energy);
}

fn has_room(width: u32, height: u32, new_width: u32, new_height: u32) -> bool {
    if width == new_width && height == new_height {
        return true;
    }
    width >= 2
        && height >= 2
        && new_width >= 1
        && new_height >= 1
        && (new_width != 1 || (new_height >= 2 && height - new_height < width - new_width))
        && (new_height != 1 || (new_width >= 2 && width - new_width < height - new_height + 1))
}

#[test]
fn carving_succeeds_by_the_sizes_alone() {
    for width in 0..6 {
        for height in 0..6 {
            let image = scrambled(width, height, width * 7 + height);
            for new_width in 0..=width {
                for new_height in 0..=height {
                    match seamcarve_with(&image, new_width, new_height, 2) {
                        Ok(small) => {
                            assert!(has_room(width, height, new_width, new_height));
                            assert_eq!((small.width, small.height), (new_width, new_height));
                            assert_eq!(small.energy.len() as u32, new_width * new_height);
                        }
                        Err(error) => {
                            assert!(!has_room(width, height, new_width, new_height));
                            assert_eq!(error, CarveError::DegenerateImage);
                        }
                    }
                }
            }
        }
    }
}

#[test]
fn carving_to_a_thin_image_needs_the_thin_axis_to_lose_more() {
    let image = scrambled(4, 4, 1);
    assert!(seamcarve(&image, 1, 2).is_ok());
    assert_eq!(seamcarve(&image, 1, 1).unwrap_err(), CarveError::DegenerateImage);
    assert!(seamcarve(&image, 2, 1).is_ok());
    let image = scrambled(5, 3, 1);
    assert_eq!(seamcarve(&image, 2, 1).unwrap_err(), CarveError::DegenerateImage);
    assert!(seamcarve(&image, 4, 1).is_ok());
    let image = scrambled(3, 5, 1);
    assert_eq!(seamcarve(&image, 1, 2).unwrap_err(), CarveError::DegenerateImage);
    assert!(seamcarve(&image, 1, 4).is_ok());
    assert!(seamcarve(&image, 2, 1).is_ok());
}
