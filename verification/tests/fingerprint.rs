use imgdupes::grid::GrayGrid;
use imgdupes::hash::{side_is_valid, ImageHash};

fn bits_of(side: u32, pixels: Vec<u8>) -> Vec<bool> {
    GrayGrid::new(side, pixels).unwrap().fingerprint().to_bools()
}

fn digest_of(side: u32, pixels: Vec<u8>) -> String {
    ImageHash::new(GrayGrid::new(side, pixels).unwrap().fingerprint(), "x").hexdigest()
}

#[test]
fn grid_needs_side_squared_pixels() {
    assert!(GrayGrid::new(2, vec![0; 4]).is_some());
    assert!(GrayGrid::new(2, vec![0; 3]).is_none());
    assert!(GrayGrid::new(2, vec![0; 5]).is_none());
    assert!(GrayGrid::new(3, vec![0; 9]).is_some());
}

#[test]
fn grid_needs_a_positive_side() {
    assert!(GrayGrid::new(0, vec![]).is_none());
    assert!(GrayGrid::new(1, vec![7]).is_some());
}

#[test]
fn grid_refuses_a_side_whose_square_overflows() {
    assert!(GrayGrid::new(65536, vec![]).is_none());
    assert!(GrayGrid::new(u32::MAX, vec![]).is_none());
}

#[test]
fn grid_reads_pixels_row_by_row() {
    let grid = GrayGrid::new(3, vec![1, 2, 3, 4, 5, 6, 7, 8, 9]).unwrap();
    assert_eq!(grid.side_len(), 3);
    assert_eq!(grid.intensity(0, 0), 1);
    assert_eq!(grid.intensity(2, 0), 3);
    assert_eq!(grid.intensity(0, 1), 4);
    assert_eq!(grid.intensity(1, 2), 8);
    assert_eq!(grid.intensity(2, 2), 9);
}

#[test]
fn side_is_valid_from_one_up_to_what_fits() {
    assert!(!side_is_valid(0));
    assert!(side_is_valid(1));
    assert!(side_is_valid(8));
    assert!(side_is_valid(16));
    assert!(side_is_valid(65535));
    assert!(!side_is_valid(65536));
    assert!(!side_is_valid(u32::MAX));
}

#[test]
fn fingerprint_of_one_pixel_compares_it_with_itself() {
    assert_eq!(bits_of(1, vec![200]), vec![false]);
    assert_eq!(digest_of(1, vec![200]), "0");
}

#[test]
fn fingerprint_compares_left_with_right() {
    // row 0: 1 < 2, then 2 < 1 wrapped; row 1: 3 < 3, then 3 < 3 wrapped
    assert_eq!(bits_of(2, vec![1, 2, 3, 3]), vec![true, false, false, false]);
    assert_eq!(digest_of(2, vec![1, 2, 3, 3]), "8");
}

#[test]
fn fingerprint_is_strict() {
    assert_eq!(bits_of(2, vec![5, 5, 5, 5]), vec![false; 4]);
}

#[test]
fn fingerprint_last_column_wraps_to_first_of_same_row() {
    // only the wrapped comparison of each row is true
    let bits = bits_of(3, vec![9, 5, 1, 8, 4, 2, 7, 6, 3]);
    assert_eq!(bits, vec![false, false, true, false, false, true, false, false, true]);
}

#[test]
fn fingerprint_wrap_stays_in_its_row() {
    // last pixel of row 0 is below the first of row 1, but not below the
    // first of row 0
    let bits = bits_of(2, vec![5, 7, 9, 9]);
    assert_eq!(bits, vec![true, false, false, false]);
}

#[test]
fn fingerprint_is_row_major() {
    let bits = bits_of(3, vec![1, 2, 3, 1, 2, 3, 5, 1, 2]);
    assert_eq!(bits, vec![true, true, false, true, true, false, false, true, true]);
    assert_eq!(digest_of(3, vec![1, 2, 3, 1, 2, 3, 5, 1, 2]), "d98");
}

#[test]
fn fingerprint_has_side_squared_bits() {
    for side in 1..20u32 {
        let pixels: Vec<u8> = (0..side * side).map(|i| (i * 37 % 251) as u8).collect();
        assert_eq!(bits_of(side, pixels).len(), (side * side) as usize);
    }
}

#[test]
fn fingerprint_side_8_makes_64_comparisons_and_16_characters() {
    let pixels: Vec<u8> = (0..64u32).map(|i| (i % 8) as u8 * 10).collect();
    assert_eq!(bits_of(8, pixels.clone()).len(), 64);
    assert_eq!(digest_of(8, pixels), "fefefefefefefefe");
}

#[test]
fn fingerprint_side_16_makes_256_comparisons_and_64_characters() {
    let pixels: Vec<u8> = (0..256u32).map(|i| (i % 16) as u8 * 10).collect();
    assert_eq!(bits_of(16, pixels.clone()).len(), 256);
    let digest = digest_of(16, pixels);
    assert_eq!(digest.len(), 64);
    assert_eq!(digest, "fffe".repeat(16));
}

#[test]
fn fingerprint_of_solid_colour_is_all_zero() {
    assert_eq!(digest_of(8, vec![128; 64]), "0000000000000000");
}

#[test]
fn fingerprint_of_columns_that_do_not_change_along_a_row_is_all_zero() {
    let pixels: Vec<u8> = (0..64u32).map(|i| (i / 8) as u8 * 30).collect();
    assert_eq!(digest_of(8, pixels), "0000000000000000");
}

#[test]
fn fingerprint_of_falling_rows_sets_only_the_wrapped_bit() {
    let pixels: Vec<u8> = (0..64u32).map(|i| 200 - (i % 8) as u8 * 10).collect();
    assert_eq!(digest_of(8, pixels), "0101010101010101");
}

#[test]
fn fingerprint_twice_gives_the_same_bits() {
    let pixels: Vec<u8> = (0..81u32).map(|i| (i * 97 % 256) as u8).collect();
    assert_eq!(bits_of(9, pixels.clone()), bits_of(9, pixels));
}

#[test]
fn fingerprint_depends_only_on_order_of_neighbours() {
    // scaling intensities keeps every comparison
    let dark: Vec<u8> = vec![1, 2, 0, 3, 9, 4, 7, 7, 8];
    let bright: Vec<u8> = dark.iter().map(|v| v * 20 + 5).collect();
    assert_eq!(bits_of(3, dark), bits_of(3, bright));
}
