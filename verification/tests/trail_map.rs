use blob_simulator::config::{SIM_HEIGHT, SIM_SIZE, SIM_WIDTH};
use blob_simulator::trail_map::{
    averaged_channel, BlobOutsideSimulationError, TrailMap, TrailMark, GRID_HEIGHT, GRID_WIDTH,
};

fn mark(x: usize, y: usize, color: u32) -> TrailMark {
    TrailMark { cell: Some((x, y)), color }
}

fn blur(map: &mut TrailMap) -> Vec<u32> {
    let mut destination = vec![0u32; SIM_SIZE];
    map.blur_and_evaporate_into(&mut destination);
    destination
}

#[test]
fn new_map_is_black_and_full_size() {
    let map = TrailMap::new();
    assert_eq!(map.pixels().len(), SIM_SIZE);
    assert!(map.pixels().iter().all(|&p| p == 0));
    let default_map = TrailMap::default();
    assert_eq!(default_map.pixels().len(), SIM_SIZE);
}

#[test]
fn grid_constants_agree() {
    assert_eq!(GRID_WIDTH, usize::from(SIM_WIDTH));
    assert_eq!(GRID_HEIGHT, usize::from(SIM_HEIGHT));
    assert_eq!(SIM_SIZE, GRID_WIDTH * GRID_HEIGHT);
}

#[test]
fn deposit_writes_color_at_row_major_index() {
    let mut map = TrailMap::new();
    assert_eq!(map.deposit(&[mark(5, 2, 0x00BFFF)]), Ok(()));
    assert_eq!(map.pixels()[2 * GRID_WIDTH + 5], 0x00BFFF);
    assert_eq!(map.pixels()[5 * GRID_WIDTH + 2], 0);
    assert_eq!(map.pixels().iter().filter(|&&p| p != 0).count(), 1);
}

#[test]
fn deposit_at_last_cell() {
    let mut map = TrailMap::new();
    assert_eq!(map.deposit(&[mark(GRID_WIDTH - 1, GRID_HEIGHT - 1, 7)]), Ok(()));
    assert_eq!(map.pixels()[SIM_SIZE - 1], 7);
}

#[test]
fn deposit_later_marks_overwrite_earlier() {
    let mut map = TrailMap::new();
    let marks = [mark(1, 1, 10), mark(3, 0, 20), mark(1, 1, 30)];
    assert_eq!(map.deposit(&marks), Ok(()));
    assert_eq!(map.pixels()[GRID_WIDTH + 1], 30);
    assert_eq!(map.pixels()[3], 20);
}

#[test]
fn deposit_stops_at_first_mark_without_cell() {
    let mut map = TrailMap::new();
    let marks = [
        mark(0, 0, 1),
        TrailMark { cell: None, color: 2 },
        mark(1, 0, 3),
    ];
    assert_eq!(map.deposit(&marks), Err(BlobOutsideSimulationError));
    assert_eq!(map.pixels()[0], 1);
    assert_eq!(map.pixels()[1], 0);
}

#[test]
fn deposit_rejects_cells_off_the_grid() {
    let mut map = TrailMap::new();
    assert_eq!(map.deposit(&[mark(4, 4, 9), mark(GRID_WIDTH, 0, 5)]), Err(BlobOutsideSimulationError));
    assert_eq!(map.pixels()[4 * GRID_WIDTH + 4], 9);
    assert_eq!(map.pixels()[GRID_WIDTH], 0);
    let mut other = TrailMap::new();
    assert_eq!(other.deposit(&[mark(0, GRID_HEIGHT, 5)]), Err(BlobOutsideSimulationError));
    assert!(other.pixels().iter().all(|&p| p == 0));
}

#[test]
fn deposit_of_nothing_succeeds() {
    let mut map = TrailMap::new();
    assert_eq!(map.deposit(&[]), Ok(()));
    assert!(map.pixels().iter().all(|&p| p == 0));
}

#[test]
fn averaged_channel_values() {
    assert_eq!(averaged_channel(10, 3, 0), 3);
    assert_eq!(averaged_channel(10, 3, 1), 2);
    assert_eq!(averaged_channel(10, 3, 5), 0);
    assert_eq!(averaged_channel(2295, 9, 0), 255);
    assert_eq!(averaged_channel(2295, 9, 1), 254);
    // An average above a byte is truncated to its low byte.
    assert_eq!(averaged_channel(600, 1, 0), 88);
}

#[test]
fn blurred_pixel_of_interior_cell_averages_nine_cells() {
    let mut map = TrailMap::new();
    // Red 90 in the middle of a black neighbourhood.
    assert_eq!(map.deposit(&[mark(10, 10, 90 << 16)]), Ok(()));
    let centre = 10 * GRID_WIDTH + 10;
    assert_eq!(map.blurred_and_evaporated_pixel(centre, 0), 10 << 16);
    assert_eq!(map.blurred_and_evaporated_pixel(centre, 1), 9 << 16);
    assert_eq!(map.blurred_and_evaporated_pixel(centre + 1, 0), 10 << 16);
    assert_eq!(map.blurred_and_evaporated_pixel(centre + 2, 0), 0);
}

#[test]
fn blurred_pixel_at_corner_averages_four_cells() {
    let mut map = TrailMap::new();
    assert_eq!(map.deposit(&[mark(0, 0, 0x0000_0064), mark(1, 1, 0x0000_0004)]), Ok(()));
    // (100 + 4) / 4 = 26 in blue.
    assert_eq!(map.blurred_and_evaporated_pixel(0, 0), 26);
    assert_eq!(map.blurred_and_evaporated_pixel(0, 1), 25);
}

#[test]
fn blurred_pixel_does_not_wrap_rows() {
    let mut map = TrailMap::new();
    // The last cell of row 0 and the first cell of row 1 are adjacent in memory only.
    assert_eq!(map.deposit(&[mark(GRID_WIDTH - 1, 0, 60 << 8)]), Ok(()));
    // Cell (0, 1) has a 2x3 neighbourhood that does not contain (GRID_WIDTH - 1, 0).
    assert_eq!(map.blurred_and_evaporated_pixel(GRID_WIDTH, 0), 0);
    // Cell (GRID_WIDTH - 2, 0) has a 3x2 neighbourhood: 60 / 6 = 10 in green.
    assert_eq!(map.blurred_and_evaporated_pixel(GRID_WIDTH - 2, 0), 10 << 8);
}

#[test]
fn blurred_pixel_in_row_past_the_last() {
    let mut map = TrailMap::new();
    assert_eq!(map.deposit(&[mark(0, GRID_HEIGHT - 1, 0x0030_0000)]), Ok(()));
    // The neighbourhood of a cell one row past the grid is the last row alone.
    assert_eq!(map.blurred_and_evaporated_pixel(SIM_SIZE, 0), 0x0018_0000);
}

#[test]
fn blur_drops_top_byte() {
    let mut map = TrailMap::new();
    assert_eq!(map.deposit(&[mark(7, 7, 0xFF00_0000)]), Ok(()));
    assert_eq!(map.blurred_and_evaporated_pixel(7 * GRID_WIDTH + 7, 0), 0);
}

#[test]
fn blur_keeps_result_and_alternates_evaporation() {
    let mut map = TrailMap::new();
    let mut marks = Vec::new();
    for y in 0..GRID_HEIGHT {
        for x in 0..GRID_WIDTH {
            marks.push(mark(x, y, 0x0050_6070));
        }
    }
    assert_eq!(map.deposit(&marks), Ok(()));
    // First step evaporates one unit in each channel.
    let first = blur(&mut map);
    assert!(first.iter().all(|&p| p == 0x004F_5F6F));
    assert_eq!(map.pixels(), first.as_slice());
    // Second step does not evaporate: a uniform map is a fixed point.
    let second = blur(&mut map);
    assert!(second.iter().all(|&p| p == 0x004F_5F6F));
    // Third step evaporates again.
    let third = blur(&mut map);
    assert!(third.iter().all(|&p| p == 0x004E_5E6E));
    assert_eq!(map.pixels(), third.as_slice());
}

#[test]
fn blur_of_black_map_stays_black() {
    let mut map = TrailMap::new();
    let out = blur(&mut map);
    assert!(out.iter().all(|&p| p == 0));
    let out = blur(&mut map);
    assert!(out.iter().all(|&p| p == 0));
}

#[test]
fn blur_spreads_a_single_deposit() {
    let mut map = TrailMap::new();
    assert_eq!(map.deposit(&[mark(100, 50, 0x0000_5A00)]), Ok(()));
    let _ = blur(&mut map);
    let pixels = map.pixels();
    // 90 / 9 = 10, less one unit of evaporation.
    for dy in 0..3usize {
        for dx in 0..3usize {
            assert_eq!(pixels[(49 + dy) * GRID_WIDTH + 99 + dx], 9 << 8);
        }
    }
    assert_eq!(pixels[48 * GRID_WIDTH + 100], 0);
    assert_eq!(pixels[50 * GRID_WIDTH + 102], 0);
}

#[test]
fn repeated_deposit_changes_nothing() {
    let mut map = TrailMap::new();
    let marks = [mark(2, 3, 11), mark(4, 5, 22), mark(2, 3, 33)];
    assert_eq!(map.deposit(&marks), Ok(()));
    let once = map.pixels().to_vec();
    assert_eq!(map.deposit(&marks), Ok(()));
    assert_eq!(map.pixels(), once.as_slice());
}

#[test]
fn split_deposit_equals_whole_deposit() {
    let marks = [mark(1, 1, 5), mark(2, 2, 6), mark(1, 1, 7), mark(3, 3, 8)];
    let mut whole = TrailMap::new();
    assert_eq!(whole.deposit(&marks), Ok(()));
    let mut split = TrailMap::new();
    assert_eq!(split.deposit(&marks[..2]), Ok(()));
    assert_eq!(split.deposit(&marks[2..]), Ok(()));
    assert_eq!(whole.pixels(), split.pixels());

    let bad = [mark(1, 1, 5), TrailMark { cell: None, color: 6 }, mark(3, 3, 8)];
    let mut whole = TrailMap::new();
    assert_eq!(whole.deposit(&bad), Err(BlobOutsideSimulationError));
    let mut split = TrailMap::new();
    assert_eq!(split.deposit(&bad[..2]), Err(BlobOutsideSimulationError));
    assert_eq!(whole.pixels(), split.pixels());
}

#[test]
fn blur_is_left_right_symmetric() {
    let mut left = TrailMap::new();
    let mut right = TrailMap::new();
    assert_eq!(left.deposit(&[mark(0, 5, 0x0063_0000), mark(1, 6, 0x0000_0909)]), Ok(()));
    assert_eq!(
        right.deposit(&[mark(GRID_WIDTH - 1, 5, 0x0063_0000), mark(GRID_WIDTH - 2, 6, 0x0000_0909)]),
        Ok(())
    );
    for y in 4..8usize {
        for x in 0..4usize {
            assert_eq!(
                left.blurred_and_evaporated_pixel(y * GRID_WIDTH + x, 0),
                right.blurred_and_evaporated_pixel(y * GRID_WIDTH + (GRID_WIDTH - 1 - x), 0)
            );
        }
    }
}

#[test]
fn blur_is_monotone() {
    let mut dark = TrailMap::new();
    let mut bright = TrailMap::new();
    assert_eq!(dark.deposit(&[mark(9, 9, 0x0010_2030)]), Ok(()));
    assert_eq!(bright.deposit(&[mark(9, 9, 0x0011_2131), mark(10, 9, 0x0001_0101)]), Ok(()));
    for i in [8 * GRID_WIDTH + 8, 9 * GRID_WIDTH + 9, 10 * GRID_WIDTH + 11] {
        let d = dark.blurred_and_evaporated_pixel(i, 1);
        let b = bright.blurred_and_evaporated_pixel(i, 0);
        for shift in [16u32, 8, 0] {
            assert!((d >> shift) & 0xFF <= (b >> shift) & 0xFF);
        }
    }
}

#[test]
fn deposits_do_not_change_evaporation_phase() {
    let mut map = TrailMap::new();
    assert_eq!(map.deposit(&[mark(0, 0, 0x0000_0009)]), Ok(()));
    // First blur evaporates: the corner's 2x2 neighbourhood averages 9 / 4 = 2, less 1.
    let first = blur(&mut map);
    assert_eq!(first[0], 1);
    assert_eq!(map.deposit(&[mark(0, 0, 0x0000_0008), TrailMark { cell: None, color: 0 }]), Err(BlobOutsideSimulationError));
    // Second blur does not evaporate: the neighbours went to 0, so 8 / 4 = 2.
    let second = blur(&mut map);
    assert_eq!(second[0], 2);
    assert_eq!(map.deposit(&[mark(0, 0, 0x0000_000C)]), Ok(()));
    // Third blur evaporates again: the neighbours hold 8 / 6 = 1, 8 / 6 = 1
    // and 8 / 9 = 0, so (12 + 1 + 1 + 0) / 4 = 3, less 1.
    let third = blur(&mut map);
    assert_eq!(third[0], 2);
}
