use blob_simulator::color::{color_channels, displayed_color};

#[test]
fn displayed_color_is_big_endian_with_zero_top_byte() {
    assert_eq!(displayed_color([0, 191, 255]), 0x0000_BFFF);
    assert_eq!(displayed_color([0x12, 0x34, 0x56]), 0x0012_3456);
    assert_eq!(displayed_color([255, 255, 255]), 0x00FF_FFFF);
    assert_eq!(displayed_color([0, 0, 0]), 0);
}

#[test]
fn color_channels_split_pixel() {
    assert_eq!(color_channels(0x0012_3456), (0x12, 0x34, 0x56));
    assert_eq!(color_channels(0xFF12_3456), (0x12, 0x34, 0x56));
}

#[test]
fn channels_of_displayed_color_round_trip() {
    for c in [[1u8, 2, 3], [0, 191, 255], [255, 0, 128]] {
        let (r, g, b) = color_channels(displayed_color(c));
        assert_eq!([r, g, b], c);
    }
}
