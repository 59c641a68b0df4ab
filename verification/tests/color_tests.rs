use uefi_gb::color::{unpack, white_pixel, Rgb};

#[test]
fn unpack_splits_the_channels() {
    assert_eq!(unpack(0xFF0000), Rgb { r: 255, g: 0, b: 0 });
    assert_eq!(unpack(0x00FF00), Rgb { r: 0, g: 255, b: 0 });
    assert_eq!(unpack(0x0000FF), Rgb { r: 0, g: 0, b: 255 });
    assert_eq!(unpack(0x123456), Rgb { r: 0x12, g: 0x34, b: 0x56 });
    assert_eq!(unpack(0), Rgb { r: 0, g: 0, b: 0 });
}

#[test]
fn unpack_ignores_alpha() {
    assert_eq!(unpack(0xFF123456), unpack(0x00123456));
    assert_eq!(unpack(0xFFFFFFFF), Rgb { r: 255, g: 255, b: 255 });
    assert_eq!(unpack(0x80000000), Rgb { r: 0, g: 0, b: 0 });
}

#[test]
fn white_is_all_channels_full() {
    assert_eq!(white_pixel(), Rgb { r: 255, g: 255, b: 255 });
    assert_eq!(white_pixel(), unpack(0xFFFFFF));
}
