use uefi_gb::color::Rgb;
use uefi_gb::frame::{
    FrameBuffer, FrameCompositor, FrameError, Layout, Resolution, Surface, REFRESH_INTERVAL,
};

const WHITE: Rgb = Rgb { r: 255, g: 255, b: 255 };
const BLACK: Rgb = Rgb { r: 0, g: 0, b: 0 };
const RED: Rgb = Rgb { r: 255, g: 0, b: 0 };

fn res(width: usize, height: usize, stride: usize) -> Resolution {
    Resolution { width, height, stride }
}

fn compositor(width: usize, height: usize, r: Resolution) -> FrameCompositor {
    match FrameCompositor::new(width, height, r) {
        Some(c) => c,
        None => panic!("no compositor"),
    }
}

#[test]
fn refresh_interval_default() {
    assert_eq!(REFRESH_INTERVAL, 50_000);
}

#[test]
fn layout_scales_and_centres() {
    assert_eq!(
        Layout::compute(160, 144, res(1024, 768, 1024)),
        Layout { scale: 5, x0: 112, y0: 24 }
    );
    assert_eq!(Layout::compute(160, 144, res(800, 600, 800)), Layout { scale: 4, x0: 80, y0: 12 });
    assert_eq!(Layout::compute(160, 144, res(640, 480, 640)), Layout { scale: 3, x0: 80, y0: 24 });
    assert_eq!(Layout::compute(160, 144, res(160, 144, 160)), Layout { scale: 1, x0: 0, y0: 0 });
    assert_eq!(Layout::compute(160, 144, res(161, 147, 161)), Layout { scale: 1, x0: 0, y0: 1 });
    assert_eq!(Layout::compute(2, 2, res(7, 9, 8)), Layout { scale: 3, x0: 0, y0: 1 });
}

#[test]
fn layout_never_scales_below_one() {
    assert_eq!(Layout::compute(160, 144, res(100, 100, 100)), Layout { scale: 1, x0: 0, y0: 0 });
    assert_eq!(Layout::compute(160, 144, res(320, 100, 320)), Layout { scale: 1, x0: 80, y0: 0 });
    assert_eq!(Layout::compute(160, 144, res(0, 0, 0)), Layout { scale: 1, x0: 0, y0: 0 });
}

#[test]
fn frame_starts_black() {
    let f = FrameBuffer::new(3, 2).unwrap();
    assert_eq!(f.width(), 3);
    assert_eq!(f.height(), 2);
    for y in 0..2 {
        for x in 0..3 {
            assert_eq!(f.cell(x, y), Some(0));
        }
    }
    assert_eq!(f.cell(3, 0), None);
    assert_eq!(f.cell(0, 2), None);
}

#[test]
fn frames_without_cells_are_refused() {
    assert!(FrameBuffer::new(0, 5).is_none());
    assert!(FrameBuffer::new(5, 0).is_none());
    assert!(FrameBuffer::new(usize::MAX, 2).is_none());
    assert!(FrameBuffer::new(usize::MAX / 4, 2).is_none());
    assert!(FrameCompositor::new(0, 1, res(4, 4, 4)).is_none());
    assert!(FrameCompositor::new(1, 0, res(4, 4, 4)).is_none());
}

#[test]
fn surfaces_with_short_rows_are_refused() {
    assert!(Surface::new(res(5, 4, 4)).is_none());
    assert!(Surface::new(res(4, usize::MAX, 4)).is_none());
    assert!(FrameCompositor::new(2, 2, res(5, 4, 4)).is_none());
    assert!(Surface::new(res(4, 4, 4)).is_some());
    assert!(Surface::new(res(4, 4, 6)).is_some());
    assert!(Surface::new(res(0, 0, 0)).is_some());
}

#[test]
fn write_scanline_replaces_one_line() {
    let mut f = FrameBuffer::new(3, 3).unwrap();
    assert_eq!(f.write_scanline(1, &[7, 8, 9]), Ok(()));
    assert_eq!(f.write_scanline(2, &[1, 2, 3]), Ok(()));
    let expected = [[0, 0, 0], [7, 8, 9], [1, 2, 3]];
    for y in 0..3 {
        for x in 0..3 {
            assert_eq!(f.cell(x, y), Some(expected[y][x]));
        }
    }
    assert_eq!(f.write_scanline(1, &[4, 5, 6]), Ok(()));
    assert_eq!(f.cell(0, 1), Some(4));
    assert_eq!(f.cell(2, 2), Some(3));
}

#[test]
fn write_scanline_refuses_wrong_rows() {
    let mut f = FrameBuffer::new(3, 2).unwrap();
    assert_eq!(f.write_scanline(0, &[1, 2, 3]), Ok(()));
    assert_eq!(f.write_scanline(2, &[1, 2, 3]), Err(FrameError::LineOutOfRange));
    assert_eq!(f.write_scanline(usize::MAX, &[1, 2, 3]), Err(FrameError::LineOutOfRange));
    assert_eq!(f.write_scanline(1, &[1, 2]), Err(FrameError::WidthMismatch));
    assert_eq!(f.write_scanline(1, &[1, 2, 3, 4]), Err(FrameError::WidthMismatch));
    assert_eq!(f.write_scanline(1, &[]), Err(FrameError::WidthMismatch));
    assert_eq!(f.write_scanline(2, &[]), Err(FrameError::LineOutOfRange));
    for x in 0..3 {
        assert_eq!(f.cell(x, 0), Some(x as u32 + 1));
        assert_eq!(f.cell(x, 1), Some(0));
    }
}

#[test]
fn surface_starts_white() {
    let s = Surface::new(res(3, 2, 4)).unwrap();
    assert_eq!(s.resolution(), res(3, 2, 4));
    assert_eq!(s.pixels().len(), 8);
    assert!(s.pixels().iter().all(|p| *p == WHITE));
    assert_eq!(s.pixel(2, 1), Some(WHITE));
    assert_eq!(s.pixel(3, 1), None);
    assert_eq!(s.pixel(0, 2), None);
}

#[test]
fn red_line_shows_at_the_top_left_of_its_block() {
    let mut c = compositor(160, 144, res(1024, 768, 1024));
    assert_eq!(c.layout(), Layout { scale: 5, x0: 112, y0: 24 });
    assert_eq!(c.write_scanline(0, &[0xFF0000; 160]), Ok(()));
    assert_eq!(c.surface().pixel(112, 24), Some(WHITE));
    assert!(c.flush(60_000));
    let s = c.surface();
    assert_eq!(s.pixel(112, 24), Some(RED));
    for y in 24..29 {
        for x in 112..912 {
            assert_eq!(s.pixel(x, y), Some(RED));
        }
        assert_eq!(s.pixel(111, y), Some(WHITE));
        assert_eq!(s.pixel(912, y), Some(WHITE));
    }
    for x in 112..912 {
        assert_eq!(s.pixel(x, 23), Some(WHITE));
        assert_eq!(s.pixel(x, 29), Some(BLACK));
        assert_eq!(s.pixel(x, 743), Some(BLACK));
        assert_eq!(s.pixel(x, 744), Some(WHITE));
    }
}

#[test]
fn each_cell_becomes_a_block() {
    let mut c = compositor(2, 2, res(7, 9, 8));
    assert_eq!(c.layout(), Layout { scale: 3, x0: 0, y0: 1 });
    assert_eq!(c.write_scanline(0, &[0x010203, 0x040506]), Ok(()));
    assert_eq!(c.write_scanline(1, &[0x070809, 0xFF0a0b0c]), Ok(()));
    assert!(c.flush(50_000));
    let a = Rgb { r: 1, g: 2, b: 3 };
    let b = Rgb { r: 4, g: 5, b: 6 };
    let d = Rgb { r: 7, g: 8, b: 9 };
    let e = Rgb { r: 10, g: 11, b: 12 };
    let w = WHITE;
    let expected = [
        [w, w, w, w, w, w, w, w],
        [a, a, a, b, b, b, w, w],
        [a, a, a, b, b, b, w, w],
        [a, a, a, b, b, b, w, w],
        [d, d, d, e, e, e, w, w],
        [d, d, d, e, e, e, w, w],
        [d, d, d, e, e, e, w, w],
        [w, w, w, w, w, w, w, w],
        [w, w, w, w, w, w, w, w],
    ];
    let s = c.surface();
    assert_eq!(s.pixels().len(), 72);
    for y in 0..9 {
        for x in 0..8 {
            assert_eq!(s.pixels()[y * 8 + x], expected[y][x]);
        }
    }
}

#[test]
fn frame_larger_than_surface_is_cut_off() {
    let mut c = compositor(3, 3, res(2, 2, 2));
    assert_eq!(c.layout(), Layout { scale: 1, x0: 0, y0: 0 });
    assert_eq!(c.write_scanline(0, &[1, 2, 3]), Ok(()));
    assert_eq!(c.write_scanline(1, &[4, 5, 6]), Ok(()));
    assert_eq!(c.write_scanline(2, &[7, 8, 9]), Ok(()));
    assert!(c.flush(50_000));
    let s = c.surface();
    assert_eq!(s.pixel(0, 0), Some(Rgb { r: 0, g: 0, b: 1 }));
    assert_eq!(s.pixel(1, 0), Some(Rgb { r: 0, g: 0, b: 2 }));
    assert_eq!(s.pixel(0, 1), Some(Rgb { r: 0, g: 0, b: 4 }));
    assert_eq!(s.pixel(1, 1), Some(Rgb { r: 0, g: 0, b: 5 }));
}

#[test]
fn flush_twice_shows_the_same() {
    let mut c = compositor(4, 3, res(13, 11, 16));
    assert_eq!(c.write_scanline(0, &[0x112233, 0x445566, 0x778899, 0xaabbcc]), Ok(()));
    assert_eq!(c.write_scanline(2, &[1, 2, 3, 4]), Ok(()));
    assert!(c.flush(50_000));
    let first: Vec<Rgb> = c.surface().pixels().to_vec();
    assert!(!c.flush(60_000));
    assert_eq!(c.surface().pixels(), &first[..]);
    assert!(c.flush(100_000));
    assert_eq!(c.surface().pixels(), &first[..]);
    assert!(c.flush(1_000_000));
    assert_eq!(c.surface().pixels(), &first[..]);
}

#[test]
fn flush_is_gated() {
    let mut c = compositor(2, 2, res(4, 4, 4));
    assert!(!c.flush(0));
    assert!(!c.flush(49_999));
    assert!(c.flush(50_000));
    assert_eq!(c.write_scanline(0, &[0xFF0000, 0xFF0000]), Ok(()));
    let mut redraws = 0;
    let mut now = 50_000;
    while now < 300_000 {
        now += 10;
        if c.flush(now) {
            redraws += 1;
            assert_eq!(now % 50_000, 0);
        }
        if now < 100_000 {
            assert_eq!(c.surface().pixel(0, 0), Some(BLACK));
        } else {
            assert_eq!(c.surface().pixel(0, 0), Some(RED));
        }
    }
    assert_eq!(redraws, 5);
}

#[test]
fn scanline_is_not_shown_before_the_flush() {
    let mut c = compositor(2, 2, res(2, 2, 2));
    assert!(c.flush(50_000));
    assert_eq!(c.surface().pixel(0, 0), Some(BLACK));
    assert_eq!(c.write_scanline(0, &[0xFF0000, 0xFF0000]), Ok(()));
    assert_eq!(c.frame().cell(0, 0), Some(0xFF0000));
    assert_eq!(c.surface().pixel(0, 0), Some(BLACK));
    assert!(!c.flush(99_999));
    assert_eq!(c.surface().pixel(0, 0), Some(BLACK));
    assert!(c.flush(100_000));
    assert_eq!(c.surface().pixel(0, 0), Some(RED));
}

#[test]
fn clear_fills_with_white_and_keeps_the_frame() {
    let mut c = compositor(2, 2, res(5, 4, 6));
    assert_eq!(c.write_scanline(1, &[0xFF0000, 0x00FF00]), Ok(()));
    assert!(c.flush(50_000));
    assert!(c.surface().pixels().iter().any(|p| *p != WHITE));
    c.clear();
    assert_eq!(c.surface().pixels().len(), 24);
    assert!(c.surface().pixels().iter().all(|p| *p == WHITE));
    assert_eq!(c.frame().cell(0, 1), Some(0xFF0000));
    assert!(c.flush(100_000));
    assert_eq!(c.surface().pixel(0, 2), Some(RED));
}

#[test]
fn compositor_write_scanline_refuses_wrong_rows() {
    let mut c = compositor(2, 2, res(4, 4, 4));
    assert_eq!(c.write_scanline(2, &[1, 2]), Err(FrameError::LineOutOfRange));
    assert_eq!(c.write_scanline(0, &[1]), Err(FrameError::WidthMismatch));
    assert_eq!(c.frame().cell(0, 0), Some(0));
}
