use ferrogl::driver::{CpuArch, DisplayDriver, DisplayInfo, DmaCapable, FramebufferDisplay};

fn info(width: u16, height: u16) -> DisplayInfo {
    DisplayInfo { width, height, color_depth: 8, arch: CpuArch::RiscV }
}

#[test]
fn new_display_has_dma_off() {
    let mut frame = [1u8, 2, 3, 4];
    let display = FramebufferDisplay::new(&mut frame, info(2, 2));
    assert!(!display.dma_enabled);
    assert_eq!(display.info.width, 2);
    assert_eq!(display.info.height, 2);
    assert_eq!(display.info.color_depth, 8);
    assert_eq!(display.info.arch, CpuArch::RiscV);
    assert_eq!(display.framebuffer, &[1u8, 2, 3, 4]);
}

#[test]
fn init_clears_the_framebuffer() {
    let mut frame = [9u8; 12];
    {
        let mut display = FramebufferDisplay::new(&mut frame, info(4, 3));
        display.init(&info(1, 1));
        assert_eq!(display.info.width, 4);
    }
    assert_eq!(frame, [0u8; 12]);
}

#[test]
fn flush_copies_a_region_row_by_row() {
    let mut frame = [0u8; 12];
    {
        let mut display = FramebufferDisplay::new(&mut frame, info(4, 3));
        display.flush(1, 1, 2, 2, &[1, 2, 3, 4]);
    }
    assert_eq!(frame, [0, 0, 0, 0, 0, 1, 2, 0, 0, 3, 4, 0]);
}

#[test]
fn flush_leaves_out_rows_beyond_the_framebuffer() {
    let mut frame = [0u8; 12];
    {
        let mut display = FramebufferDisplay::new(&mut frame, info(4, 3));
        display.flush(2, 2, 2, 2, &[1, 2, 3, 4]);
    }
    assert_eq!(frame, [0, 0, 0, 0, 0, 0, 0, 0, 0, 0, 1, 2]);
}

#[test]
fn flush_leaves_out_rows_beyond_the_pixel_data() {
    let mut frame = [0u8; 12];
    {
        let mut display = FramebufferDisplay::new(&mut frame, info(4, 3));
        display.flush(0, 0, 3, 3, &[1, 2, 3, 4, 5]);
    }
    assert_eq!(frame, [1, 2, 3, 0, 0, 0, 0, 0, 0, 0, 0, 0]);
}

#[test]
fn flush_of_an_empty_region_changes_nothing() {
    let mut frame = [5u8; 6];
    {
        let mut display = FramebufferDisplay::new(&mut frame, info(3, 2));
        display.flush(1, 1, 0, 2, &[1, 2]);
        display.flush(1, 1, 2, 0, &[1, 2]);
    }
    assert_eq!(frame, [5u8; 6]);
}

#[test]
fn flush_at_the_largest_coordinates_does_not_overflow() {
    let mut frame = [5u8; 6];
    {
        let mut display = FramebufferDisplay::new(&mut frame, info(u16::MAX, u16::MAX));
        display.flush(u16::MAX, u16::MAX, u16::MAX, 3, &[1, 2]);
    }
    assert_eq!(frame, [5u8; 6]);
}

#[test]
fn enable_dma_sets_the_flag_and_flush_still_copies() {
    let mut frame = [0u8; 4];
    {
        let mut display = FramebufferDisplay::new(&mut frame, info(2, 2));
        display.enable_dma(true);
        assert!(display.dma_enabled);
        display.flush(0, 1, 2, 1, &[7, 9]);
        assert!(display.dma_enabled);
        display.enable_dma(false);
        assert!(!display.dma_enabled);
    }
    assert_eq!(frame, [0, 0, 7, 9]);
}

#[test]
fn dma_transfer_changes_nothing() {
    let mut frame = [3u8; 4];
    {
        let mut display = FramebufferDisplay::new(&mut frame, info(2, 2));
        display.dma_transfer(&[1, 2, 3]);
        assert!(!display.dma_enabled);
    }
    assert_eq!(frame, [3u8; 4]);
}

struct Silent;

impl DisplayDriver for Silent {
    fn init(&mut self, _info: &DisplayInfo) {}

    fn flush(&mut self, _x: u16, _y: u16, _width: u16, _height: u16, _buffer: &[u8]) {}
}

#[test]
fn enable_dma_is_optional_for_a_driver() {
    let mut driver = Silent;
    driver.init(&info(1, 1));
    driver.enable_dma(true);
    driver.flush(0, 0, 1, 1, &[0]);
}
