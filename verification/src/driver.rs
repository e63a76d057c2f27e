//! Driver interface: Hardware-agnostic, DMA-ready
//!
//! This module defines the traits and types required to integrate FerroGL with
//! various display hardware, supporting RISC-V, ARM, and MCP platforms.
//! The interface is designed to be extensible and efficient, with optional DMA support.

use vstd::prelude::*;

verus! {

/// Supported CPU architectures for display drivers.
#[derive(Debug, Clone, Copy, PartialEq, Eq)]
pub enum CpuArch {
    RiscV,
    Arm,
    Mcp,
    Unknown,
}

/// Display information for initialization and configuration.
pub struct DisplayInfo {
    pub width: u16,
    pub height: u16,
    /// bits per pixel
    pub color_depth: u8,
    pub arch: CpuArch,
}

/// DMA transfer trait for displays supporting DMA.
pub trait DmaCapable {
    /// Initiate a DMA transfer of the framebuffer to the display.
    fn dma_transfer(&mut self, buffer: &[u8]);
}

/// The core display driver trait for FerroGL.
pub trait DisplayDriver {
    /// Initialize the display hardware.
    fn init(&mut self, info: &DisplayInfo);

    /// Flush a region of the framebuffer to the display.
    ///
    /// # Arguments
    /// * `x` - X coordinate of the region's top-left corner
    /// * `y` - Y coordinate of the region's top-left corner
    /// * `width` - Width of the region
    /// * `height` - Height of the region
    /// * `buffer` - Pixel data (format depends on color_depth)
    fn flush(&mut self, x: u16, y: u16, width: u16, height: u16, buffer: &[u8]);

    /// Optional: Enable or disable DMA if supported.
    fn enable_dma(&mut self, _enabled: bool) {
    }
}

/// Example: A simple framebuffer-based display driver for demonstration.
pub struct FramebufferDisplay<'a> {
    pub framebuffer: &'a mut [u8],
    pub info: DisplayInfo,
    pub dma_enabled: bool,
}

/// Where row `row` of a region at `(x, y)` starts in a frame whose lines are
/// `stride` bytes apart.
pub open spec fn row_target(stride: int, x: int, y: int, row: int) -> int {
    (y + row) * stride + x
}

/// Where row `row` of a region `width` bytes wide starts in its pixel data.
pub open spec fn row_source(width: int, row: int) -> int {
    row * width
}

/// Whether row `row` lies wholly inside both the frame and the pixel data.
pub open spec fn row_fits(
    frame_len: int,
    data_len: int,
    stride: int,
    x: int,
    y: int,
    width: int,
    row: int,
) -> bool {
    row_target(stride, x, y, row) + width <= frame_len && row_source(width, row) + width
        <= data_len
}

/// The frame with row `row` of the pixel data copied in; a row that does
/// not fit is left out.
pub open spec fn with_row(
    frame: Seq<u8>,
    data: Seq<u8>,
    stride: int,
    x: int,
    y: int,
    width: int,
    row: int,
) -> Seq<u8> {
    if row_fits(frame.len() as int, data.len() as int, stride, x, y, width, row) {
        let at = row_target(stride, x, y, row);
        let from = row_source(width, row);
        Seq::new(
            frame.len(),
            |k: int|
                if at <= k < at + width {
                    data[from + (k - at)]
                } else {
                    frame[k]
                },
        )
    } else {
        frame
    }
}

/// The frame with the first `rows` rows of the pixel data copied in, top row first.
pub open spec fn with_rows(
    frame: Seq<u8>,
    data: Seq<u8>,
    stride: int,
    x: int,
    y: int,
    width: int,
    rows: int,
) -> Seq<u8>
    decreases rows,
{
    if rows <= 0 {
        frame
    } else {
        with_row(
            with_rows(frame, data, stride, x, y, width, rows - 1),
            data,
            stride,
            x,
            y,
            width,
            rows - 1,
        )
    }
}

impl<'a> FramebufferDisplay<'a> {
    /// A display over `framebuffer`, with DMA switched off. The display
    /// writes through: what its framebuffer holds in the end is what
    /// `framebuffer` holds once the display is gone.
    pub fn new(framebuffer: &'a mut [u8], info: DisplayInfo) -> (display: Self)
        ensures
            display.framebuffer@ == old(framebuffer)@,
            final(display.framebuffer)@ == final(framebuffer)@,
            display.info == info,
            !display.dma_enabled,
    {
        Self { framebuffer, info, dma_enabled: false }
    }
}

impl<'a> DisplayDriver for FramebufferDisplay<'a> {
    /// Clears the framebuffer. As after every operation of this display,
    /// the framebuffer is still the one the display was made over.
    fn init(&mut self, _info: &DisplayInfo)
        ensures
            final(self).framebuffer@ == Seq::new(old(self).framebuffer@.len(), |k: int| 0u8),
            final(final(self).framebuffer)@ == final(old(self).framebuffer)@,
            final(self).info == old(self).info,
            final(self).dma_enabled == old(self).dma_enabled,
    {
        let n = self.framebuffer.len();
        let mut i: usize = 0;
        while i < n
            invariant
                self.framebuffer@.len() == n,
                n == old(self).framebuffer@.len(),
                final(self.framebuffer)@ == final(old(self).framebuffer)@,
                self.info == old(self).info,
                self.dma_enabled == old(self).dma_enabled,
                i <= n,
                forall|k: int| 0 <= k < i ==> self.framebuffer@[k] == 0,
            decreases n - i,
        {
            self.framebuffer[i] = 0;
            i += 1;
        }
        assert(self.framebuffer@ =~= Seq::new(n as nat, |k: int| 0u8));
    }

    /// Copies the region's pixel data into the framebuffer row by row,
    /// leaving out each row that does not fit, and starts a DMA transfer of
    /// the pixel data where DMA is switched on.
    fn flush(&mut self, x: u16, y: u16, width: u16, height: u16, buffer: &[u8])
        ensures
            final(self).framebuffer@ == with_rows(
                old(self).framebuffer@,
                buffer@,
                old(self).info.width as int,
                x as int,
                y as int,
                width as int,
                height as int,
            ),
            final(final(self).framebuffer)@ == final(old(self).framebuffer)@,
            final(self).info == old(self).info,
            final(self).dma_enabled == old(self).dma_enabled,
    {
        let stride = self.info.width as u64;
        let frame_len = self.framebuffer.len() as u64;
        let data_len = buffer.len() as u64;
        let mut row: u16 = 0;
        while row < height
            invariant
                row <= height,
                stride == old(self).info.width,
                frame_len == self.framebuffer@.len(),
                frame_len == old(self).framebuffer@.len(),
                data_len == buffer@.len(),
                final(self.framebuffer)@ == final(old(self).framebuffer)@,
                self.info == old(self).info,
                self.dma_enabled == old(self).dma_enabled,
                self.framebuffer@ == with_rows(
                    old(self).framebuffer@,
                    buffer@,
                    stride as int,
                    x as int,
                    y as int,
                    width as int,
                    row as int,
                ),
            decreases height - row,
        {
            assert((y + row) * stride <= 0x1_fffe * 0xffff) by (nonlinear_arith)
                requires
                    y + row <= 0x1_fffe,
                    stride <= 0xffff,
            ;
            assert(row * width <= 0xffff * 0xffff) by (nonlinear_arith)
                requires
                    row <= 0xffff,
                    width <= 0xffff,
            ;
            let at: u64 = (y as u64 + row as u64) * stride + x as u64;
            let from: u64 = row as u64 * width as u64;
            if at + width as u64 <= frame_len && from + width as u64 <= data_len {
                let ghost before = self.framebuffer@;
                let mut k: u16 = 0;
                while k < width
                    invariant
                        k <= width,
                        at + width <= frame_len,
                        from + width <= data_len,
                        frame_len == self.framebuffer@.len(),
                        frame_len == before.len(),
                        data_len == buffer@.len(),
                        final(self.framebuffer)@ == final(old(self).framebuffer)@,
                        self.info == old(self).info,
                        self.dma_enabled == old(self).dma_enabled,
                        forall|j: int|
                            0 <= j < frame_len ==> self.framebuffer@[j] == if at <= j < at + k {
                                buffer@[from + (j - at)]
                            } else {
                                before[j]
                            },
                    decreases width - k,
                {
                    self.framebuffer[(at + k as u64) as usize] = buffer[(from + k as u64) as usize];
                    k += 1;
                }
                assert(self.framebuffer@ =~= with_row(
                    before,
                    buffer@,
                    stride as int,
                    x as int,
                    y as int,
                    width as int,
                    row as int,
                ));
            }
            row += 1;
        }
        if self.dma_enabled {
            self.dma_transfer(buffer);
        }
    }

    /// Switches DMA on or off.
    fn enable_dma(&mut self, enabled: bool)
        ensures
            final(self).dma_enabled == enabled,
            final(self).framebuffer@ == old(self).framebuffer@,
            final(final(self).framebuffer)@ == final(old(self).framebuffer)@,
            final(self).info == old(self).info,
    {
        self.dma_enabled = enabled;
    }
}

impl<'a> DmaCapable for FramebufferDisplay<'a> {
    /// Starts nothing and changes nothing: this display has no DMA engine.
    fn dma_transfer(&mut self, buffer: &[u8])
        ensures
            final(self).framebuffer@ == old(self).framebuffer@,
            final(final(self).framebuffer)@ == final(old(self).framebuffer)@,
            final(self).info == old(self).info,
            final(self).dma_enabled == old(self).dma_enabled,
    {
    }
}

} // verus!
