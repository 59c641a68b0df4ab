//! The logical frame buffer, the video surface, and the compositor that scales
//! one onto the other.
//!
//! The emulator writes its picture line by line into a [`FrameBuffer`]. The
//! [`FrameCompositor`] keeps that buffer together with a [`Surface`], an
//! in-memory image of what the video hardware shows, and redraws the surface
//! from the buffer at most once per [`REFRESH_INTERVAL`]. Each logical pixel
//! becomes a square block of `scale` by `scale` surface pixels; the blocks sit
//! in the middle of the surface. The caller copies the surface to the screen.

use vstd::prelude::*;
use crate::color::{unpack, unpacked, white, white_pixel, Rgb};
use crate::time::{due, elapsed_between, is_due};

verus! {

/// Least time between two redraws of the surface, in microseconds.
pub const REFRESH_INTERVAL: u64 = 50_000;

/// Why a scanline was not taken.
#[derive(Clone, Copy, Debug, PartialEq, Eq, Structural)]
pub enum FrameError {
    /// The line number is not below the height of the frame.
    LineOutOfRange,
    /// The row does not have exactly as many pixels as the frame is wide.
    WidthMismatch,
}

/// Size of the video surface as the firmware reports it. `stride` is the
/// number of pixels from the start of one row to the start of the next.
#[derive(Clone, Copy, Debug, PartialEq, Eq, Structural)]
pub struct Resolution {
    pub width: usize,
    pub height: usize,
    pub stride: usize,
}

/// Where the scaled frame lies on the surface: the edge length of a block and
/// the surface position of the frame's top left corner.
#[derive(Clone, Copy, Debug, PartialEq, Eq, Structural)]
pub struct Layout {
    pub scale: usize,
    pub x0: usize,
    pub y0: usize,
}

/// A frame as a value: its size and its cells, row after row.
pub struct FrameView {
    pub width: nat,
    pub height: nat,
    pub cells: Seq<u32>,
}

/// A surface as a value: its resolution and its pixels, row after row, each
/// row `stride` pixels long.
pub struct SurfaceView {
    pub res: Resolution,
    pub pixels: Seq<Rgb>,
}

impl FrameView {
    /// Whether the frame has cells, and as many as its size says.
    pub open spec fn wf(self) -> bool {
        &&& self.width > 0
        &&& self.height > 0
        &&& self.cells.len() == self.width * self.height
    }

    /// The packed colour in column `x` of line `y`.
    pub open spec fn cell(self, x: int, y: int) -> u32 {
        self.cells[y * self.width + x]
    }
}

impl SurfaceView {
    /// Whether each row holds the visible width, and the pixels fill the
    /// rows.
    pub open spec fn wf(self) -> bool {
        &&& self.res.width <= self.res.stride
        &&& self.pixels.len() == self.res.stride * self.res.height
    }

    /// The pixel in column `x` of row `y`.
    pub open spec fn pixel(self, x: int, y: int) -> Rgb {
        self.pixels[y * self.res.stride + x]
    }
}

/// Largest block size at which the whole frame fits the surface, and 1 if
/// it does not fit at all.
pub open spec fn scale_for(frame_width: int, frame_height: int, width: int, height: int) -> int {
    let across = width / frame_width;
    let down = height / frame_height;
    let fit = if across <= down { across } else { down };
    if fit >= 1 { fit } else { 1 }
}

/// The margin that centres `covered` pixels within `available` ones; zero
/// when they do not fit.
pub open spec fn centered(available: int, covered: int) -> int {
    if covered <= available { (available - covered) / 2 } else { 0 }
}

/// The layout of a frame on a surface of the given visible size.
pub open spec fn layout_for(frame_width: int, frame_height: int, width: int, height: int) -> Layout {
    let scale = scale_for(frame_width, frame_height, width, height);
    Layout {
        scale: scale as usize,
        x0: centered(width, scale * frame_width) as usize,
        y0: centered(height, scale * frame_height) as usize,
    }
}

/// Whether the surface position lies inside the scaled frame.
pub open spec fn covers(layout: Layout, frame: FrameView, x: int, y: int) -> bool {
    &&& layout.x0 <= x < layout.x0 + layout.scale * frame.width
    &&& layout.y0 <= y < layout.y0 + layout.scale * frame.height
}

/// What the surface position shows after the frame was drawn over `before`:
/// inside the scaled frame the colour of the logical pixel whose block holds
/// the position, elsewhere what was there.
pub open spec fn drawn_pixel(
    before: SurfaceView,
    frame: FrameView,
    layout: Layout,
    x: int,
    y: int,
) -> Rgb {
    if x < before.res.width && covers(layout, frame, x, y) {
        unpacked(
            frame.cell(
                (x - layout.x0) / (layout.scale as int),
                (y - layout.y0) / (layout.scale as int),
            ),
        )
    } else {
        before.pixel(x, y)
    }
}

/// The surface after the frame was drawn over `before`.
pub open spec fn drawn(before: SurfaceView, frame: FrameView, layout: Layout) -> SurfaceView {
    SurfaceView {
        res: before.res,
        pixels: Seq::new(
            before.pixels.len(),
            |i: int|
                drawn_pixel(
                    before,
                    frame,
                    layout,
                    i % (before.res.stride as int),
                    i / (before.res.stride as int),
                ),
        ),
    }
}

/// The surface filled with white.
pub open spec fn cleared(before: SurfaceView) -> SurfaceView {
    SurfaceView { res: before.res, pixels: Seq::new(before.pixels.len(), |i: int| white()) }
}

/// Why `write_scanline` refuses a row, if it does.
pub open spec fn scanline_error(frame: FrameView, line: int, len: int) -> Option<FrameError> {
    if line >= frame.height {
        Some(FrameError::LineOutOfRange)
    } else if len != frame.width {
        Some(FrameError::WidthMismatch)
    } else {
        None
    }
}

/// The frame with line `line` replaced by `row`.
pub open spec fn with_scanline(frame: FrameView, line: int, row: Seq<u32>) -> FrameView {
    FrameView {
        width: frame.width,
        height: frame.height,
        cells: Seq::new(
            frame.cells.len(),
            |i: int|
                if line * frame.width <= i < (line + 1) * frame.width {
                    row[i - line * frame.width]
                } else {
                    frame.cells[i]
                },
        ),
    }
}

/// Position `(x, y)` of a grid that is `width` wide has its own index, and
/// the index gives the position back.
proof fn lemma_grid_index(x: int, y: int, width: int, height: int)
    requires
        0 <= x < width,
        0 <= y < height,
    ensures
        0 <= y * width + x < width * height,
        (y * width + x) / width == y,
        (y * width + x) % width == x,
{
    assert(0 <= y * width && y * width + width <= width * height) by (nonlinear_arith)
        requires
            0 <= y < height,
            0 < width,
    ;
    vstd::arithmetic::div_mod::lemma_fundamental_div_mod_converse(y * width + x, width, y, x);
}

/// Every index of a grid is the index of one position.
proof fn lemma_grid_position(i: int, width: int, height: int)
    requires
        0 <= i < width * height,
        0 < width,
    ensures
        0 <= i % width < width,
        0 <= i / width < height,
        (i / width) * width + i % width == i,
{
    vstd::arithmetic::div_mod::lemma_fundamental_div_mod(i, width);
    let q = i / width;
    assert(0 <= q < height) by (nonlinear_arith)
        requires
            0 <= i < width * height,
            0 < width,
            i == width * q + i % width,
            0 <= i % width < width,
    ;
    assert(q * width == width * q) by (nonlinear_arith);
}

impl Layout {
    /// Computes scale and margins for a frame of `width` by `height` cells on
    /// a surface of resolution `res`.
    pub fn compute(width: usize, height: usize, res: Resolution) -> (layout: Layout)
        requires
            width > 0,
            height > 0,
        ensures
            layout == layout_for(width as int, height as int, res.width as int, res.height as int),
    {
        let across = res.width / width;
        let down = res.height / height;
        let fit = if across <= down { across } else { down };
        let scale = if fit >= 1 { fit } else { 1 };
        assert(scale * width <= res.width || scale * width == width) by (nonlinear_arith)
            requires
                width > 0,
                scale == 1 || (scale >= 1 && scale <= res.width as int / width as int),
        ;
        assert(scale * height <= res.height || scale * height == height) by (nonlinear_arith)
            requires
                height > 0,
                scale == 1 || (scale >= 1 && scale <= res.height as int / height as int),
        ;
        let covered_x = scale * width;
        let covered_y = scale * height;
        let x0 = if covered_x <= res.width { (res.width - covered_x) / 2 } else { 0 };
        let y0 = if covered_y <= res.height { (res.height - covered_y) / 2 } else { 0 };
        Layout { scale, x0, y0 }
    }
}

/// The emulator's picture: a grid of packed colours whose size is fixed when
/// it is made.
pub struct FrameBuffer {
    width: usize,
    height: usize,
    cells: Vec<u32>,
}

impl View for FrameBuffer {
    type V = FrameView;

    closed spec fn view(&self) -> FrameView {
        FrameView { width: self.width as nat, height: self.height as nat, cells: self.cells@ }
    }
}

impl FrameBuffer {
    #[verifier::type_invariant]
    spec fn inv(self) -> bool {
        &&& self.width > 0
        &&& self.height > 0
        &&& self.cells.len() == self.width * self.height
    }

    /// A black frame of `width` by `height` cells. There is none with a side
    /// of zero, nor one whose cells would take more than `isize::MAX` bytes.
    pub fn new(width: usize, height: usize) -> (made: Option<Self>)
        ensures
            made is Some <==> width > 0 && height > 0 && width * height * 4 <= isize::MAX,
            made is Some ==> made->Some_0@ == (FrameView {
                width: width as nat,
                height: height as nat,
                cells: Seq::new((width * height) as nat, |i: int| 0u32),
            }),
    {
        if width == 0 || height == 0 {
            return None;
        }
        assert(width * height >= 1) by (nonlinear_arith)
            requires
                width >= 1,
                height >= 1,
        ;
        match width.checked_mul(height) {
            Some(count) => {
                if count > (isize::MAX as usize) / 4 {
                    return None;
                }
                let cells = vec![0u32; count];
                assert(cells@ =~= Seq::new((width * height) as nat, |i: int| 0u32));
                Some(FrameBuffer { width, height, cells })
            },
            None => None,
        }
    }

    /// Number of cells in a line.
    pub fn width(&self) -> (w: usize)
        ensures
            w == self@.width,
            self@.wf(),
    {
        proof {
            use_type_invariant(self);
        }
        self.width
    }

    /// Number of lines.
    pub fn height(&self) -> (h: usize)
        ensures
            h == self@.height,
            self@.wf(),
    {
        proof {
            use_type_invariant(self);
        }
        self.height
    }

    /// The packed colour in column `x` of line `y`, if there is such a cell.
    pub fn cell(&self, x: usize, y: usize) -> (c: Option<u32>)
        ensures
            c is Some <==> x < self@.width && y < self@.height,
            c is Some ==> c->Some_0 == self@.cell(x as int, y as int),
    {
        proof {
            use_type_invariant(self);
        }
        if x < self.width && y < self.height {
            proof {
                lemma_grid_index(x as int, y as int, self.width as int, self.height as int);
            }
            Some(self.cells[y * self.width + x])
        } else {
            None
        }
    }

    /// Overwrites line `line` with `row`. A line that the frame does not
    /// have, or a row of another length than the frame's width, is refused
    /// and leaves the frame as it was.
    #[verifier::loop_isolation(false)]
    pub fn write_scanline(&mut self, line: usize, row: &[u32]) -> (done: Result<(), FrameError>)
        ensures
            final(self)@.wf(),
            match done {
                Ok(()) => scanline_error(old(self)@, line as int, row@.len() as int) is None
                    && final(self)@ == with_scanline(old(self)@, line as int, row@),
                Err(e) => scanline_error(old(self)@, line as int, row@.len() as int) == Some(e)
                    && final(self)@ == old(self)@,
            },
    {
        proof {
            use_type_invariant(&*self);
        }
        if line >= self.height {
            return Err(FrameError::LineOutOfRange);
        }
        if row.len() != self.width {
            return Err(FrameError::WidthMismatch);
        }
        let width = self.width;
        proof {
            lemma_grid_index(0, line as int, width as int, self.height as int);
            lemma_grid_index(width - 1, line as int, width as int, self.height as int);
        }
        let start = line * width;
        let mut x: usize = 0;
        while x < width
            invariant
                x <= width,
                self.width == old(self).width,
                self.height == old(self).height,
                self.cells.len() == old(self).cells.len(),
                forall|i: int|
                    0 <= i < self.cells.len() ==> self.cells@[i] == if start <= i < start + x {
                        row@[i - start]
                    } else {
                        old(self).cells@[i]
                    },
            decreases width - x,
        {
            self.cells[start + x] = row[x];
            x += 1;
        }
        proof {
            assert((line + 1) * width == start + width) by (nonlinear_arith)
                requires
                    start == line * width,
            ;
            assert(self@.cells =~= with_scanline(old(self)@, line as int, row@).cells);
        }
        Ok(())
    }
}

/// An image of the video surface, kept in memory.
pub struct Surface {
    res: Resolution,
    pixels: Vec<Rgb>,
}

impl View for Surface {
    type V = SurfaceView;

    closed spec fn view(&self) -> SurfaceView {
        SurfaceView { res: self.res, pixels: self.pixels@ }
    }
}

impl Surface {
    #[verifier::type_invariant]
    spec fn inv(self) -> bool {
        &&& self.res.width <= self.res.stride
        &&& self.pixels.len() == self.res.stride * self.res.height
    }

    /// A white surface of the given resolution. There is none whose rows are
    /// shorter than it is wide, nor one whose pixels would take more than
    /// `isize::MAX` bytes.
    pub fn new(res: Resolution) -> (made: Option<Self>)
        ensures
            made is Some <==> res.width <= res.stride && res.stride * res.height * 3 <= isize::MAX,
            made is Some ==> made->Some_0@ == (SurfaceView {
                res,
                pixels: Seq::new((res.stride * res.height) as nat, |i: int| white()),
            }),
    {
        if res.width > res.stride {
            return None;
        }
        assert(res.stride * res.height >= 0) by (nonlinear_arith);
        match res.stride.checked_mul(res.height) {
            Some(count) => {
                if count > (isize::MAX as usize) / 3 {
                    return None;
                }
                let pixels = vec![white_pixel(); count];
                assert(pixels@ =~= Seq::new((res.stride * res.height) as nat, |i: int| white()));
                Some(Surface { res, pixels })
            },
            None => None,
        }
    }

    /// The resolution the surface was made with.
    pub fn resolution(&self) -> (res: Resolution)
        ensures
            res == self@.res,
            self@.wf(),
    {
        proof {
            use_type_invariant(self);
        }
        self.res
    }

    /// All pixels, row after row, each row `stride` pixels long.
    pub fn pixels(&self) -> (all: &[Rgb])
        ensures
            all@ == self@.pixels,
            self@.wf(),
    {
        proof {
            use_type_invariant(self);
        }
        self.pixels.as_slice()
    }

    /// The pixel in column `x` of row `y`, if the surface shows such a pixel.
    pub fn pixel(&self, x: usize, y: usize) -> (p: Option<Rgb>)
        ensures
            p is Some <==> x < self@.res.width && y < self@.res.height,
            p is Some ==> p->Some_0 == self@.pixel(x as int, y as int),
    {
        proof {
            use_type_invariant(self);
        }
        if x < self.res.width && y < self.res.height {
            proof {
                lemma_grid_index(x as int, y as int, self.res.stride as int, self.res.height as int);
            }
            Some(self.pixels[y * self.res.stride + x])
        } else {
            None
        }
    }

    /// Fills the whole surface with white.
    #[verifier::loop_isolation(false)]
    pub fn clear(&mut self)
        ensures
            final(self)@ == cleared(old(self)@),
            final(self)@.wf(),
    {
        proof {
            use_type_invariant(&*self);
        }
        let count = self.pixels.len();
        let mut i: usize = 0;
        while i < count
            invariant
                i <= count,
                self.res == old(self).res,
                self.pixels.len() == old(self).pixels.len(),
                forall|j: int| 0 <= j < i ==> self.pixels@[j] == white(),
            decreases count - i,
        {
            self.pixels[i] = white_pixel();
            i += 1;
        }
        assert(self@.pixels =~= cleared(old(self)@).pixels);
    }
}

/// Two positions of a grid share no index.
proof fn lemma_grid_index_distinct(x1: int, y1: int, x2: int, y2: int, width: int)
    requires
        0 <= x1 < width,
        0 <= x2 < width,
        0 <= y1,
        0 <= y2,
        x1 != x2 || y1 != y2,
    ensures
        y1 * width + x1 != y2 * width + x2,
{
    if y1 < y2 {
        assert(y1 * width + width <= y2 * width) by (nonlinear_arith)
            requires
                y1 + 1 <= y2,
                0 < width,
        ;
    } else if y2 < y1 {
        assert(y2 * width + width <= y1 * width) by (nonlinear_arith)
            requires
                y2 + 1 <= y1,
                0 < width,
        ;
    }
}

/// A position inside the scaled frame lies in the block of a cell that the
/// frame has.
proof fn lemma_source_cell(offset: int, scale: int, count: int)
    requires
        0 <= offset < scale * count,
        scale >= 1,
    ensures
        0 <= offset / scale < count,
{
    vstd::arithmetic::div_mod::lemma_fundamental_div_mod(offset, scale);
    let q = offset / scale;
    assert(0 <= q < count) by (nonlinear_arith)
        requires
            0 <= offset < scale * count,
            scale >= 1,
            offset == scale * q + offset % scale,
            0 <= offset % scale < scale,
    ;
}

/// Where a run of `count` blocks that starts at `start` ends on a line of
/// `available` pixels: at its own end, or at the end of the line if that
/// comes first.
fn clipped_end(start: usize, scale: usize, count: usize, available: usize) -> (end: usize)
    ensures
        end == if start + scale * count <= available {
            start + scale * count
        } else {
            available as int
        },
{
    assert(scale * count >= 0) by (nonlinear_arith);
    match scale.checked_mul(count) {
        Some(extent) => match start.checked_add(extent) {
            Some(end) => if end <= available { end } else { available },
            None => available,
        },
        None => available,
    }
}

/// Whether `now` is `before` with the frame drawn at every position that
/// comes before `(x, y)` in reading order, and untouched from there on.
spec fn drawn_before(
    before: SurfaceView,
    frame: FrameView,
    layout: Layout,
    now: SurfaceView,
    x: int,
    y: int,
) -> bool {
    &&& now.res == before.res
    &&& now.pixels.len() == before.pixels.len()
    &&& forall|px: int, py: int|
        0 <= px < before.res.stride && 0 <= py < before.res.height ==> #[trigger] now.pixel(px, py)
            == if py < y || (py == y && px < x) {
            drawn_pixel(before, frame, layout, px, py)
        } else {
            before.pixel(px, py)
        }
}

/// A surface that is drawn at every position is the drawn surface.
proof fn lemma_drawn_everywhere(
    before: SurfaceView,
    frame: FrameView,
    layout: Layout,
    now: SurfaceView,
)
    requires
        before.wf(),
        drawn_before(before, frame, layout, now, 0, before.res.height as int),
    ensures
        now == drawn(before, frame, layout),
{
    let target = drawn(before, frame, layout);
    assert forall|i: int| 0 <= i < now.pixels.len() implies now.pixels[i] == target.pixels[i] by {
        lemma_grid_position(i, before.res.stride as int, before.res.height as int);
        let px = i % (before.res.stride as int);
        let py = i / (before.res.stride as int);
        assert(now.pixel(px, py) == now.pixels[i]);
    }
    assert(now.pixels =~= target.pixels);
}

impl Surface {
    /// Draws the frame over the surface, each cell as a block of
    /// `layout.scale` by `layout.scale` pixels, and cuts off what does not
    /// fit.
    #[verifier::loop_isolation(false)]
    fn draw(&mut self, frame: &FrameBuffer, layout: Layout)
        ensures
            final(self)@ == drawn(old(self)@, frame@, layout),
    {
        proof {
            use_type_invariant(&*self);
            use_type_invariant(frame);
        }
        let ghost before = self@;
        let ghost picture = frame@;
        let scale = layout.scale;
        let stride = self.res.stride;
        let height = self.res.height;
        if scale == 0 {
            proof {
                assert(scale * frame.width == 0) by (nonlinear_arith)
                    requires
                        scale == 0,
                ;
                lemma_drawn_everywhere(before, picture, layout, self@);
            }
            return ;
        }
        let x_end = clipped_end(layout.x0, scale, frame.width, self.res.width);
        let y_end = clipped_end(layout.y0, scale, frame.height, height);
        let mut y: usize = layout.y0;
        while y < y_end
            invariant
                layout.y0 <= y,
                drawn_before(before, picture, layout, self@, 0, y as int),
            decreases y_end - y,
        {
            proof {
                lemma_source_cell(y - layout.y0, scale as int, frame.height as int);
                lemma_grid_index(
                    0,
                    (y - layout.y0) / (scale as int),
                    frame.width as int,
                    frame.height as int,
                );
                assert(y * stride <= stride * height) by (nonlinear_arith)
                    requires
                        0 <= y < height,
                        0 <= stride,
                ;
            }
            let source_row = ((y - layout.y0) / scale) * frame.width;
            let row = y * stride;
            let mut x: usize = layout.x0;
            while x < x_end
                invariant
                    layout.x0 <= x,
                    drawn_before(before, picture, layout, self@, x as int, y as int),
                decreases x_end - x,
            {
                proof {
                    lemma_source_cell(x - layout.x0, scale as int, frame.width as int);
                    lemma_grid_index(
                        (x - layout.x0) / (scale as int),
                        (y - layout.y0) / (scale as int),
                        frame.width as int,
                        frame.height as int,
                    );
                    lemma_grid_index(x as int, y as int, stride as int, height as int);
                }
                let ghost earlier = self@;
                let color = frame.cells[source_row + (x - layout.x0) / scale];
                self.pixels[row + x] = unpack(color);
                proof {
                    let now = self@;
                    assert(now.pixel(x as int, y as int) == drawn_pixel(
                        before,
                        picture,
                        layout,
                        x as int,
                        y as int,
                    ));
                    assert forall|px: int, py: int|
                        0 <= px < stride && 0 <= py < height implies #[trigger] now.pixel(px, py)
                        == if py < y || (py == y && px < x + 1) {
                        drawn_pixel(before, picture, layout, px, py)
                    } else {
                        before.pixel(px, py)
                    } by {
                        if px != x || py != y {
                            lemma_grid_index_distinct(px, py, x as int, y as int, stride as int);
                            lemma_grid_index(px, py, stride as int, height as int);
                            assert(now.pixel(px, py) == earlier.pixel(px, py));
                        }
                    }
                }
                x += 1;
            }
            y += 1;
        }
        proof {
            lemma_drawn_everywhere(before, picture, layout, self@);
        }
    }
}

/// A compositor as a value.
pub struct CompositorView {
    pub frame: FrameView,
    pub surface: SurfaceView,
    pub layout: Layout,
    pub last_flush: u64,
}

impl CompositorView {
    /// Whether frame and surface are well formed and the layout is the one
    /// of this frame on this surface.
    pub open spec fn wf(self) -> bool {
        &&& self.frame.wf()
        &&& self.surface.wf()
        &&& self.layout == layout_for(
            self.frame.width as int,
            self.frame.height as int,
            self.surface.res.width as int,
            self.surface.res.height as int,
        )
    }
}

/// The compositor as it is made: a black frame, a white surface, the layout
/// of the one on the other, and the last flush at time zero.
pub open spec fn initial_compositor(width: usize, height: usize, res: Resolution) -> CompositorView {
    CompositorView {
        frame: FrameView {
            width: width as nat,
            height: height as nat,
            cells: Seq::new((width * height) as nat, |i: int| 0u32),
        },
        surface: SurfaceView {
            res,
            pixels: Seq::new((res.stride * res.height) as nat, |i: int| white()),
        },
        layout: layout_for(width as int, height as int, res.width as int, res.height as int),
        last_flush: 0,
    }
}

/// Whether a frame of `width` by `height` cells and a surface of resolution
/// `res` can be made: the frame has cells, the surface's rows hold its width,
/// and neither takes more than `isize::MAX` bytes.
pub open spec fn can_composite(width: usize, height: usize, res: Resolution) -> bool {
    &&& width > 0
    &&& height > 0
    &&& width * height * 4 <= isize::MAX
    &&& res.width <= res.stride
    &&& res.stride * res.height * 3 <= isize::MAX
}

/// Whether a flush at `now` redraws the surface.
pub open spec fn flushes(c: CompositorView, now: u64) -> bool {
    is_due(c.last_flush, now, REFRESH_INTERVAL)
}

/// The compositor after a flush at `now`.
pub open spec fn after_flush(c: CompositorView, now: u64) -> CompositorView {
    if flushes(c, now) {
        CompositorView {
            frame: c.frame,
            surface: drawn(c.surface, c.frame, c.layout),
            layout: c.layout,
            last_flush: now,
        }
    } else {
        c
    }
}

/// Holds the logical frame and the surface, and redraws the one from the
/// other at a bounded rate.
pub struct FrameCompositor {
    frame: FrameBuffer,
    surface: Surface,
    layout: Layout,
    last_flush: u64,
}

impl View for FrameCompositor {
    type V = CompositorView;

    closed spec fn view(&self) -> CompositorView {
        CompositorView {
            frame: self.frame@,
            surface: self.surface@,
            layout: self.layout,
            last_flush: self.last_flush,
        }
    }
}

impl FrameCompositor {
    /// A compositor for a frame of `width` by `height` cells on a surface of
    /// resolution `res`: the frame is black, the surface white, scale and
    /// margins are fixed, and the last flush lies at time zero. There is none
    /// where the frame or the surface cannot be made.
    pub fn new(width: usize, height: usize, res: Resolution) -> (made: Option<Self>)
        ensures
            made is Some <==> can_composite(width, height, res),
            made is Some ==> made->Some_0@ == initial_compositor(width, height, res)
                && made->Some_0@.wf(),
    {
        let frame = match FrameBuffer::new(width, height) {
            Some(frame) => frame,
            None => {
                return None;
            },
        };
        let surface = match Surface::new(res) {
            Some(surface) => surface,
            None => {
                return None;
            },
        };
        let layout = Layout::compute(width, height, res);
        proof {
            use_type_invariant(&frame);
            use_type_invariant(&surface);
        }
        Some(FrameCompositor { frame, surface, layout, last_flush: 0 })
    }

    /// Overwrites one line of the logical frame; see
    /// [`FrameBuffer::write_scanline`]. The surface is not touched before
    /// the next flush.
    pub fn write_scanline(&mut self, line: usize, row: &[u32]) -> (done: Result<(), FrameError>)
        ensures
            final(self)@.surface == old(self)@.surface,
            final(self)@.layout == old(self)@.layout,
            final(self)@.last_flush == old(self)@.last_flush,
            match done {
                Ok(()) => scanline_error(old(self)@.frame, line as int, row@.len() as int) is None
                    && final(self)@.frame == with_scanline(old(self)@.frame, line as int, row@),
                Err(e) => scanline_error(old(self)@.frame, line as int, row@.len() as int) == Some(e)
                    && final(self)@.frame == old(self)@.frame,
            },
            old(self)@.wf() ==> final(self)@.wf(),
    {
        self.frame.write_scanline(line, row)
    }

    /// Redraws the surface from the frame if the last redraw lies at least
    /// [`REFRESH_INTERVAL`] back, and does nothing otherwise. Returns whether
    /// it redrew.
    pub fn flush(&mut self, now: u64) -> (redrawn: bool)
        ensures
            redrawn == flushes(old(self)@, now),
            final(self)@ == after_flush(old(self)@, now),
            old(self)@.wf() ==> final(self)@.wf(),
    {
        if !due(self.last_flush, now, REFRESH_INTERVAL) {
            return false;
        }
        self.last_flush = now;
        self.surface.draw(&self.frame, self.layout);
        true
    }

    /// Fills the whole surface with white. The frame is kept.
    pub fn clear(&mut self)
        ensures
            final(self)@ == (CompositorView { surface: cleared(old(self)@.surface), ..old(self)@ }),
            old(self)@.wf() ==> final(self)@.wf(),
    {
        self.surface.clear();
    }

    /// The logical frame.
    pub fn frame(&self) -> (frame: &FrameBuffer)
        ensures
            frame@ == self@.frame,
    {
        &self.frame
    }

    /// The image of the video surface, to be copied to the screen.
    pub fn surface(&self) -> (surface: &Surface)
        ensures
            surface@ == self@.surface,
    {
        &self.surface
    }

    /// Block size and margins, as fixed when the compositor was made.
    pub fn layout(&self) -> (layout: Layout)
        ensures
            layout == self@.layout,
    {
        self.layout
    }
}

/// The compositor after a run of flushes at the given times.
pub open spec fn after_flushes(c: CompositorView, times: Seq<u64>) -> CompositorView
    decreases times.len(),
{
    if times.len() == 0 {
        c
    } else {
        after_flush(after_flushes(c, times.drop_last()), times.last())
    }
}

/// The layout puts a frame that fits the surface wholly inside it, in blocks
/// as large as will fit, with margins that differ by one pixel at most.
pub proof fn lemma_layout_fits(frame_width: int, frame_height: int, width: int, height: int)
    requires
        0 < frame_width <= width <= usize::MAX,
        0 < frame_height <= height <= usize::MAX,
    ensures
        ({
            let layout = layout_for(frame_width, frame_height, width, height);
            let scale = layout.scale as int;
            &&& scale >= 1
            &&& layout.x0 + scale * frame_width <= width
            &&& layout.y0 + scale * frame_height <= height
            &&& (scale + 1) * frame_width > width || (scale + 1) * frame_height > height
            &&& 0 <= width - scale * frame_width - 2 * layout.x0 <= 1
            &&& 0 <= height - scale * frame_height - 2 * layout.y0 <= 1
        }),
{
    let scale = scale_for(frame_width, frame_height, width, height);
    let across = width / frame_width;
    let down = height / frame_height;
    vstd::arithmetic::div_mod::lemma_fundamental_div_mod(width, frame_width);
    vstd::arithmetic::div_mod::lemma_fundamental_div_mod(height, frame_height);
    assert(across >= 1 && down >= 1) by (nonlinear_arith)
        requires
            0 < frame_width <= width,
            0 < frame_height <= height,
            width == frame_width * across + width % frame_width,
            height == frame_height * down + height % frame_height,
            0 <= width % frame_width < frame_width,
            0 <= height % frame_height < frame_height,
    ;
    assert(scale * frame_width <= width && scale * frame_height <= height && ((scale + 1)
        * frame_width > width || (scale + 1) * frame_height > height)) by (nonlinear_arith)
        requires
            1 <= scale,
            scale <= across,
            scale <= down,
            scale == across || scale == down,
            0 < frame_width,
            0 < frame_height,
            width == frame_width * across + width % frame_width,
            height == frame_height * down + height % frame_height,
            0 <= width % frame_width < frame_width,
            0 <= height % frame_height < frame_height,
    ;
    assert(0 <= scale * frame_width && 0 <= scale * frame_height) by (nonlinear_arith)
        requires
            1 <= scale,
            0 < frame_width,
            0 < frame_height,
    ;
}

/// A drawn surface shows at each position what `drawn_pixel` says.
pub proof fn lemma_drawn_pixel(
    before: SurfaceView,
    frame: FrameView,
    layout: Layout,
    x: int,
    y: int,
)
    requires
        before.wf(),
        0 <= x < before.res.stride,
        0 <= y < before.res.height,
    ensures
        drawn(before, frame, layout).pixel(x, y) == drawn_pixel(before, frame, layout, x, y),
{
    lemma_grid_index(x, y, before.res.stride as int, before.res.height as int);
}

/// Each cell of the frame becomes a block of `scale` by `scale` pixels: the
/// pixel `(dx, dy)` of the block of cell `(cx, cy)` shows the colour of that
/// cell, wherever the block lies on the surface.
pub proof fn lemma_block_shows_cell(
    before: SurfaceView,
    frame: FrameView,
    layout: Layout,
    cx: int,
    cy: int,
    dx: int,
    dy: int,
)
    requires
        before.wf(),
        frame.wf(),
        0 <= cx < frame.width,
        0 <= cy < frame.height,
        0 <= dx < layout.scale,
        0 <= dy < layout.scale,
        layout.x0 + cx * layout.scale + dx < before.res.width,
        layout.y0 + cy * layout.scale + dy < before.res.height,
    ensures
        drawn(before, frame, layout).pixel(
            layout.x0 + cx * layout.scale + dx,
            layout.y0 + cy * layout.scale + dy,
        ) == unpacked(frame.cell(cx, cy)),
{
    let scale = layout.scale as int;
    let x = layout.x0 + cx * scale + dx;
    let y = layout.y0 + cy * scale + dy;
    assert(0 <= cx * scale && cx * scale + scale <= scale * frame.width) by (nonlinear_arith)
        requires
            0 <= cx < frame.width,
            0 < scale,
    ;
    assert(0 <= cy * scale && cy * scale + scale <= scale * frame.height) by (nonlinear_arith)
        requires
            0 <= cy < frame.height,
            0 < scale,
    ;
    vstd::arithmetic::div_mod::lemma_fundamental_div_mod_converse(cx * scale + dx, scale, cx, dx);
    vstd::arithmetic::div_mod::lemma_fundamental_div_mod_converse(cy * scale + dy, scale, cy, dy);
    lemma_drawn_pixel(before, frame, layout, x, y);
}

/// Drawing the same frame twice gives what drawing it once gives.
pub proof fn lemma_draw_idempotent(before: SurfaceView, frame: FrameView, layout: Layout)
    requires
        before.wf(),
    ensures
        drawn(drawn(before, frame, layout), frame, layout) == drawn(before, frame, layout),
{
    let once = drawn(before, frame, layout);
    let twice = drawn(once, frame, layout);
    assert forall|i: int| 0 <= i < once.pixels.len() implies twice.pixels[i] == once.pixels[i] by {
        lemma_grid_position(i, before.res.stride as int, before.res.height as int);
    }
    assert(twice.pixels =~= once.pixels);
}

/// Two flushes in a row, with no scanline written between them, leave the
/// surface as the first one left it. This holds whenever the first flush
/// redraws, or the second does not, or the surface already shows the frame.
pub proof fn lemma_flush_idempotent(c: CompositorView, first: u64, second: u64)
    requires
        c.surface.wf(),
        flushes(c, first) || !flushes(c, second) || drawn(c.surface, c.frame, c.layout)
            == c.surface,
    ensures
        after_flush(after_flush(c, first), second).surface == after_flush(c, first).surface,
{
    lemma_draw_idempotent(c.surface, c.frame, c.layout);
}

/// The surface is redrawn at most once per [`REFRESH_INTERVAL`]: after a
/// flush at `start` that redrew it, no flush that comes less than the
/// interval later redraws it, and the compositor stays as it was left.
pub proof fn lemma_flush_once_per_interval(c: CompositorView, start: u64, times: Seq<u64>)
    requires
        flushes(c, start),
        forall|i: int| 0 <= i < times.len() ==> elapsed_between(start, #[trigger] times[i]) < REFRESH_INTERVAL,
    ensures
        after_flushes(after_flush(c, start), times) == after_flush(c, start),
        forall|i: int|
            0 <= i < times.len() ==> !flushes(
                #[trigger] after_flushes(after_flush(c, start), times.take(i)),
                times[i],
            ),
    decreases times.len(),
{
    let first = after_flush(c, start);
    if times.len() > 0 {
        let earlier = times.drop_last();
        assert forall|i: int| 0 <= i < earlier.len() implies elapsed_between(
            start,
            #[trigger] earlier[i],
        ) < REFRESH_INTERVAL by {
            assert(earlier[i] == times[i]);
        }
        lemma_flush_once_per_interval(c, start, earlier);
        assert(elapsed_between(start, times.last()) < REFRESH_INTERVAL);
        assert forall|i: int| 0 <= i < times.len() implies !flushes(
            #[trigger] after_flushes(first, times.take(i)),
            times[i],
        ) by {
            assert(elapsed_between(start, times[i]) < REFRESH_INTERVAL);
            if i < earlier.len() {
                assert(times.take(i) =~= earlier.take(i));
            } else {
                assert(times.take(i) =~= earlier);
            }
        }
    } else {
        assert forall|i: int| 0 <= i < times.len() implies !flushes(
            #[trigger] after_flushes(first, times.take(i)),
            times[i],
        ) by {}
    }
}

} // verus!
