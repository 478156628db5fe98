//! The framebuffer: a packed-RGB color buffer and a parallel depth buffer.

use vstd::prelude::*;

verus! {

/// The depth that stands for +infinity: no fragment depth is beyond it, so a
/// cell holding it accepts every fragment with a smaller depth.
pub const DEPTH_INFINITY: i64 = i64::MAX;

/// The abstract state of a framebuffer.
pub struct FrameModel {
    pub width: nat,
    pub height: nat,
    /// One packed `0xRRGGBB` color per cell, row-major.
    pub colors: Seq<u32>,
    /// One depth per cell, with the same indexing.
    pub depths: Seq<i64>,
    pub background: u32,
    pub current: u32,
}

impl FrameModel {
    pub open spec fn wf(self) -> bool {
        &&& self.colors.len() == self.width * self.height
        &&& self.depths.len() == self.width * self.height
    }

    pub open spec fn in_bounds(self, x: int, y: int) -> bool {
        0 <= x < self.width && 0 <= y < self.height
    }

    /// The cell index of `(x, y)`.
    pub open spec fn index(self, x: int, y: int) -> int {
        y * self.width + x
    }

    pub open spec fn color_at(self, x: int, y: int) -> u32 {
        self.colors[self.index(x, y)]
    }

    pub open spec fn depth_at(self, x: int, y: int) -> i64 {
        self.depths[self.index(x, y)]
    }

    /// Every cell set to the background color and to infinite depth.
    pub open spec fn cleared(self) -> FrameModel {
        FrameModel {
            colors: Seq::new(self.width * self.height, |i: int| self.background),
            depths: Seq::new(self.width * self.height, |i: int| DEPTH_INFINITY),
            ..self
        }
    }

    /// Every depth set to infinity, colors kept.
    pub open spec fn depth_cleared(self) -> FrameModel {
        FrameModel { depths: Seq::new(self.width * self.height, |i: int| DEPTH_INFINITY), ..self }
    }

    /// The depth-tested write of the current color: it happens only inside
    /// the bounds and only for a depth strictly below the stored one.
    pub open spec fn point(self, x: int, y: int, depth: i64) -> FrameModel {
        if self.in_bounds(x, y) && depth < self.depth_at(x, y) {
            FrameModel {
                colors: self.colors.update(self.index(x, y), self.current),
                depths: self.depths.update(self.index(x, y), depth),
                ..self
            }
        } else {
            self
        }
    }

    /// The unconditional write of `color`, depth untouched.
    pub open spec fn raw(self, x: int, y: int, color: u32) -> FrameModel {
        if self.in_bounds(x, y) {
            FrameModel { colors: self.colors.update(self.index(x, y), color), ..self }
        } else {
            self
        }
    }

    pub open spec fn with_current(self, color: u32) -> FrameModel {
        FrameModel { current: color, ..self }
    }
}

proof fn lemma_index_in_range(width: nat, height: nat, x: int, y: int)
    requires
        0 <= x < width,
        0 <= y < height,
    ensures
        0 <= y * width + x < width * height,
{
    assert(0 <= y * width + x < width * height) by (nonlinear_arith)
        requires
            0 <= x < width,
            0 <= y < height,
    ;
}

/// A color buffer and a depth buffer of `width * height` cells each, with a
/// background color for clearing and a current color for depth-tested writes.
pub struct Framebuffer {
    width: usize,
    height: usize,
    buffer: Vec<u32>,
    zbuffer: Vec<i64>,
    background_color: u32,
    current_color: u32,
}

impl View for Framebuffer {
    type V = FrameModel;

    closed spec fn view(&self) -> FrameModel {
        FrameModel {
            width: self.width as nat,
            height: self.height as nat,
            colors: self.buffer@,
            depths: self.zbuffer@,
            background: self.background_color,
            current: self.current_color,
        }
    }
}

impl Framebuffer {
    /// Both buffers hold `width * height` cells, a count that fits in `usize`.
    pub open spec fn wf(&self) -> bool {
        &&& self@.wf()
        &&& self@.width * self@.height <= usize::MAX
    }

    /// A framebuffer with black background, white current color, every cell
    /// black and at infinite depth.
    pub fn new(width: usize, height: usize) -> (fb: Framebuffer)
        requires
            width * height <= usize::MAX,
        ensures
            fb.wf(),
            fb@.wf(),
            fb@ == (FrameModel {
                width: width as nat,
                height: height as nat,
                colors: Seq::new((width * height) as nat, |i: int| 0u32),
                depths: Seq::new((width * height) as nat, |i: int| DEPTH_INFINITY),
                background: 0,
                current: 0xFFFFFF,
            }),
    {
        let size = width * height;
        let mut buffer: Vec<u32> = Vec::new();
        let mut zbuffer: Vec<i64> = Vec::new();
        let mut i: usize = 0;
        while i < size
            invariant
                i <= size,
                buffer@ == Seq::new(i as nat, |k: int| 0u32),
                zbuffer@ == Seq::new(i as nat, |k: int| DEPTH_INFINITY),
            decreases size - i,
        {
            buffer.push(0);
            zbuffer.push(DEPTH_INFINITY);
            i = i + 1;
            assert(buffer@ =~= Seq::new(i as nat, |k: int| 0u32));
            assert(zbuffer@ =~= Seq::new(i as nat, |k: int| DEPTH_INFINITY));
        }
        Framebuffer {
            width,
            height,
            buffer,
            zbuffer,
            background_color: 0,
            current_color: 0xFFFFFF,
        }
    }

    pub fn width(&self) -> (w: usize)
        ensures
            w == self@.width,
    {
        self.width
    }

    pub fn height(&self) -> (h: usize)
        ensures
            h == self@.height,
    {
        self.height
    }

    /// The color buffer, row-major, for presentation.
    pub fn buffer(&self) -> (b: &Vec<u32>)
        ensures
            b@ == self@.colors,
    {
        &self.buffer
    }

    pub fn background_color(&self) -> (c: u32)
        ensures
            c == self@.background,
    {
        self.background_color
    }

    pub fn current_color(&self) -> (c: u32)
        ensures
            c == self@.current,
    {
        self.current_color
    }

    /// The color stored at `(x, y)`.
    pub fn get_color(&self, x: usize, y: usize) -> (c: u32)
        requires
            self.wf(),
            self@.in_bounds(x as int, y as int),
        ensures
            c == self@.color_at(x as int, y as int),
    {
        proof {
            lemma_index_in_range(self.width as nat, self.height as nat, x as int, y as int);
        }
        self.buffer[y * self.width + x]
    }

    /// The depth stored at `(x, y)`.
    pub fn get_depth(&self, x: usize, y: usize) -> (d: i64)
        requires
            self.wf(),
            self@.in_bounds(x as int, y as int),
        ensures
            d == self@.depth_at(x as int, y as int),
    {
        proof {
            lemma_index_in_range(self.width as nat, self.height as nat, x as int, y as int);
        }
        self.zbuffer[y * self.width + x]
    }

    pub fn set_background_color(&mut self, color: u32)
        requires
            old(self).wf(),
        ensures
            final(self).wf(),
            final(self)@ == (FrameModel { background: color, ..old(self)@ }),
    {
        self.background_color = color;
    }

    pub fn set_current_color(&mut self, color: u32)
        requires
            old(self).wf(),
        ensures
            final(self).wf(),
            final(self)@ == old(self)@.with_current(color),
    {
        self.current_color = color;
    }

    /// Resets every cell to the background color and to infinite depth.
    pub fn clear(&mut self)
        requires
            old(self).wf(),
        ensures
            final(self).wf(),
            final(self)@ == old(self)@.cleared(),
    {
        let size = self.width * self.height;
        let mut i: usize = 0;
        while i < size
            invariant
                self.wf(),
                size == self.width * self.height,
                i <= size,
                self.width == old(self).width,
                self.height == old(self).height,
                self.background_color == old(self).background_color,
                self.current_color == old(self).current_color,
                forall|k: int| 0 <= k < i ==> self.buffer@[k] == self.background_color,
                forall|k: int| 0 <= k < i ==> self.zbuffer@[k] == DEPTH_INFINITY,
            decreases size - i,
        {
            self.buffer.set(i, self.background_color);
            self.zbuffer.set(i, DEPTH_INFINITY);
            i = i + 1;
        }
        assert(self.buffer@ =~= old(self)@.cleared().colors);
        assert(self.zbuffer@ =~= old(self)@.cleared().depths);
    }

    /// Resets every depth to infinity and keeps the colors.
    pub fn clear_depth(&mut self)
        requires
            old(self).wf(),
        ensures
            final(self).wf(),
            final(self)@ == old(self)@.depth_cleared(),
    {
        let size = self.width * self.height;
        let mut i: usize = 0;
        while i < size
            invariant
                self.wf(),
                size == self.width * self.height,
                i <= size,
                self.width == old(self).width,
                self.height == old(self).height,
                self.background_color == old(self).background_color,
                self.current_color == old(self).current_color,
                self.buffer@ == old(self).buffer@,
                forall|k: int| 0 <= k < i ==> self.zbuffer@[k] == DEPTH_INFINITY,
            decreases size - i,
        {
            self.zbuffer.set(i, DEPTH_INFINITY);
            i = i + 1;
        }
        assert(self.zbuffer@ =~= old(self)@.depth_cleared().depths);
    }

    /// Writes the current color and `depth` at `(x, y)` when the cell is
    /// inside the buffer and `depth` is strictly below the stored depth;
    /// otherwise does nothing.
    pub fn point(&mut self, x: usize, y: usize, depth: i64)
        requires
            old(self).wf(),
        ensures
            final(self).wf(),
            final(self)@ == old(self)@.point(x as int, y as int, depth),
    {
        if x < self.width && y < self.height {
            proof {
                lemma_index_in_range(self.width as nat, self.height as nat, x as int, y as int);
            }
            let index = y * self.width + x;
            if depth < self.zbuffer[index] {
                let color = self.current_color;
                self.buffer.set(index, color);
                self.zbuffer.set(index, depth);
            }
        }
    }

    /// Writes `color` at `(x, y)` when the cell is inside the buffer,
    /// whatever its depth, and leaves the depth buffer as it is.
    pub fn set_pixel_raw(&mut self, x: usize, y: usize, color: u32)
        requires
            old(self).wf(),
        ensures
            final(self).wf(),
            final(self)@ == old(self)@.raw(x as int, y as int, color),
            final(self)@.depths == old(self)@.depths,
    {
        if x < self.width && y < self.height {
            proof {
                lemma_index_in_range(self.width as nat, self.height as nat, x as int, y as int);
            }
            let index = y * self.width + x;
            self.buffer.set(index, color);
        }
    }
}

/// Writing the same fragment twice is the same as writing it once: the
/// second write is rejected because its depth is not strictly below the
/// depth the first one stored.
pub proof fn lemma_point_idempotent(fb: FrameModel, x: int, y: int, depth: i64)
    requires
        fb.wf(),
    ensures
        fb.point(x, y, depth).point(x, y, depth) == fb.point(x, y, depth),
{
    let once = fb.point(x, y, depth);
    if fb.in_bounds(x, y) && depth < fb.depth_at(x, y) {
        lemma_index_in_range(fb.width, fb.height, x, y);
        assert(once.depth_at(x, y) == depth);
    }
}

/// After a clear, every cell reads as the background color at infinite depth.
pub proof fn lemma_clear_then_read(fb: FrameModel, x: int, y: int)
    requires
        fb.wf(),
        fb.in_bounds(x, y),
    ensures
        fb.cleared().color_at(x, y) == fb.background,
        fb.cleared().depth_at(x, y) == DEPTH_INFINITY,
{
    lemma_index_in_range(fb.width, fb.height, x, y);
}

/// A raw write after a depth-tested one at the same cell leaves the raw
/// color there and the depth the depth-tested write left.
pub proof fn lemma_raw_overrides_point(
    fb: FrameModel,
    x: int,
    y: int,
    depth: i64,
    color: u32,
)
    requires
        fb.wf(),
        fb.in_bounds(x, y),
    ensures
        fb.point(x, y, depth).raw(x, y, color).color_at(x, y) == color,
        fb.point(x, y, depth).raw(x, y, color).depths == fb.point(x, y, depth).depths,
{
    lemma_index_in_range(fb.width, fb.height, x, y);
}

/// Two depth-tested writes to one cell, in either order, leave the color of
/// the nearer one when it is nearer than what the cell held.
pub proof fn lemma_nearer_wins(
    fb: FrameModel,
    x: int,
    y: int,
    near_color: u32,
    near: i64,
    far_color: u32,
    far: i64,
)
    requires
        fb.wf(),
        fb.in_bounds(x, y),
        near < far,
        near < fb.depth_at(x, y),
    ensures
        fb.with_current(near_color).point(x, y, near).with_current(far_color).point(
            x,
            y,
            far,
        ).color_at(x, y) == near_color,
        fb.with_current(far_color).point(x, y, far).with_current(near_color).point(
            x,
            y,
            near,
        ).color_at(x, y) == near_color,
        fb.with_current(far_color).point(x, y, far).with_current(near_color).point(
            x,
            y,
            near,
        ).depth_at(x, y) == near,
{
    lemma_index_in_range(fb.width, fb.height, x, y);
}

} // verus!
