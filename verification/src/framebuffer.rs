//! Pixel write surface for the renderers: a row-major buffer of
//! packed 0xRRGGBB colors with a current drawing color. Writes are
//! bounds-checked and silently dropped outside the extent, so callers
//! may compute coordinates without clipping them first.
use vstd::prelude::*;

verus! {

pub struct Framebuffer {
    pub width: usize,
    pub height: usize,
    pub buffer: Vec<u32>,
    pub current_color: u32,
}

impl Framebuffer {
    /// The buffer stores exactly one color per pixel of the extent.
    pub open spec fn wf(&self) -> bool {
        &&& self.buffer@.len() == self.width * self.height
        &&& self.width * self.height <= usize::MAX
    }

    /// Index of pixel `(x, y)` in the row-major buffer.
    pub open spec fn spec_index(&self, x: int, y: int) -> int {
        y * self.width + x
    }

    /// Color stored for pixel `(x, y)`.
    pub open spec fn pixel(&self, x: int, y: int) -> u32 {
        self.buffer@[y * self.width + x]
    }

    /// Creates a surface of the given extent, every pixel white and
    /// the drawing color black.
    pub fn new(width: usize, height: usize) -> (fb: Framebuffer)
        requires
            width * height <= usize::MAX,
        ensures
            fb.wf(),
            fb.width == width,
            fb.height == height,
            fb.current_color == 0,
            forall|i: int| 0 <= i < fb.buffer@.len() ==> fb.buffer@[i] == 0xFFFFFFu32,
    {
        let mut buffer: Vec<u32> = Vec::new();
        let n = width * height;
        let mut i: usize = 0;
        while i < n
            invariant
                i <= n,
                buffer@.len() == i,
                forall|k: int| 0 <= k < i ==> buffer@[k] == 0xFFFFFFu32,
            decreases n - i,
        {
            buffer.push(0xFFFFFF);
            i = i + 1;
        }
        Framebuffer { width, height, buffer, current_color: 0 }
    }

    /// Sets the color that later `point` calls write.
    pub fn set_current_color(&mut self, color: u32)
        ensures
            final(self).current_color == color,
            final(self).width == old(self).width,
            final(self).height == old(self).height,
            final(self).buffer == old(self).buffer,
            forall|px: int, py: int|
                #[trigger] final(self).pixel(px, py) == old(self).pixel(px, py),
    {
        self.current_color = color;
    }

    /// Writes the current color at `(x, y)`: the pixel is set when the
    /// point lies inside the extent, and nothing changes otherwise.
    pub fn point(&mut self, x: isize, y: isize)
        requires
            old(self).wf(),
        ensures
            final(self).wf(),
            final(self).width == old(self).width,
            final(self).height == old(self).height,
            final(self).current_color == old(self).current_color,
            0 <= x < old(self).width && 0 <= y < old(self).height ==> final(self).buffer@
                == old(self).buffer@.update(
                old(self).spec_index(x as int, y as int),
                old(self).current_color,
            ),
            !(0 <= x < old(self).width && 0 <= y < old(self).height) ==> final(self).buffer
                == old(self).buffer,
    {
        if x >= 0 && y >= 0 && (x as usize) < self.width && (y as usize) < self.height {
            proof {
                assert((y as int) * (self.width as int) + (x as int) < (self.width as int) * (
                self.height as int)) by (nonlinear_arith)
                    requires
                        0 <= x < self.width,
                        0 <= y < self.height,
                ;
            }
            let index = (y as usize) * self.width + (x as usize);
            self.buffer.set(index, self.current_color);
        }
    }

    /// Color currently stored at `(x, y)`, or black outside the extent.
    pub fn get_pixel_color(&self, x: usize, y: usize) -> (c: u32)
        requires
            self.wf(),
        ensures
            x < self.width && y < self.height ==> c == self.buffer@[self.spec_index(
                x as int,
                y as int,
            )],
            !(x < self.width && y < self.height) ==> c == 0,
    {
        if x < self.width && y < self.height {
            proof {
                assert((y as int) * (self.width as int) + (x as int) < (self.width as int) * (
                self.height as int)) by (nonlinear_arith)
                    requires
                        0 <= x < self.width,
                        0 <= y < self.height,
                ;
            }
            let index = y * self.width + x;
            self.buffer[index]
        } else {
            0
        }
    }

    /// Resets every pixel to white.
    pub fn clear(&mut self)
        requires
            old(self).wf(),
        ensures
            final(self).wf(),
            final(self).width == old(self).width,
            final(self).height == old(self).height,
            final(self).current_color == old(self).current_color,
            final(self).buffer@.len() == old(self).buffer@.len(),
            forall|i: int|
                0 <= i < final(self).buffer@.len() ==> final(self).buffer@[i] == 0xFFFFFFu32,
    {
        let n = self.buffer.len();
        let mut i: usize = 0;
        while i < n
            invariant
                i <= n,
                self.buffer@.len() == n,
                self.width == old(self).width,
                self.height == old(self).height,
                self.current_color == old(self).current_color,
                forall|k: int| 0 <= k < i ==> self.buffer@[k] == 0xFFFFFFu32,
            decreases n - i,
        {
            self.buffer.set(i, 0xFFFFFF);
            i = i + 1;
        }
    }

    /// Read-only view of the whole pixel buffer.
    pub fn buffer(&self) -> (b: &[u32])
        ensures
            b@ == self.buffer@,
    {
        self.buffer.as_slice()
    }
}

} // verus!
