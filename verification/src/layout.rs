//! The indexed geometric layout of a packed image.
//!
//! A [`Layout`] records the pixel size of the image and an ordered sequence
//! of axis-aligned rectangles, indexed from zero in insertion order.  The
//! index a rectangle gets on insertion is the index the name-to-index
//! mapping refers to.

use vstd::prelude::*;

verus! {

/// An axis-aligned pixel rectangle: origin `(x, y)`, size
/// `(width, height)`, covering `[origin, origin + size)`.
#[derive(Clone, Copy, Debug, PartialEq, Eq, Structural)]
pub struct Rect {
    pub x: u32,
    pub y: u32,
    pub width: u32,
    pub height: u32,
}

/// An ordered sequence of rectangles within an image of the recorded size.
#[derive(Debug)]
pub struct Layout {
    width: u32,
    height: u32,
    rects: Vec<Rect>,
}

impl View for Layout {
    type V = Seq<Rect>;

    closed spec fn view(&self) -> Seq<Rect> {
        self.rects@
    }
}

impl Layout {
    pub closed spec fn spec_width(self) -> u32 {
        self.width
    }

    pub closed spec fn spec_height(self) -> u32 {
        self.height
    }

    /// An empty layout for an image of the given pixel size.
    pub fn new_empty(width: u32, height: u32) -> (l: Layout)
        ensures
            l@ =~= Seq::<Rect>::empty(),
            l.spec_width() == width,
            l.spec_height() == height,
    {
        Layout { width, height, rects: Vec::new() }
    }

    /// Append a rectangle; its index is the number of rectangles before it.
    pub fn add_texture(&mut self, rect: Rect) -> (index: usize)
        ensures
            final(self)@ == old(self)@.push(rect),
            index == old(self)@.len(),
            final(self).spec_width() == old(self).spec_width(),
            final(self).spec_height() == old(self).spec_height(),
    {
        let index = self.rects.len();
        self.rects.push(rect);
        index
    }

    pub fn len(&self) -> (n: usize)
        ensures
            n == self@.len(),
    {
        self.rects.len()
    }

    pub fn get(&self, index: usize) -> (r: Rect)
        requires
            index < self@.len(),
        ensures
            r == self@[index as int],
    {
        self.rects[index]
    }

    pub fn width(&self) -> (w: u32)
        ensures
            w == self.spec_width(),
    {
        self.width
    }

    pub fn height(&self) -> (h: u32)
        ensures
            h == self.spec_height(),
    {
        self.height
    }
}

} // verus!
