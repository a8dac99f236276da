//! Screen-sized pixel buffer and small geometry types.
//!
//! The destination surface is a fixed 320 by 200 indexed-colour screen; a
//! pixel is stored as `0xAARRGGBB` with the palette's six-bit channels
//! scaled up by a left shift of two.

use vstd::prelude::*;

verus! {

pub const SCREEN_WIDTH: u32 = 320;

pub const SCREEN_HEIGHT: u32 = 200;

/// A position on the screen, in pixels.
#[derive(Clone, Copy, Debug, PartialEq, Eq, Structural)]
pub struct Point {
    pub x: u32,
    pub y: u32,
}

impl Point {
    /// The point at column `x`, row `y`.
    pub fn xy(x: u32, y: u32) -> (r: Point)
        ensures
            r.x == x && r.y == y,
    {
        Point { x, y }
    }

    /// The point's position in a row-major screen buffer.
    pub fn index(&self) -> (r: usize)
        requires
            self.y * 320 + self.x <= u32::MAX,
        ensures
            r == self.y * 320 + self.x,
    {
        (self.y * SCREEN_WIDTH + self.x) as usize
    }
}

/// An RGB colour with six-bit channels.
#[derive(Clone, Copy, Debug, PartialEq, Eq, Structural)]
pub struct Color {
    pub r: u8,
    pub g: u8,
    pub b: u8,
}

impl Color {
    /// The colour with the given channels.
    pub fn rgb(r: u8, g: u8, b: u8) -> (c: Color)
        ensures
            c.r == r && c.g == g && c.b == b,
    {
        Color { r, g, b }
    }
}

/// A width and height, in pixels.
#[derive(Clone, Copy, Debug, PartialEq, Eq, Structural)]
pub struct Size {
    pub width: u32,
    pub height: u32,
}

impl Size {
    /// The size with the given width and height.
    pub fn wh(width: u32, height: u32) -> (s: Size)
        ensures
            s.width == width && s.height == height,
    {
        Size { width, height }
    }
}

/// The whole screen.
pub fn screen_size() -> (s: Size)
    ensures
        s.width == 320 && s.height == 200,
{
    Size { width: SCREEN_WIDTH, height: SCREEN_HEIGHT }
}

/// A full-screen pixel buffer.
pub struct Canvas {
    pixels: Vec<u32>,
}

impl View for Canvas {
    type V = Seq<u32>;

    closed spec fn view(&self) -> Seq<u32> {
        self.pixels@
    }
}

impl Canvas {
    /// A black screen: one zeroed pixel per screen position.
    pub fn new() -> (c: Canvas)
        ensures
            c@.len() == 64000,
            forall|i: int| 0 <= i < 64000 ==> c@[i] == 0u32,
    {
        let mut pixels: Vec<u32> = Vec::new();
        let mut i: usize = 0;
        while i < 64000
            invariant
                i <= 64000,
                pixels@.len() == i,
                forall|j: int| 0 <= j < i ==> pixels@[j] == 0u32,
            decreases 64000 - i,
        {
            pixels.push(0);
            i = i + 1;
        }
        Canvas { pixels }
    }

    /// The pixels, for presentation.
    pub fn get(&self) -> (r: &Vec<u32>)
        ensures
            r@ == self@,
    {
        &self.pixels
    }

    /// The pixels, for drawing into.
    pub fn raw(&mut self) -> (r: &mut Vec<u32>)
        ensures
            r@ == old(self)@,
            final(self)@ == final(r)@,
    {
        &mut self.pixels
    }

    /// Raw write of one pixel at a point.
    pub fn raw_at(&mut self, pos: Point, value: u32)
        requires
            pos.y * 320 + pos.x < old(self)@.len(),
            pos.y * 320 + pos.x <= u32::MAX,
        ensures
            final(self)@ == old(self)@.update(pos.y * 320 + pos.x, value),
    {
        let idx = pos.index();
        self.pixels[idx] = value;
    }
}

} // verus!
