//! Screen rectangles and colours.
use vstd::prelude::*;

verus! {

/// A rectangle on the screen: its top-left corner and its size.
#[derive(Clone, Copy, PartialEq, Eq, Debug, Structural)]
pub struct Rect {
    pub x: i32,
    pub y: i32,
    pub w: i32,
    pub h: i32,
}

impl Rect {
    pub fn new(x: i32, y: i32, w: i32, h: i32) -> (r: Rect)
        ensures
            r == (Rect { x, y, w, h }),
    {
        Rect { x, y, w, h }
    }

    /// Its right and bottom edges fit in an i32.
    pub open spec fn edges_fit(self) -> bool {
        i32::MIN <= self.x + self.w <= i32::MAX && i32::MIN <= self.y + self.h <= i32::MAX
    }

    pub fn left(&self) -> (v: i32)
        ensures
            v == self.x,
    {
        self.x
    }

    pub fn top(&self) -> (v: i32)
        ensures
            v == self.y,
    {
        self.y
    }

    pub fn right(&self) -> (v: i32)
        requires
            self.edges_fit(),
        ensures
            v == self.x + self.w,
    {
        self.x + self.w
    }

    pub fn bottom(&self) -> (v: i32)
        requires
            self.edges_fit(),
        ensures
            v == self.y + self.h,
    {
        self.y + self.h
    }
}

pub open spec fn min(a: int, b: int) -> int {
    if a < b { a } else { b }
}

pub open spec fn max(a: int, b: int) -> int {
    if a > b { a } else { b }
}

/// The smallest rectangle around both (the tutorial's highlight around two buttons).
pub fn union(a: Rect, b: Rect) -> (r: Rect)
    requires
        a.edges_fit(),
        b.edges_fit(),
        i32::MIN <= max(a.x + a.w, b.x + b.w) - min(a.x as int, b.x as int) <= i32::MAX,
        i32::MIN <= max(a.y + a.h, b.y + b.h) - min(a.y as int, b.y as int) <= i32::MAX,
    ensures
        r.x == min(a.x as int, b.x as int),
        r.y == min(a.y as int, b.y as int),
        r.x + r.w == max(a.x + a.w, b.x + b.w),
        r.y + r.h == max(a.y + a.h, b.y + b.h),
{
    let l = if a.left() < b.left() { a.left() } else { b.left() };
    let t = if a.top() < b.top() { a.top() } else { b.top() };
    let right = if a.right() > b.right() { a.right() } else { b.right() };
    let bottom = if a.bottom() > b.bottom() { a.bottom() } else { b.bottom() };
    Rect::new(l, t, right - l, bottom - t)
}

/// A colour: red, green, blue and opacity.
#[derive(Clone, Copy, PartialEq, Eq, Debug, Structural)]
pub struct Color {
    pub r: u8,
    pub g: u8,
    pub b: u8,
    pub a: u8,
}

impl Color {
    /// An opaque colour.
    pub fn rgb(r: u8, g: u8, b: u8) -> (c: Color)
        ensures
            c == (Color { r, g, b, a: 255 }),
    {
        Color { r, g, b, a: 255 }
    }
}

/// One channel darkened by d (never below 0; a result above 255, from a negative d, wraps around as a u8 does).
pub open spec fn dim_channel(v: u8, d: i32) -> u8 {
    (if v - d > 0 { v - d } else { 0 }) as u8
}

/// The colour darkened by d on each channel (an opaque colour).
pub fn color_dim(c: Color, d: i32) -> (r: Color)
    requires
        c.r - d <= i32::MAX,
        c.g - d <= i32::MAX,
        c.b - d <= i32::MAX,
    ensures
        r == Color::rgb_spec(dim_channel(c.r, d), dim_channel(c.g, d), dim_channel(c.b, d)),
{
    let r = c.r as i32 - d;
    let g = c.g as i32 - d;
    let b = c.b as i32 - d;
    Color::rgb(
        (if r > 0 { r } else { 0 }) as u8,
        (if g > 0 { g } else { 0 }) as u8,
        (if b > 0 { b } else { 0 }) as u8,
    )
}

impl Color {
    pub open spec fn rgb_spec(r: u8, g: u8, b: u8) -> Color {
        Color { r, g, b, a: 255 }
    }
}

} // verus!
