use vstd::prelude::*;

verus! {

/// A rectangle of terminal cells: its top-left corner and its size.
#[derive(Clone, Copy, Debug, PartialEq, Eq, Structural)]
pub struct Rect {
    pub x: u16,
    pub y: u16,
    pub width: u16,
    pub height: u16,
}

/// The size of a terminal frame.
#[derive(Clone, Copy, Debug, PartialEq, Eq, Structural)]
pub struct Size {
    pub width: u16,
    pub height: u16,
}

impl Rect {
    pub fn new(x: u16, y: u16, width: u16, height: u16) -> (r: Rect)
        ensures
            r == (Rect { x, y, width, height }),
    {
        Rect { x, y, width, height }
    }
}

/// A display resolution in terminal cells.
#[derive(Clone, Copy, Debug, PartialEq, Eq, Structural)]
pub struct Resolution {
    pub width: u16,
    pub height: u16,
}

/// The smallest resolution the game supports (80x24).
pub fn min_resolution() -> (r: Resolution)
    ensures
        r == (Resolution { width: 80, height: 24 }),
{
    Resolution { width: 80, height: 24 }
}

/// The largest resolution the game offers (200x51).
pub fn max_resolution() -> (r: Resolution)
    ensures
        r == (Resolution { width: 200, height: 51 }),
{
    Resolution { width: 200, height: 51 }
}

impl Resolution {
    pub fn new(width: u16, height: u16) -> (r: Resolution)
        ensures
            r == (Resolution { width, height }),
    {
        Resolution { width, height }
    }

    /// The resolution of a rectangle's size.
    pub fn from_rect(rect: Rect) -> (r: Resolution)
        ensures
            r == (Resolution { width: rect.width, height: rect.height }),
    {
        Resolution { width: rect.width, height: rect.height }
    }

    /// The rectangle of this size at the origin.
    pub fn to_rect(&self) -> (r: Rect)
        ensures
            r == (Rect { x: 0, y: 0, width: self.width, height: self.height }),
    {
        Rect { x: 0, y: 0, width: self.width, height: self.height }
    }
}

} // verus!
