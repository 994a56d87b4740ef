use vstd::prelude::*;

use crate::text::{decimal, push_decimal};
use crate::resolution::{Rect, Resolution, Size};

verus! {

/// A point on the map grid. `x` grows to the right, `y` grows downwards.
#[derive(Clone, Copy, Debug, PartialEq, Eq, Structural, Hash)]
pub struct Position {
    pub x: u16,
    pub y: u16,
}

/// The neighbours of a position that lie inside the `u16` grid, in the order
/// left, right, top, bottom.
pub open spec fn neighbors_spec(p: Position) -> Seq<Position> {
    let left = if p.x > 0 { seq![Position { x: (p.x - 1) as u16, y: p.y }] } else { Seq::empty() };
    let right = if p.x < u16::MAX { seq![Position { x: (p.x + 1) as u16, y: p.y }] } else { Seq::empty() };
    let top = if p.y > 0 { seq![Position { x: p.x, y: (p.y - 1) as u16 }] } else { Seq::empty() };
    let bottom = if p.y < u16::MAX { seq![Position { x: p.x, y: (p.y + 1) as u16 }] } else { Seq::empty() };
    left + right + top + bottom
}

/// Two positions are adjacent when they differ by one step along exactly one axis.
pub open spec fn adjacent(a: Position, b: Position) -> bool {
    ||| (a.y == b.y && (a.x + 1 == b.x || b.x + 1 == a.x))
    ||| (a.x == b.x && (a.y + 1 == b.y || b.y + 1 == a.y))
}

/// The word `describe_neighbor` gives for `position` seen from `p`.
pub open spec fn neighbor_description(p: Position, position: Position) -> Seq<char> {
    if position.x + 1 == p.x && position.y == p.y {
        "Left"@
    } else if position.x == p.x + 1 && position.y == p.y {
        "Right"@
    } else if position.x == p.x && position.y + 1 == p.y {
        "Top"@
    } else if position.x == p.x && position.y == p.y + 1 {
        "Bottom"@
    } else if position.x == p.x && position.y == p.y {
        "Current"@
    } else {
        "Unknown"@
    }
}

/// The value of `actual` moved by `offset`, stopping at zero when moving down.
/// A negative offset is taken modulo 2^16, as a cast to `u16` does.
pub open spec fn offset_value(actual: u16, offset: i32) -> int {
    if offset < 0 {
        let n = (-offset) % 65536;
        if actual >= n { actual - n } else { 0 }
    } else if offset > 0 {
        actual + offset % 65536
    } else {
        actual as int
    }
}

/// Whether `offset_value(actual, offset)` fits in a `u16`.
pub open spec fn offset_fits(actual: u16, offset: i32) -> bool {
    &&& offset != i32::MIN
    &&& offset > 0 ==> actual + offset % 65536 <= u16::MAX
}

impl Position {
    pub fn new(x: u16, y: u16) -> (p: Position)
        ensures
            p == (Position { x, y }),
    {
        Position { x, y }
    }

    /// The start of a rectangle.
    pub fn from_rect(rect: Rect) -> (p: Position)
        ensures
            p == (Position { x: rect.x, y: rect.y }),
    {
        Position { x: rect.x, y: rect.y }
    }

    /// The position whose coordinates are the width and height of a size.
    pub fn from_size(size: Size) -> (p: Position)
        ensures
            p == (Position { x: size.width, y: size.height }),
    {
        Position { x: size.width, y: size.height }
    }

    pub fn zero() -> (p: Position)
        ensures
            p == (Position { x: 0, y: 0 }),
    {
        Position { x: 0, y: 0 }
    }

    /// The neighbours of this position (left, right, top, bottom), leaving out
    /// those that would fall outside the `u16` range.
    pub fn get_neighbors(&self) -> (positions: Vec<Position>)
        ensures
            positions@ == neighbors_spec(*self),
    {
        let mut positions = Vec::new();
        if self.x > 0 {
            positions.push(Position { x: self.x - 1, y: self.y });
        }
        if self.x < u16::MAX {
            positions.push(Position { x: self.x + 1, y: self.y });
        }
        if self.y > 0 {
            positions.push(Position { x: self.x, y: self.y - 1 });
        }
        if self.y < u16::MAX {
            positions.push(Position { x: self.x, y: self.y + 1 });
        }
        assert(positions@ =~= neighbors_spec(*self));
        positions
    }

    /// Names where `position` lies relative to this one.
    pub fn describe_neighbor(&self, position: Position) -> (s: String)
        requires
            self.x > 0,
            (position.x + 1 != self.x || position.y != self.y) ==> self.x < u16::MAX,
            position.x == self.x ==> self.y > 0,
            (position.x == self.x && position.y + 1 != self.y) ==> self.y < u16::MAX,
        ensures
            s@ == neighbor_description(*self, position),
    {
        proof {
            reveal_strlit("Left");
            reveal_strlit("Right");
            reveal_strlit("Top");
            reveal_strlit("Bottom");
            reveal_strlit("Current");
            reveal_strlit("Unknown");
        }
        if position.x == self.x - 1 && position.y == self.y {
            return String::from_str("Left");
        }
        if position.x == self.x + 1 && position.y == self.y {
            return String::from_str("Right");
        }
        if position.x == self.x && position.y == self.y - 1 {
            return String::from_str("Top");
        }
        if position.x == self.x && position.y == self.y + 1 {
            return String::from_str("Bottom");
        }
        if position.x == self.x && position.y == self.y {
            return String::from_str("Current");
        }
        String::from_str("Unknown")
    }

    pub fn equals(&self, position: Position) -> (r: bool)
        ensures
            r == (*self == position),
    {
        self.x == position.x && self.y == position.y
    }

    pub fn equals_option(&self, position: Option<Position>) -> (r: bool)
        ensures
            r == (position == Some(*self)),
    {
        if let Some(pos) = position {
            self.x == pos.x && self.y == pos.y
        } else {
            false
        }
    }

    fn calculate_unsigned_offset_value(&self, actual: u16, offset: i32) -> (r: u16)
        requires
            offset_fits(actual, offset),
        ensures
            r == offset_value(actual, offset),
    {
        let mut output = actual;
        if offset < 0 {
            let negative_offset: u16 = ((-offset) % 65536) as u16;
            if output >= negative_offset {
                output -= negative_offset;
            } else {
                output = 0;
            }
        } else if offset > 0 {
            output += (offset % 65536) as u16;
        }
        output
    }

    /// Moves this position by the given offsets, clamping at zero, and returns it.
    pub fn offset(&mut self, offset_x: i32, offset_y: i32) -> (p: Position)
        requires
            offset_fits(old(self).x, offset_x),
            offset_fits(old(self).y, offset_y),
        ensures
            final(self).x == offset_value(old(self).x, offset_x),
            final(self).y == offset_value(old(self).y, offset_y),
            p == *final(self),
    {
        self.x = self.calculate_unsigned_offset_value(self.x, offset_x);
        self.y = self.calculate_unsigned_offset_value(self.y, offset_y);
        *self
    }
}


/// A rectangle of the grid, given by its corners (inclusive) and its size.
#[derive(Clone, Copy, Debug, PartialEq, Eq, Structural)]
pub struct Area {
    pub start_position: Position,
    pub end_position: Position,
    pub width: u16,
    pub height: u16,
}

/// The four sides of an area.
#[derive(Clone, Copy, Debug, PartialEq, Eq, Structural)]
pub enum Side {
    LEFT,
    RIGHT,
    TOP,
    BOTTOM,
}

/// One side of an area, itself a one-wide area.
#[derive(Clone, Copy, Debug, PartialEq, Eq, Structural)]
pub struct AreaSide {
    pub area: Area,
    pub side: Side,
}

/// The end coordinate of a run of `size` cells from `start`; zero for an empty run.
pub open spec fn run_end(start: u16, size: u16) -> u16 {
    if size > 0 { (start + size - 1) as u16 } else { 0 }
}

/// The area `build_rectangular_area` builds.
pub open spec fn rectangular_area(start: Position, size_x: u16, size_y: u16) -> Area {
    Area {
        start_position: start,
        end_position: Position { x: run_end(start.x, size_x), y: run_end(start.y, size_y) },
        width: size_x,
        height: size_y,
    }
}

/// Whether `build_rectangular_area` can compute its corners without overflow.
pub open spec fn rectangular_area_fits(start: Position, size_x: u16, size_y: u16) -> bool {
    &&& size_x > 0 ==> start.x + size_x <= u16::MAX
    &&& size_y > 0 ==> start.y + size_y <= u16::MAX
}

/// Whether the position lies inside the corners of the area.
pub open spec fn contains_spec(a: Area, p: Position) -> bool {
    &&& a.start_position.x <= p.x <= a.end_position.x
    &&& a.start_position.y <= p.y <= a.end_position.y
}

/// An area whose corners and size agree: it holds exactly `width * height` cells.
pub open spec fn well_formed_area(a: Area) -> bool {
    &&& a.width > 0
    &&& a.height > 0
    &&& a.end_position.x == a.start_position.x + a.width - 1
    &&& a.end_position.y == a.start_position.y + a.height - 1
}

/// The test `intersects` performs: a corner coordinate of `b` lies in the
/// x-range of `a`, and a corner coordinate of `b` lies in the y-range of `a`.
pub open spec fn intersects_spec(a: Area, b: Area) -> bool {
    let in_x = |v: u16| a.start_position.x <= v <= a.end_position.x;
    let in_y = |v: u16| a.start_position.y <= v <= a.end_position.y;
    (in_x(b.start_position.x) || in_x(b.end_position.x)) && (in_y(b.start_position.y) || in_y(b.end_position.y))
}

/// The area grown by one cell on every side, as far as the `u16` range allows.
pub open spec fn grown_area(a: Area) -> Area {
    let start_x = if a.start_position.x > 0 { (a.start_position.x - 1) as u16 } else { a.start_position.x };
    let start_y = if a.start_position.y > 0 { (a.start_position.y - 1) as u16 } else { a.start_position.y };
    let end_x = if a.end_position.x < u16::MAX { (a.end_position.x + 1) as u16 } else { a.end_position.x };
    let end_y = if a.end_position.y < u16::MAX { (a.end_position.y + 1) as u16 } else { a.end_position.y };
    Area {
        start_position: Position { x: start_x, y: start_y },
        end_position: Position { x: end_x, y: end_y },
        width: abs_diff(start_x, end_x),
        height: abs_diff(start_y, end_y),
    }
}

pub open spec fn abs_diff(a: u16, b: u16) -> u16 {
    if a >= b { (a - b) as u16 } else { (b - a) as u16 }
}

/// The square `can_fit` asks about: `size` cells wide and high from `p`, all
/// inside the corners of `a`.
pub open spec fn can_fit_spec(a: Area, p: Position, size: u16) -> bool {
    &&& size > 0
    &&& contains_spec(a, p)
    &&& size <= a.width
    &&& size <= a.height
    &&& p.x + size - 1 <= a.end_position.x
    &&& p.y + size - 1 <= a.end_position.y
}

/// What `can_fit` needs to compute its answer without overflow.
pub open spec fn can_fit_computable(a: Area, p: Position, size: u16) -> bool {
    (size > 0 && contains_spec(a, p) && size <= a.width && size <= a.height)
        ==> (p.x + size <= u16::MAX && p.y + size <= u16::MAX)
}

/// The number of cells from `start` to `end`, both included.
pub open spec fn span(start: u16, end: u16) -> nat {
    if end >= start { (end - start + 1) as nat } else { 0 }
}

/// The positions of an area, column by column from the left, each column from the top.
pub open spec fn area_positions(a: Area) -> Seq<Position> {
    let ny = span(a.start_position.y, a.end_position.y);
    let nx = span(a.start_position.x, a.end_position.x);
    Seq::new(nx * ny, |i: int| Position {
        x: (a.start_position.x + i / (ny as int)) as u16,
        y: (a.start_position.y + i % (ny as int)) as u16,
    })
}

/// The one-wide area `build_line` builds along the given side.
pub open spec fn line_spec(start: Position, size: u16, side: Side) -> AreaSide {
    let z = size - 1;
    let (s, e, sx, sy) = match side {
        Side::LEFT => (start, Position { x: start.x, y: (start.y + z) as u16 }, 1u16, size),
        Side::RIGHT => (Position { x: (start.x + z) as u16, y: start.y }, Position { x: (start.x + z) as u16, y: (start.y + z) as u16 }, 1u16, size),
        Side::TOP => (start, Position { x: (start.x + z) as u16, y: start.y }, size, 1u16),
        Side::BOTTOM => (Position { x: start.x, y: (start.y + z) as u16 }, Position { x: (start.x + z) as u16, y: (start.y + z) as u16 }, size, 1u16),
    };
    AreaSide { area: Area { start_position: s, end_position: e, width: sx, height: sy }, side }
}

/// What `build_line` needs to compute its corners without overflow.
pub open spec fn line_fits(start: Position, size: u16, side: Side) -> bool {
    &&& size >= 1
    &&& match side {
        Side::LEFT => start.y + size - 1 <= u16::MAX,
        Side::TOP => start.x + size - 1 <= u16::MAX,
        _ => start.x + size - 1 <= u16::MAX && start.y + size - 1 <= u16::MAX,
    }
}

/// The sides `get_sides` builds, in the order left, right, top, bottom.
pub open spec fn sides_spec(a: Area) -> Seq<AreaSide> {
    seq![
        line_spec(a.start_position, a.height, Side::LEFT),
        line_spec(a.start_position, a.height, Side::RIGHT),
        line_spec(a.start_position, a.width, Side::TOP),
        line_spec(a.start_position, a.width, Side::BOTTOM),
    ]
}

/// The cell in the middle of an area side, rounding towards the start.
pub open spec fn mid_point_spec(s: AreaSide) -> Position {
    let a = s.area;
    match s.side {
        Side::LEFT => Position { x: a.start_position.x, y: (a.start_position.y + (a.height - 1) / 2) as u16 },
        Side::RIGHT => Position { x: a.end_position.x, y: (a.start_position.y + (a.height - 1) / 2) as u16 },
        Side::TOP => Position { x: (a.start_position.x + (a.width - 1) / 2) as u16, y: a.start_position.y },
        Side::BOTTOM => Position { x: (a.start_position.x + (a.width - 1) / 2) as u16, y: a.end_position.y },
    }
}

/// What `get_mid_point` needs to compute the middle without overflow.
pub open spec fn mid_point_fits(s: AreaSide) -> bool {
    let a = s.area;
    match s.side {
        Side::LEFT | Side::RIGHT => a.height >= 1 && a.start_position.y + (a.height - 1) / 2 <= u16::MAX,
        _ => a.width >= 1 && a.start_position.x + (a.width - 1) / 2 <= u16::MAX,
    }
}

/// Builds an area of `size_x` by `size_y` cells from `start_position`. An empty
/// dimension puts the end coordinate at zero.
pub fn build_rectangular_area(start_position: Position, size_x: u16, size_y: u16) -> (a: Area)
    requires
        rectangular_area_fits(start_position, size_x, size_y),
    ensures
        a == rectangular_area(start_position, size_x, size_y),
{
    let start_x = start_position.x;
    let start_y = start_position.y;
    let end_x = if size_x > 0 { start_x + size_x - 1 } else { 0 };
    let end_y = if size_y > 0 { start_y + size_y - 1 } else { 0 };
    let end_position = Position { x: end_x, y: end_y };
    Area { start_position, end_position, width: size_x, height: size_y }
}

/// Builds a square area of `size` by `size` cells from `start_position`.
pub fn build_square_area(start_position: Position, size: u16) -> (a: Area)
    requires
        size >= 1,
        start_position.x + size - 1 <= u16::MAX,
        start_position.y + size - 1 <= u16::MAX,
    ensures
        a == (Area {
            start_position,
            end_position: Position {
                x: (start_position.x + size - 1) as u16,
                y: (start_position.y + size - 1) as u16,
            },
            width: size,
            height: size,
        }),
        well_formed_area(a),
{
    let start_x = start_position.x;
    let start_y = start_position.y;
    let end_position = Position { x: start_x + (size - 1), y: start_y + (size - 1) };
    Area { start_position, end_position, width: size, height: size }
}

/// The four sides, in the order left, right, top, bottom.
pub fn all_sides() -> (sides: [Side; 4])
    ensures
        sides@ == seq![Side::LEFT, Side::RIGHT, Side::TOP, Side::BOTTOM],
{
    let sides = [Side::LEFT, Side::RIGHT, Side::TOP, Side::BOTTOM];
    assert(sides@ =~= seq![Side::LEFT, Side::RIGHT, Side::TOP, Side::BOTTOM]);
    sides
}

/// Builds the one-wide area of `size` cells that runs along `side` of a square
/// area starting at `start_position`.
pub fn build_line(start_position: Position, size: u16, side: Side) -> (line: AreaSide)
    requires
        line_fits(start_position, size, side),
    ensures
        line == line_spec(start_position, size, side),
{
    let start_x = start_position.x;
    let start_y = start_position.y;
    let zero_indexed_size = size - 1;
    let start_position;
    let end_position;
    let size_x;
    let size_y;
    match side {
        Side::LEFT => {
            start_position = Position { x: start_x, y: start_y };
            end_position = Position { x: start_x, y: start_y + zero_indexed_size };
            size_x = 1;
            size_y = size;
        },
        Side::RIGHT => {
            start_position = Position { x: start_x + zero_indexed_size, y: start_y };
            end_position = Position { x: start_x + zero_indexed_size, y: start_y + zero_indexed_size };
            size_x = 1;
            size_y = size;
        },
        Side::TOP => {
            start_position = Position { x: start_x, y: start_y };
            end_position = Position { x: start_x + zero_indexed_size, y: start_y };
            size_x = size;
            size_y = 1;
        },
        Side::BOTTOM => {
            start_position = Position { x: start_x, y: start_y + zero_indexed_size };
            end_position = Position { x: start_x + zero_indexed_size, y: start_y + zero_indexed_size };
            size_x = size;
            size_y = 1;
        },
    }
    let area = Area { start_position, end_position, width: size_x, height: size_y };
    AreaSide { area, side }
}


impl Area {
    pub fn new(start_position: Position, width: u16, height: u16) -> (a: Area)
        requires
            rectangular_area_fits(start_position, width, height),
        ensures
            a == rectangular_area(start_position, width, height),
    {
        build_rectangular_area(start_position, width, height)
    }

    /// The area of the given resolution, starting at the origin.
    pub fn from_resolution(resolution: Resolution) -> (a: Area)
        ensures
            a == rectangular_area(Position { x: 0, y: 0 }, resolution.width, resolution.height),
    {
        build_rectangular_area(Position::zero(), resolution.width, resolution.height)
    }

    /// The area covering a rectangle.
    pub fn from_rect(rect: Rect) -> (a: Area)
        requires
            rectangular_area_fits(Position { x: rect.x, y: rect.y }, rect.width, rect.height),
        ensures
            a == rectangular_area(Position { x: rect.x, y: rect.y }, rect.width, rect.height),
    {
        build_rectangular_area(Position::from_rect(rect), rect.width, rect.height)
    }

    /// The rectangle with this area's start and size.
    pub fn to_rect(&self) -> (r: Rect)
        ensures
            r == (Rect { x: self.start_position.x, y: self.start_position.y, width: self.width, height: self.height }),
    {
        Rect { x: self.start_position.x, y: self.start_position.y, width: self.width, height: self.height }
    }

    /// The position `x` columns and `y` rows from the start of the area.
    pub fn get_position(&self, x: u16, y: u16) -> (p: Position)
        requires
            self.start_position.x + x <= u16::MAX,
            self.start_position.y + y <= u16::MAX,
        ensures
            p == (Position { x: (self.start_position.x + x) as u16, y: (self.start_position.y + y) as u16 }),
    {
        let result_x = self.start_position.x + x;
        let result_y = self.start_position.y + y;
        Position::new(result_x, result_y)
    }

    pub fn get_total_area(&self) -> (n: u16)
        requires
            self.width * self.height <= u16::MAX,
        ensures
            n == self.width * self.height,
    {
        self.width * self.height
    }

    pub fn get_size_x(&self) -> (n: u16)
        ensures
            n == self.width,
    {
        self.width
    }

    pub fn get_size_y(&self) -> (n: u16)
        ensures
            n == self.height,
    {
        self.height
    }

    /// The left, right, top and bottom sides, each built with `build_line` from
    /// the start of the area (the left and right sides with the height, the top
    /// and bottom with the width).
    pub fn get_sides(&self) -> (sides: Vec<AreaSide>)
        requires
            line_fits(self.start_position, self.height, Side::RIGHT),
            line_fits(self.start_position, self.width, Side::BOTTOM),
        ensures
            sides@ == sides_spec(*self),
    {
        let start_pos = &self.start_position;
        let mut sides: Vec<AreaSide> = Vec::new();
        let all = all_sides();
        let mut i: usize = 0;
        while i < 4
            invariant
                i <= 4,
                all@ == seq![Side::LEFT, Side::RIGHT, Side::TOP, Side::BOTTOM],
                *start_pos == self.start_position,
                line_fits(self.start_position, self.height, Side::RIGHT),
                line_fits(self.start_position, self.width, Side::BOTTOM),
                sides@ =~= sides_spec(*self).take(i as int),
            decreases 4 - i,
        {
            let side = all[i];
            if side == Side::LEFT || side == Side::RIGHT {
                sides.push(build_line(*start_pos, self.height, side));
            } else {
                sides.push(build_line(*start_pos, self.width, side));
            }
            i += 1;
        }
        sides
    }

    /// Whether a corner coordinate of `area` lies in this area's x-range and a
    /// corner coordinate of `area` lies in its y-range.
    pub fn intersects(&self, area: Area) -> (r: bool)
        ensures
            r == intersects_spec(*self, area),
    {
        let start_x = self.start_position.x;
        let start_y = self.start_position.y;
        let end_x = self.end_position.x;
        let end_y = self.end_position.y;

        let area_start_x = area.start_position.x;
        let area_start_y = area.start_position.y;
        let area_end_x = area.end_position.x;
        let area_end_y = area.end_position.y;

        let area_start_x_intersect = area_start_x >= start_x && area_start_x <= end_x;
        let area_end_x_intersect = area_end_x >= start_x && area_end_x <= end_x;
        let area_start_y_intersect = area_start_y >= start_y && area_start_y <= end_y;
        let area_end_y_intersect = area_end_y >= start_y && area_end_y <= end_y;

        (area_start_x_intersect || area_end_x_intersect) && (area_start_y_intersect || area_end_y_intersect)
    }

    /// `intersects`, with this area first grown by one cell on every side.
    pub fn intersects_or_touches(&self, area: Area) -> (r: bool)
        ensures
            r == intersects_spec(grown_area(*self), area),
    {
        let start_x = if self.start_position.x > 0 { self.start_position.x - 1 } else { self.start_position.x };
        let start_y = if self.start_position.y > 0 { self.start_position.y - 1 } else { self.start_position.y };
        let end_x = if self.end_position.x < u16::MAX { self.end_position.x + 1 } else { self.end_position.x };
        let end_y = if self.end_position.y < u16::MAX { self.end_position.y + 1 } else { self.end_position.y };

        let size_x = if start_x >= end_x { start_x - end_x } else { end_x - start_x };
        let size_y = if start_y >= end_y { start_y - end_y } else { end_y - start_y };

        let start_position = Position { x: start_x, y: start_y };
        let end_position = Position { x: end_x, y: end_y };
        let self_adjusted_area = Area { start_position, end_position, width: size_x, height: size_y };
        self_adjusted_area.intersects(area)
    }

    pub fn contains_position(&self, position: Position) -> (r: bool)
        ensures
            r == contains_spec(*self, position),
    {
        let x = position.x;
        let y = position.y;
        let lower_x_bound = x >= self.start_position.x;
        let lower_y_bound = y >= self.start_position.y;
        let upper_x_bound = x <= self.end_position.x;
        let upper_y_bound = y <= self.end_position.y;
        lower_x_bound && lower_y_bound && upper_x_bound && upper_y_bound
    }

    pub fn contains(&self, x: u16, y: u16) -> (r: bool)
        ensures
            r == contains_spec(*self, Position { x, y }),
    {
        let lower_x_bound = x >= self.start_position.x;
        let lower_y_bound = y >= self.start_position.y;
        let upper_x_bound = x <= self.end_position.x;
        let upper_y_bound = y <= self.end_position.y;
        lower_x_bound && lower_y_bound && upper_x_bound && upper_y_bound
    }

    /// Whether a square of `size` cells starting at `position` fits inside this area.
    pub fn can_fit(&self, position: Position, size: u16) -> (r: bool)
        requires
            can_fit_computable(*self, position, size),
        ensures
            r == can_fit_spec(*self, position, size),
    {
        if size == 0 {
            return false;
        }
        let x = position.x;
        let y = position.y;
        let in_bounds = self.contains_position(position);
        if in_bounds && size <= self.width && size <= self.height {
            let end_x = x + size - 1;
            let end_y = y + size - 1;
            let end_x_bound = end_x <= self.end_position.x;
            let end_y_bound = end_y <= self.end_position.y;
            return end_x_bound && end_y_bound;
        }
        false
    }

    /// Every position between the corners, column by column from the left,
    /// each column from the top.
    pub fn get_positions(&self) -> (positions: Vec<Position>)
        requires
            self.end_position.x < u16::MAX,
            self.end_position.y < u16::MAX,
        ensures
            positions@ == area_positions(*self),
    {
        let mut positions: Vec<Position> = Vec::new();
        let start_pos = self.start_position;
        let end_pos = self.end_position;
        let ghost ny = span(start_pos.y, end_pos.y) as int;
        let ghost target = area_positions(*self);
        let mut x = start_pos.x;
        let x_end = end_pos.x + 1;
        let y_end = end_pos.y + 1;
        if x < x_end {
            while x < x_end
                invariant
                    start_pos == self.start_position,
                    end_pos == self.end_position,
                    x_end == end_pos.x + 1,
                    y_end == end_pos.y + 1,
                    start_pos.x <= x <= x_end,
                    ny == span(start_pos.y, end_pos.y),
                    target == area_positions(*self),
                    positions@.len() == (x - start_pos.x) * ny,
                    forall|i: int| 0 <= i < positions@.len() ==> #[trigger] positions@[i] == target[i],
                decreases x_end - x,
            {
                let mut y = start_pos.y;
                let ghost base = (x - start_pos.x) * ny;
                while y < y_end
                    invariant
                        start_pos == self.start_position,
                        end_pos == self.end_position,
                        y_end == end_pos.y + 1,
                        x_end == end_pos.x + 1,
                        start_pos.x <= x < x_end,
                        ny == span(start_pos.y, end_pos.y),
                        target == area_positions(*self),
                        base == (x - start_pos.x) * ny,
                        start_pos.y <= y,
                        positions@.len() == base + (y - start_pos.y),
                        y_end > start_pos.y ==> y <= y_end,
                        y_end <= start_pos.y ==> y == start_pos.y,
                        forall|i: int| 0 <= i < positions@.len() ==> #[trigger] positions@[i] == target[i],
                    decreases y_end - y,
                {
                    proof {
                        let i = base + (y - start_pos.y);
                        let k = x - start_pos.x;
                        let j = y - start_pos.y;
                        assert(ny == y_end - start_pos.y);
                        assert(0 <= j < ny);
                        lemma_index_split(i, k, j, ny);
                        assert(i < (x_end - start_pos.x) * ny) by (nonlinear_arith)
                            requires
                                i == k * ny + j,
                                j < ny,
                                k + 1 <= x_end - start_pos.x,
                                ny > 0;
                        assert(i < span(start_pos.x, end_pos.x) * ny);
                        assert(target[i] == Position { x, y });
                    }
                    positions.push(Position { x, y });
                    y += 1;
                }
                proof {
                    if y_end > start_pos.y {
                        assert(positions@.len() == base + ny);
                    } else {
                        assert(ny == 0);
                        assert(y == start_pos.y);
                    }
                    assert((x + 1 - start_pos.x) * ny == (x - start_pos.x) * ny + ny) by (nonlinear_arith);
                }
                x += 1;
            }
        }
        proof {
            assert(positions@.len() == target.len()) by {
                if x_end > start_pos.x {
                    assert(x == x_end);
                } else {
                    assert(span(start_pos.x, end_pos.x) == 0);
                }
            }
            assert(positions@ =~= target);
        }
        positions
    }

    /// The size of the area as `"{width}x{height}"`.
    pub fn get_description(&self) -> (s: String)
        ensures
            s@ == decimal(self.width as nat) + "x"@ + decimal(self.height as nat),
    {
        proof { reveal_strlit("x"); }
        let mut s = String::new();
        push_decimal(&mut s, self.width as u64);
        s.append("x");
        push_decimal(&mut s, self.height as u64);
        s
    }
}

pub(crate) proof fn lemma_index_split(i: int, k: int, j: int, n: int)
    requires
        n > 0,
        0 <= j < n,
        k >= 0,
        i == k * n + j,
    ensures
        i / n == k,
        i % n == j,
{
    vstd::arithmetic::div_mod::lemma_fundamental_div_mod_converse(i, n, k, j);
}

impl AreaSide {
    /// The middle cell of the side, rounding towards the start of the side.
    pub fn get_mid_point(&self) -> (p: Position)
        requires
            mid_point_fits(*self),
        ensures
            p == mid_point_spec(*self),
    {
        match self.side {
            Side::LEFT => {
                Position { x: self.area.start_position.x, y: self.area.start_position.y + (self.area.height - 1) / 2 }
            },
            Side::RIGHT => {
                Position { x: self.area.end_position.x, y: self.area.start_position.y + (self.area.height - 1) / 2 }
            },
            Side::TOP => {
                Position { x: self.area.start_position.x + (self.area.width - 1) / 2, y: self.area.start_position.y }
            },
            Side::BOTTOM => {
                Position { x: self.area.start_position.x + (self.area.width - 1) / 2, y: self.area.end_position.y }
            },
        }
    }
}

/// The side a random index in `0..=3` picks; anything else picks the left side.
pub fn side_from_index(index: u32) -> (side: Side)
    ensures
        side == (if index == 1 { Side::RIGHT } else if index == 2 { Side::TOP } else if index == 3 { Side::BOTTOM } else { Side::LEFT }),
{
    match index {
        0 => Side::LEFT,
        1 => Side::RIGHT,
        2 => Side::TOP,
        3 => Side::BOTTOM,
        _ => Side::LEFT,
    }
}

/// The neighbours of a position are exactly the positions adjacent to it, each
/// listed once.
pub proof fn lemma_neighbors_are_adjacent(p: Position)
    ensures
        forall|i: int| 0 <= i < neighbors_spec(p).len() ==> adjacent(p, #[trigger] neighbors_spec(p)[i]),
        forall|q: Position| adjacent(p, q) ==> neighbors_spec(p).contains(q),
        neighbors_spec(p).no_duplicates(),
        neighbors_spec(p).len() == 4 - (if p.x == 0 { 1int } else { 0 }) - (if p.x == u16::MAX { 1int } else { 0 })
            - (if p.y == 0 { 1int } else { 0 }) - (if p.y == u16::MAX { 1int } else { 0 }),
{
    let s = neighbors_spec(p);
    assert forall|q: Position| adjacent(p, q) implies s.contains(q) by {
        let l: int = if p.x > 0 { 1 } else { 0 };
        let r: int = if p.x < u16::MAX { 1 } else { 0 };
        let t: int = if p.y > 0 { 1 } else { 0 };
        if q.y == p.y && q.x + 1 == p.x {
            assert(s[0] == q);
        } else if q.y == p.y && q.x == p.x + 1 {
            assert(s[l] == q);
        } else if q.x == p.x && q.y + 1 == p.y {
            assert(s[l + r] == q);
        } else {
            assert(s[l + r + t] == q);
        }
    }
}

/// Moving a coordinate by an offset and then by the opposite offset gives the
/// coordinate back, unless the first move was stopped at zero.
pub proof fn lemma_offset_round_trip(actual: u16, offset: i32)
    requires
        -65536 < offset < 65536,
        offset > 0 ==> actual + offset <= u16::MAX,
        offset < 0 ==> actual + offset >= 0,
    ensures
        offset_fits(actual, offset),
        offset_fits(offset_value(actual, offset) as u16, -offset as i32),
        offset_value(offset_value(actual, offset) as u16, -offset as i32) == actual,
{
}

/// Moving by a negative offset never leaves the grid: it stops at zero.
pub proof fn lemma_offset_clamps_at_zero(actual: u16, offset: i32)
    requires
        offset < 0,
        offset != i32::MIN,
        actual < (-offset) % 65536,
    ensures
        offset_value(actual, offset) == 0,
{
}

/// A rectangular area of non-zero size holds exactly the positions from its
/// start up to `size` cells on each axis, and its corners agree with its size.
pub proof fn lemma_rectangular_area_contents(start: Position, size_x: u16, size_y: u16, p: Position)
    requires
        size_x > 0,
        size_y > 0,
        rectangular_area_fits(start, size_x, size_y),
    ensures
        well_formed_area(rectangular_area(start, size_x, size_y)),
        contains_spec(rectangular_area(start, size_x, size_y), p)
            <==> (start.x <= p.x < start.x + size_x && start.y <= p.y < start.y + size_y),
{
}

/// The positions listed for an area are exactly the positions it contains,
/// each listed once, `width * height` of them for a well-formed area.
pub proof fn lemma_area_positions_exact(a: Area)
    ensures
        forall|p: Position| area_positions(a).contains(p) <==> contains_spec(a, p),
        area_positions(a).no_duplicates(),
        well_formed_area(a) ==> area_positions(a).len() == a.width * a.height,
{
    let ny = span(a.start_position.y, a.end_position.y) as int;
    let nx = span(a.start_position.x, a.end_position.x) as int;
    let s = area_positions(a);
    assert forall|p: Position| s.contains(p) <==> contains_spec(a, p) by {
        if contains_spec(a, p) {
            let k = p.x - a.start_position.x;
            let j = p.y - a.start_position.y;
            let i = k * ny + j;
            lemma_index_split(i, k, j, ny);
            assert(i < nx * ny) by (nonlinear_arith)
                requires 0 <= k < nx, 0 <= j < ny, i == k * ny + j;
            assert(s[i] == p);
        }
        if s.contains(p) {
            let i = choose|i: int| 0 <= i < s.len() && s[i] == p;
            assert(0 <= i / ny < nx && 0 <= i % ny < ny) by (nonlinear_arith)
                requires 0 <= i < nx * ny, ny > 0 || nx * ny == 0;
        }
    }
    assert forall|i: int, j: int| 0 <= i < s.len() && 0 <= j < s.len() && i != j implies s[i] != s[j] by {
        if s[i] == s[j] {
            assert(nx >= 0 && ny >= 0);
            assert(ny > 0) by (nonlinear_arith) requires 0 <= i < nx * ny, nx >= 0, ny >= 0;
            assert(0 <= i / ny < nx && 0 <= i % ny < ny && 0 <= j / ny < nx && 0 <= j % ny < ny) by (nonlinear_arith)
                requires 0 <= i < nx * ny, 0 <= j < nx * ny, ny > 0;
            assert(i / ny == j / ny);
            assert(i % ny == j % ny);
            vstd::arithmetic::div_mod::lemma_fundamental_div_mod(i, ny);
            vstd::arithmetic::div_mod::lemma_fundamental_div_mod(j, ny);
        }
    }
    if well_formed_area(a) {
        assert(nx == a.width && ny == a.height);
    }
}

/// When `intersects` holds between two well-formed areas, they share a cell.
pub proof fn lemma_intersects_sound(a: Area, b: Area)
    requires
        well_formed_area(a),
        well_formed_area(b),
        intersects_spec(a, b),
    ensures
        exists|p: Position| contains_spec(a, p) && contains_spec(b, p),
{
    let in_x_a = |v: u16| a.start_position.x <= v <= a.end_position.x;
    let x = if in_x_a(b.start_position.x) { b.start_position.x } else { b.end_position.x };
    let y = if a.start_position.y <= b.start_position.y <= a.end_position.y { b.start_position.y } else { b.end_position.y };
    assert(contains_spec(a, Position { x, y }) && contains_spec(b, Position { x, y }));
}

/// Touching includes intersecting: growing an area by a cell never loses an
/// intersection.
pub proof fn lemma_intersects_implies_touches(a: Area, b: Area)
    requires
        intersects_spec(a, b),
    ensures
        intersects_spec(grown_area(a), b),
{
}

/// When `can_fit` says a square fits, every cell of that square lies in the area.
pub proof fn lemma_can_fit_square_inside(a: Area, p: Position, size: u16, q: Position)
    requires
        can_fit_spec(a, p, size),
        contains_spec(
            Area {
                start_position: p,
                end_position: Position { x: (p.x + size - 1) as u16, y: (p.y + size - 1) as u16 },
                width: size,
                height: size,
            },
            q,
        ),
    ensures
        contains_spec(a, q),
{
}

/// The sides of a square area run along its edges: each side lies inside the
/// area, on the edge it names. (For an area that is not square the right and
/// bottom sides are placed by the other dimension and may fall elsewhere.)
pub proof fn lemma_square_sides_on_edges(a: Area, q: Position)
    requires
        well_formed_area(a),
        a.width == a.height,
    ensures
        forall|k: int| 0 <= k < 4 ==> contains_spec(#[trigger] sides_spec(a)[k].area, q) ==> contains_spec(a, q),
        contains_spec(sides_spec(a)[0].area, q) ==> q.x == a.start_position.x,
        contains_spec(sides_spec(a)[1].area, q) ==> q.x == a.end_position.x,
        contains_spec(sides_spec(a)[2].area, q) ==> q.y == a.start_position.y,
        contains_spec(sides_spec(a)[3].area, q) ==> q.y == a.end_position.y,
{
}

/// The middle of a side lies on that side.
pub proof fn lemma_mid_point_on_side(s: AreaSide)
    requires
        well_formed_area(s.area),
        mid_point_fits(s),
    ensures
        contains_spec(s.area, mid_point_spec(s)),
{
}

} // verus!
