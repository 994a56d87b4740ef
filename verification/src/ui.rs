use vstd::prelude::*;

use crate::position::{rectangular_area, rectangular_area_fits, Area, Position, build_rectangular_area};
use crate::resolution::{min_resolution, Rect, Resolution, Size};
use crate::text::push_decimal;

verus! {

/// An input/output error of kind `Other` with the given message.
#[verifier::external_body]
fn other_io_error(message: String) -> std::io::Error {
    std::io::Error::new(std::io::ErrorKind::Other, message)
}

/// A named area of the screen.
#[derive(Clone, Debug)]
pub struct UIArea {
    pub name: String,
    pub area: Area,
}

/// An area with a border one cell wide; `inner` is the part inside the border.
#[derive(Clone, Copy, Debug, PartialEq, Eq, Structural)]
pub struct BorderedArea {
    pub outer: Area,
    pub inner: Area,
}

/// The bordered area `BorderedArea::new` builds.
pub open spec fn bordered_spec(start: Position, width: u16, height: u16) -> BorderedArea {
    BorderedArea {
        outer: rectangular_area(start, width, height),
        inner: rectangular_area(
            Position { x: (start.x + 1) as u16, y: (start.y + 1) as u16 },
            (width - 2) as u16,
            (height - 2) as u16,
        ),
    }
}

impl BorderedArea {
    /// The bordered area of the given size; it needs at least three cells
    /// each way, and fails otherwise.
    pub fn new(start_position: Position, width: u16, height: u16) -> (r: Result<BorderedArea, std::io::Error>)
        requires
            rectangular_area_fits(start_position, width, height),
        ensures
            width > 2 && height > 2 ==> r == Ok::<BorderedArea, std::io::Error>(bordered_spec(start_position, width, height)),
            !(width > 2 && height > 2) ==> r is Err,
    {
        if width > 2 && height > 2 {
            let outer_area = build_rectangular_area(start_position, width, height);
            let inner_start_position = Position::new(start_position.x + 1, start_position.y + 1);
            let inner_area = build_rectangular_area(inner_start_position, width - 2, height - 2);
            Ok(BorderedArea { outer: outer_area, inner: inner_area })
        } else {
            Err(other_io_error(String::from_str("Cannot build a bordered area for anything less than a 3x3 area")))
        }
    }

    pub fn from_area(area: Area) -> (r: Result<BorderedArea, std::io::Error>)
        requires
            rectangular_area_fits(area.start_position, area.width, area.height),
        ensures
            area.width > 2 && area.height > 2 ==> r == Ok::<BorderedArea, std::io::Error>(bordered_spec(area.start_position, area.width, area.height)),
            !(area.width > 2 && area.height > 2) ==> r is Err,
    {
        BorderedArea::new(area.start_position, area.width, area.height)
    }

    pub fn from_rect(rect: Rect) -> (r: Result<BorderedArea, std::io::Error>)
        requires
            rectangular_area_fits(Position { x: rect.x, y: rect.y }, rect.width, rect.height),
        ensures
            rect.width > 2 && rect.height > 2 ==> r == Ok::<BorderedArea, std::io::Error>(bordered_spec(Position { x: rect.x, y: rect.y }, rect.width, rect.height)),
            !(rect.width > 2 && rect.height > 2) ==> r is Err,
    {
        BorderedArea::new(Position::new(rect.x, rect.y), rect.width, rect.height)
    }
}

/// The inner area of a bordered area lies inside its outer area, one cell in
/// from each edge.
pub proof fn lemma_bordered_inner_inside_outer(start: Position, width: u16, height: u16, p: Position)
    requires
        width > 2,
        height > 2,
        rectangular_area_fits(start, width, height),
        crate::position::contains_spec(bordered_spec(start, width, height).inner, p),
    ensures
        crate::position::contains_spec(bordered_spec(start, width, height).outer, p),
        p.x != start.x && p.y != start.y,
        p.x != bordered_spec(start, width, height).outer.end_position.x,
        p.y != bordered_spec(start, width, height).outer.end_position.y,
{
}

impl UIArea {
    /// This area with a border.
    pub fn get_bordered_area(&self) -> (b: BorderedArea)
        requires
            rectangular_area_fits(self.area.start_position, self.area.width, self.area.height),
            self.area.width > 2,
            self.area.height > 2,
        ensures
            b == bordered_spec(self.area.start_position, self.area.width, self.area.height),
    {
        match BorderedArea::from_area(self.area) {
            Ok(b) => b,
            Err(_) => {
                assert(false);
                BorderedArea { outer: self.area, inner: self.area }
            },
        }
    }
}

/// The part of the main area a container view takes: the main area less its
/// top two rows, which hold the tabs.
pub fn build_container_widget_area(main_area: &UIArea) -> (a: Area)
    requires
        main_area.area.start_position.y + 2 <= u16::MAX,
        main_area.area.height >= 2,
        main_area.area.end_position.y >= 2,
    ensures
        a == (Area {
            start_position: Position { x: main_area.area.start_position.x, y: (main_area.area.start_position.y + 2) as u16 },
            end_position: Position { x: main_area.area.end_position.x, y: (main_area.area.end_position.y - 2) as u16 },
            width: main_area.area.width,
            height: (main_area.area.height - 2) as u16,
        }),
{
    let mut area = main_area.area;
    area.start_position.y = area.start_position.y + 2;
    area.height = area.height - 2;
    area.end_position.y = area.end_position.y - 2;
    area
}

/// The screen areas, found by name.
#[derive(Clone, Debug)]
pub struct UIAreas {
    areas: Vec<UIArea>,
}

/// The first area with the given name.
pub open spec fn area_named(areas: Seq<UIArea>, key: Seq<char>) -> Option<UIArea>
    decreases areas.len(),
{
    if areas.len() == 0 {
        None
    } else if areas[0].name@ == key {
        Some(areas[0])
    } else {
        area_named(areas.drop_first(), key)
    }
}

impl UIAreas {
    pub closed spec fn all(&self) -> Seq<UIArea> {
        self.areas@
    }

    pub fn new(areas: Vec<UIArea>) -> (r: UIAreas)
        ensures
            r.all() == areas@,
    {
        UIAreas { areas }
    }

    /// The area with the given name.
    pub fn get_area(&self, key: &str) -> (r: Option<&UIArea>)
        ensures
            match r {
                Some(a) => area_named(self.all(), key@) == Some(*a),
                None => area_named(self.all(), key@).is_none(),
            },
    {
        let key_string = String::from_str(key);
        let mut i: usize = 0;
        assert(self.areas@.skip(0) =~= self.areas@);
        while i < self.areas.len()
            invariant
                i <= self.areas@.len(),
                key_string@ == key@,
                area_named(self.areas@, key@) == area_named(self.areas@.skip(i as int), key@),
            decreases self.areas@.len() - i,
        {
            assert(self.areas@.skip(i as int)[0] == self.areas@[i as int]);
            assert(self.areas@.skip(i as int).drop_first() =~= self.areas@.skip(i + 1));
            if self.areas[i].name == key_string {
                return Some(&self.areas[i]);
            }
            i += 1;
        }
        None
    }

    /// The area with the given name, with a border.
    pub fn get_bordered_area(&self, key: &str) -> (b: BorderedArea)
        requires
            area_named(self.all(), key@) matches Some(a) && rectangular_area_fits(a.area.start_position, a.area.width, a.area.height)
                && a.area.width > 2 && a.area.height > 2,
        ensures
            area_named(self.all(), key@) matches Some(a) && b == bordered_spec(a.area.start_position, a.area.width, a.area.height),
    {
        let area = self.get_area(key).unwrap();
        area.get_bordered_area()
    }

    /// The number of areas.
    pub fn len(&self) -> (n: usize)
        ensures
            n == self.all().len(),
    {
        self.areas.len()
    }
}

/// Where leftover space goes when it cannot be split evenly.
#[derive(Clone, Copy, Debug, PartialEq, Eq, Structural)]
pub enum Alignment {
    LEFT,
    RIGHT,
}

/// The margin that centres `target` cells in `available` cells; an odd cell
/// left over goes after the target when aligning left, before it when aligning
/// right. A target that fills the space exactly gives the target size itself.
pub open spec fn center_spec(target: u16, available: u16, alignment: Alignment) -> u16 {
    if target == available {
        target
    } else {
        let diff = (available - target) as u16;
        if diff % 2 == 0 {
            (diff / 2) as u16
        } else {
            match alignment {
                Alignment::LEFT => (diff / 2) as u16,
                Alignment::RIGHT => (diff / 2 + diff % 2) as u16,
            }
        }
    }
}

/// The margin that centres `target` cells in `available` cells; fails when the
/// target is larger than the space.
pub fn center(target: u16, available: u16, alignment: Alignment) -> (r: Result<u16, std::io::Error>)
    ensures
        target <= available ==> r == Ok::<u16, std::io::Error>(center_spec(target, available, alignment)),
        target > available ==> r is Err,
{
    if target == available {
        Ok(target)
    } else if target > available {
        let mut message = String::from_str("Target size: ");
        push_decimal(&mut message, target as u64);
        message.append(" is above the available range: ");
        push_decimal(&mut message, available as u64);
        Err(other_io_error(message))
    } else {
        let diff = available - target;
        if diff % 2 == 0 {
            Ok(diff / 2)
        } else {
            let half_diff = diff / 2;
            let remainder = diff % 2;
            match alignment {
                Alignment::LEFT => Ok(half_diff),
                Alignment::RIGHT => Ok(half_diff + remainder),
            }
        }
    }
}

/// A centred margin leaves at least as much space after the target as before it.
pub proof fn lemma_center_fits(target: u16, available: u16, alignment: Alignment)
    requires
        target < available,
    ensures
        center_spec(target, available, alignment) + target <= available,
        alignment == Alignment::LEFT ==> 2 * center_spec(target, available, alignment) + target <= available,
        available <= 2 * center_spec(target, available, alignment) + target + 1,
{
}

/// The start column (or row) `center_area` picks along one axis.
pub open spec fn centred_start(target_start: u16, target_size: u16, frame_start: u16, frame_size: u16) -> int {
    if target_size < frame_size {
        center_spec(target_size, frame_size, Alignment::LEFT) + frame_start
    } else {
        target_start as int
    }
}

/// What `center_area` needs to compute its answer without overflow.
pub open spec fn center_area_computable(target: Rect, frame_size: Rect) -> bool {
    let x = centred_start(target.x, target.width, frame_size.x, frame_size.width);
    let y = centred_start(target.y, target.height, frame_size.y, frame_size.height);
    &&& x <= u16::MAX
    &&& y <= u16::MAX
    &&& rectangular_area_fits(Position { x: x as u16, y: y as u16 }, target.width, target.height)
}

/// Places `target` centred in `frame_size` (aligning left when the spare space
/// is odd). Fails when the target is below the minimum resolution, or larger
/// than the frame both ways. An axis on which the target is not smaller than
/// the frame keeps the target's own start.
pub fn center_area(target: Rect, frame_size: Rect, min_resolution: Resolution) -> (r: Result<Area, std::io::Error>)
    requires
        center_area_computable(target, frame_size),
    ensures
        (target.height < min_resolution.height || target.width < min_resolution.width) ==> r is Err,
        !(target.height < min_resolution.height || target.width < min_resolution.width)
            && target.height > frame_size.height && target.width > frame_size.width ==> r is Err,
        !(target.height < min_resolution.height || target.width < min_resolution.width)
            && !(target.height > frame_size.height && target.width > frame_size.width) ==> r == Ok::<Area, std::io::Error>(rectangular_area(
                Position {
                    x: centred_start(target.x, target.width, frame_size.x, frame_size.width) as u16,
                    y: centred_start(target.y, target.height, frame_size.y, frame_size.height) as u16,
                },
                target.width,
                target.height,
            )),
{
    if target.height < min_resolution.height || target.width < min_resolution.width {
        let mut message = String::from_str("Target size: ");
        push_decimal(&mut message, target.width as u64);
        message.append(", ");
        push_decimal(&mut message, target.height as u64);
        message.append(" is below the minimum supported range: ");
        push_decimal(&mut message, min_resolution.width as u64);
        message.append(", ");
        push_decimal(&mut message, min_resolution.height as u64);
        return Err(other_io_error(message));
    }
    if target.height > frame_size.height && target.width > frame_size.width {
        let mut message = String::from_str("Target size: ");
        push_decimal(&mut message, target.width as u64);
        message.append(", ");
        push_decimal(&mut message, target.height as u64);
        message.append(" is above the available range: ");
        push_decimal(&mut message, min_resolution.width as u64);
        message.append(", ");
        push_decimal(&mut message, min_resolution.height as u64);
        Err(other_io_error(message))
    } else if target.height < frame_size.height || target.width < frame_size.width {
        let target_width = target.width;
        let mut x = target.x;
        if target.width < frame_size.width {
            let frame_width = frame_size.width;
            x = match center(target_width, frame_width, Alignment::LEFT) {
                Ok(v) => v,
                Err(e) => return Err(e),
            };
            x = x + frame_size.x;
        }
        let target_height = target.height;
        let mut y = target.y;
        if target.height < frame_size.height {
            let frame_height = frame_size.height;
            y = match center(target_height, frame_height, Alignment::LEFT) {
                Ok(v) => v,
                Err(e) => return Err(e),
            };
            y = y + frame_size.y;
        }
        let start_position = Position::new(x, y);
        Ok(Area::new(start_position, target_width, target_height))
    } else {
        Ok(Area::from_rect(target))
    }
}

/// Checks that a frame size is known and at least the minimum resolution.
pub fn check_display_size(frame_size_result: Option<Size>) -> (r: Result<(), std::io::Error>)
    ensures
        r is Ok <==> (frame_size_result matches Some(s) && s.height >= 24 && s.width >= 80),
{
    if let Some(frame_size) = frame_size_result {
        let min = min_resolution();
        if frame_size.height < min.height || frame_size.width < min.width {
            let mut message = String::from_str("Sorry, your terminal is below the minimum supported resolution of ");
            push_decimal(&mut message, min.height as u64);
            message.append("x");
            push_decimal(&mut message, min.width as u64);
            message.append(".");
            return Err(other_io_error(message));
        }
        Ok(())
    } else {
        Err(other_io_error(String::from_str("Something went wrong; no frame size has been set!")))
    }
}

} // verus!
