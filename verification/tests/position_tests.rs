use arq::position::{build_rectangular_area, build_square_area, Area, Position, Side};
use arq::resolution::Rect;



#[test]
fn test_get_neighbors_top_left() {
    // GIVEN a position in the top left corner
    let start_pos = Position { x: 0, y: 0 };
    // WHEN we call to get it's neighbors
    let neighbors = start_pos.get_neighbors();
    // THEN we expect 2 positions to return. The right-hand and the below neighbor
    assert_eq!(2, neighbors.len());
    assert_eq!(Position{x: 1, y: 0}, *neighbors.get(0).unwrap());
    assert_eq!(Position{x: 0, y: 1}, *neighbors.get(1).unwrap());
}


#[test]
fn test_get_neighbors_top_right() {
    // GIVEN a position in the top right corner
    let start_pos = Position { x: u16::MAX, y: 0 };
    // WHEN we call to get it's neighbors
    let neighbors = start_pos.get_neighbors();
    // THEN we expect 2 positions to return. The left-hand and the below neighbor
    assert_eq!(2, neighbors.len());
    assert_eq!(Position{x: u16::MAX - 1, y: 0}, *neighbors.get(0).unwrap());
    assert_eq!(Position{x: u16::MAX, y: 1}, *neighbors.get(1).unwrap());
}

#[test]
fn test_get_neighbors_bottom_left() {
    // GIVEN a position in the bottom left corner
    let start_pos = Position { x: 0, y: u16::MAX };
    // WHEN we call to get it's neighbors
    let neighbors = start_pos.get_neighbors();
    // THEN we expect 2 positions to return. The right-hand and the above neighbor
    assert_eq!(2, neighbors.len());
    assert_eq!(Position{x: 1, y: u16::MAX }, *neighbors.get(0).unwrap());
    assert_eq!(Position{x: 0, y: u16::MAX - 1 }, *neighbors.get(1).unwrap());
}

#[test]
fn test_get_neighbors_bottom_right() {
    // GIVEN a position in the bottom right corner
    let start_pos = Position { x: u16::MAX, y: u16::MAX };
    // WHEN we call to get it's neighbors
    let neighbors = start_pos.get_neighbors();
    // THEN we expect 2 positions to return. The left-hand and the above neighbor
    assert_eq!(2, neighbors.len());
    assert_eq!(Position{x: u16::MAX - 1, y: u16::MAX }, *neighbors.get(0).unwrap());
    assert_eq!(Position{x: u16::MAX, y: u16::MAX - 1 }, *neighbors.get(1).unwrap());
}


#[test]
fn test_get_neighbors_mid_point() {
    // GIVEN a position in the center of the possible range
    let start_pos = Position { x: u16::MAX/2, y: u16::MAX/2 };
    // WHEN we call to get it's neighbors
    let neighbors = start_pos.get_neighbors();
    // THEN we expect 4 positions to return. The left-hand, right, above, and below neighbor
    assert_eq!(4, neighbors.len());
    assert_eq!(Position{x: u16::MAX/2 - 1, y: u16::MAX/2 }, *neighbors.get(0).unwrap());
    assert_eq!(Position{x: u16::MAX/2 + 1, y: u16::MAX/2 }, *neighbors.get(1).unwrap());
    assert_eq!(Position{x: u16::MAX/2, y: u16::MAX/2 - 1 }, *neighbors.get(2).unwrap());
    assert_eq!(Position{x: u16::MAX/2, y: u16::MAX/2 + 1  }, *neighbors.get(3).unwrap());
}

#[test]
fn test_build_square_area() {
    let start_pos = Position { x: 1, y: 2 };
    let area = build_square_area(start_pos, 3);
    assert_eq!(3, area.width);
    assert_eq!(3, area.height);
    assert_eq!(1, area.start_position.x);
    assert_eq!(2, area.start_position.y);
    assert_eq!(3, area.end_position.x);
    assert_eq!(4, area.end_position.y);
}

#[test]
fn test_build_rectangular_area() {
    let start_pos = Position { x: 0, y: 0 };
    let area = build_rectangular_area(start_pos, 6, 3);
    assert_eq!(6, area.width);
    assert_eq!(3, area.height);
    assert_eq!(0, area.start_position.x);
    assert_eq!(0, area.start_position.y);
    assert_eq!(5, area.end_position.x);
    assert_eq!(2, area.end_position.y);
}

#[test]
fn test_build_rectangular_area_size_0() {
    // Given a Position starting at 0,0
    let start_pos = Position { x: 0, y: 0 };
    // And it's zero sized
    let area = build_rectangular_area(start_pos, 0,0);
    // THEN we expect everything to be 0
    assert_eq!(0, area.width);
    assert_eq!(0, area.height);
    assert_eq!(0, area.start_position.x);
    assert_eq!(0, area.start_position.y);
    assert_eq!(0, area.end_position.x);
    assert_eq!(0, area.end_position.y);
}

#[test]
fn test_get_total_area() {
    // GIVEN a valid area
    let start_pos = Position { x: 0, y: 0 };
    let area = build_square_area(start_pos, 4);
    assert_eq!(4, area.width);
    assert_eq!(4, area.height);
    assert_eq!(0, area.start_position.x);
    assert_eq!(0, area.start_position.y);
    assert_eq!(3, area.end_position.x);
    assert_eq!(3, area.end_position.y);

    // WHEN we call to get the total area
    let total_area = area.get_total_area();

    // THEN we expect it to equal width (x) * height (y) / 4x4
    assert_eq!(16, total_area);
}

#[test]
fn test_get_get_positions() {
    // GIVEN a valid area
    let start_pos = Position { x: 0, y: 0 };
    let area = build_square_area(start_pos, 4);
    assert_eq!(4, area.width);
    assert_eq!(4, area.height);
    assert_eq!(0, area.start_position.x);
    assert_eq!(0, area.start_position.y);
    assert_eq!(3, area.end_position.x);
    assert_eq!(3, area.end_position.y);

    // WHEN we call to get all possible positions
    let positions = area.get_positions();

    // THEN we expect it to equal width (x) * height (y) / 4x4
    assert_eq!(16, positions.len());
   // First column
    assert_eq!(Position { x: 0, y: 0}, *positions.get(0).unwrap());
    assert_eq!(Position { x: 0, y: 1}, *positions.get(1).unwrap());
    assert_eq!(Position { x: 0, y: 2}, *positions.get(2).unwrap());
    assert_eq!(Position { x: 0, y: 3}, *positions.get(3).unwrap());

    // Second column
    assert_eq!(Position { x: 1, y: 0}, *positions.get(4).unwrap());
    assert_eq!(Position { x: 1, y: 1}, *positions.get(5).unwrap());
    assert_eq!(Position { x: 1, y: 2}, *positions.get(6).unwrap());
    assert_eq!(Position { x: 1, y: 3}, *positions.get(7).unwrap());

    // Third column
    assert_eq!(Position { x: 2, y: 0}, *positions.get(8).unwrap());
    assert_eq!(Position { x: 2, y: 1}, *positions.get(9).unwrap());
    assert_eq!(Position { x: 2, y: 2}, *positions.get(10).unwrap());
    assert_eq!(Position { x: 2, y: 3}, *positions.get(11).unwrap());

    // Fourth column
    assert_eq!(Position { x: 3, y: 0}, *positions.get(12).unwrap());
    assert_eq!(Position { x: 3, y: 1}, *positions.get(13).unwrap());
    assert_eq!(Position { x: 3, y: 2}, *positions.get(14).unwrap());
    assert_eq!(Position { x: 3, y: 3}, *positions.get(15).unwrap());
}

#[test]
fn test_get_get_positions_nonzero_start() {
    // GIVEN a valid area starting at index 4, 4
    let start_pos = Position { x: 4, y: 4 };
    let area = build_square_area(start_pos, 4);
    assert_eq!(4, area.width);
    assert_eq!(4, area.height);
    assert_eq!(4, area.start_position.x);
    assert_eq!(4, area.start_position.y);
    assert_eq!(7, area.end_position.x);
    assert_eq!(7, area.end_position.y);

    // WHEN we call to get all possible positions
    let positions = area.get_positions();

    // THEN we expect it to equal width (x) * height (y) / 4x4
    assert_eq!(16, positions.len());
    // First column
    assert_eq!(Position { x: 4, y: 4}, *positions.get(0).unwrap());
    assert_eq!(Position { x: 4, y: 5}, *positions.get(1).unwrap());
    assert_eq!(Position { x: 4, y: 6}, *positions.get(2).unwrap());
    assert_eq!(Position { x: 4, y: 7}, *positions.get(3).unwrap());

    // Second column
    assert_eq!(Position { x: 5, y: 4}, *positions.get(4).unwrap());
    assert_eq!(Position { x: 5, y: 5}, *positions.get(5).unwrap());
    assert_eq!(Position { x: 5, y: 6}, *positions.get(6).unwrap());
    assert_eq!(Position { x: 5, y: 7}, *positions.get(7).unwrap());

    // Third column
    assert_eq!(Position { x: 6, y: 4}, *positions.get(8).unwrap());
    assert_eq!(Position { x: 6, y: 5}, *positions.get(9).unwrap());
    assert_eq!(Position { x: 6, y: 6}, *positions.get(10).unwrap());
    assert_eq!(Position { x: 6, y: 7}, *positions.get(11).unwrap());

    // Fourth column
    assert_eq!(Position { x: 7, y: 4}, *positions.get(12).unwrap());
    assert_eq!(Position { x: 7, y: 5}, *positions.get(13).unwrap());
    assert_eq!(Position { x: 7, y: 6}, *positions.get(14).unwrap());
    assert_eq!(Position { x: 7, y: 7}, *positions.get(15).unwrap());
}

#[test]
fn test_3x3_valid_top_left_intersects() {
    // GIVEN a 3x3 Area
    let area = build_square_area(Position { x: 1, y: 1 }, 3);
    assert_eq!(3, area.width);
    assert_eq!(3, area.height);
    assert_eq!(1, area.start_position.x);
    assert_eq!(1, area.start_position.y);
    assert_eq!(3, area.end_position.x);
    assert_eq!(3, area.end_position.y);

    // WHEN we call to see if an area overlaping the top-left corner intersects
    let overlap_area = build_square_area(Position { x: 0, y: 0 }, 2);
    // THEN we expect the result to be true
    assert!(area.intersects(overlap_area));
}

#[test]
fn test_3x3_valid_top_right_intersects() {
    // GIVEN a 3x3 Area (x)
    let area = build_square_area(Position { x: 1, y: 1 }, 3);
    assert_eq!(3, area.width);
    assert_eq!(3, area.height);
    assert_eq!(1, area.start_position.x);
    assert_eq!(1, area.start_position.y);
    assert_eq!(3, area.end_position.x);
    assert_eq!(3, area.end_position.y);

    // WHEN we call to see if an area (X) overlaping the top-right corner intersects
    // i.e
    // ---XX
    // -xxXX
    // -xxx-
    // -xxx-
    let overlap_area = build_square_area(Position { x: 3, y: 0 }, 2);
    // THEN we expect the result to be true
    assert!(area.intersects(overlap_area));
}

#[test]
fn test_3x3_valid_bottom_right_intersects() {
    // GIVEN a 3x3 Area (x)
    let area = build_square_area(Position { x: 1, y: 1 }, 3);
    assert_eq!(3, area.width);
    assert_eq!(3, area.height);
    assert_eq!(1, area.start_position.x);
    assert_eq!(1, area.start_position.y);
    assert_eq!(3, area.end_position.x);
    assert_eq!(3, area.end_position.y);

    // WHEN we call to see if an area (X) overlaping the top-right corner intersects
    // i.e
    //  01234
    // 0-----
    // 1-xxx-
    // 2-xxx-
    // 3-xxXX
    // 4---XX
    let overlap_area = build_square_area(Position { x: 3, y: 3 }, 2);
    // THEN we expect the result to be true
    assert!(area.intersects(overlap_area));
}

#[test]
fn test_3x3_valid_bottom_left_intersects() {
    // GIVEN a 3x3 Area (x)
    let area = build_square_area(Position { x: 1, y: 1 }, 3);
    assert_eq!(3, area.width);
    assert_eq!(3, area.height);
    assert_eq!(1, area.start_position.x);
    assert_eq!(1, area.start_position.y);
    assert_eq!(3, area.end_position.x);
    assert_eq!(3, area.end_position.y);

    // WHEN we call to see if an area (X) overlaping the top-right corner intersects
    // i.e
    //  01234
    // 0-----
    // 1-xxx-
    // 2-xxx-
    // 3XXxx-
    // 4XX---
    let overlap_area = build_square_area(Position { x: 0, y: 3 }, 2);
    // THEN we expect the result to be true
    assert!(area.intersects(overlap_area));
}

#[test]
fn test_3x3_invalid_ends_before_intersects() {
    // GIVEN a 3x3 Area
    let area = build_square_area(Position { x: 1, y: 1 }, 3);
    assert_eq!(3, area.width);
    assert_eq!(3, area.height);
    assert_eq!(1, area.start_position.x);
    assert_eq!(1, area.start_position.y);
    assert_eq!(3, area.end_position.x);
    assert_eq!(3, area.end_position.y);

    // WHEN we call to see if an area that ends touching the top-left corner intersects
    let overlap_area = build_square_area(Position { x: 0, y: 0 }, 1);
    // THEN we expect the result to be false
    assert!(!area.intersects(overlap_area));
}

#[test]
fn test_3x3_invalid_starts_after_intersects() {
    // GIVEN a 3x3 Area
    let area = build_square_area(Position { x: 1, y: 1 }, 3);
    assert_eq!(3, area.width);
    assert_eq!(3, area.height);
    assert_eq!(1, area.start_position.x);
    assert_eq!(1, area.start_position.y);
    assert_eq!(3, area.end_position.x);
    assert_eq!(3, area.end_position.y);

    // WHEN we call to see if an area that starts after the bottom-right corner intersects
    let overlap_area = build_square_area(Position { x: 4, y: 4 }, 3);
    // THEN we expect the result to be false
    assert!(!area.intersects(overlap_area));
}

#[test]
fn test_3x3_valid_contains() {
    // GIVEN a 3x3 Area
    let area = build_square_area(Position { x: 0, y: 0 }, 3);
    assert_eq!(3, area.width);
    assert_eq!(3, area.height);
    assert_eq!(0, area.start_position.x);
    assert_eq!(0, area.start_position.y);
    assert_eq!(2, area.end_position.x);
    assert_eq!(2, area.end_position.y);

    // WHEN we call to see if points 0,0 - 2,2 are contained
    // THEN we expect the results to be true
    assert!(area.contains_position(Position { x: 0, y: 0 }));
    assert!(area.contains_position(Position { x: 0, y: 1 }));
    assert!(area.contains_position(Position { x: 0, y: 2 }));
    assert!(area.contains_position(Position { x: 1, y: 0 }));
    assert!(area.contains_position(Position { x: 1, y: 1 }));
    assert!(area.contains_position(Position { x: 1, y: 2 }));
    assert!(area.contains_position(Position { x: 2, y: 0 }));
    assert!(area.contains_position(Position { x: 2, y: 1 }));
    assert!(area.contains_position(Position { x: 2, y: 2 }));
}

#[test]
fn test_3x3_invalid_contains() {
    // GIVEN a 3x3 Area
    let area = build_square_area(Position { x: 0, y: 0 }, 3);
    assert_eq!(3, area.width);
    assert_eq!(3, area.height);
    assert_eq!(0, area.start_position.x);
    assert_eq!(0, area.start_position.y);
    assert_eq!(2, area.end_position.x);
    assert_eq!(2, area.end_position.y);

    // WHEN we call to see if points above it's range are contained
    // THEN we expect the results to be false
    assert!(!area.contains_position(Position { x: 3, y: 0 }));
    assert!(!area.contains_position(Position { x: 0, y: 3 }));
    assert!(!area.contains_position(Position { x: 3, y: 3 }));
}

#[test]
fn test_3x3_offset_invalid_contains() {
    // GIVEN a 3x3 Area
    let area = build_square_area(Position { x: 1, y: 1 }, 3);
    assert_eq!(3, area.width);
    assert_eq!(3, area.height);
    // That starts at position 1,1
    assert_eq!(1, area.start_position.x);
    assert_eq!(1, area.start_position.y);
    // And ends at 3,3
    assert_eq!(3, area.end_position.x);
    assert_eq!(3, area.end_position.y);

    // WHEN we call to see if points above it's range are contained
    // THEN we expect the results to be false
    assert!(!area.contains_position(Position { x: 4, y: 0 }));
    assert!(!area.contains_position(Position { x: 0, y: 4 }));
    assert!(!area.contains_position(Position { x: 4, y: 4 }));
}

#[test]
fn test_3x3_can_fit_2x2_at_1_1() {
    // GIVEN a 3x3 Area
    let area = build_square_area(Position { x: 0, y: 0 }, 3);

    // WHEN we call to see if the central point can fit a 2x2 area
    let can_fit = area.can_fit(Position { x: 1, y: 1 }, 2);

    // THEN we expect the result to be true
    assert_eq!(true, can_fit);
}

#[test]
fn test_3x3_can_fit_2x2_at_start() {
    // GIVEN a 3x3 Area
    let area = build_square_area(Position { x: 0, y: 0 }, 3);

    // WHEN we call to see if the start point can fit a 2x2 area
    let can_fit = area.can_fit(Position { x: 0, y: 0 }, 2);

    // THEN we expect the result to be true
    assert_eq!(true, can_fit);
}

#[test]
fn test_3x3_cannot_fit_2x2_at_end() {
    // GIVEN a 3x3 Area
    let area = build_square_area(Position { x: 0, y: 0 }, 3);

    // WHEN we call to see if the end point can fit a 2x2 area
    let can_fit = area.can_fit(Position { x: 2, y: 2 }, 4);

    // THEN we expect the result to be false
    assert_ne!(true, can_fit);
}

#[test]
fn test_3x3_cannot_fit_4x4_at_start() {
    // GIVEN a 3x3 Area
    let area = build_square_area(Position { x: 0, y: 0 }, 3);

    // WHEN we call to see if the start point can fit a 4x4 area
    let can_fit = area.can_fit(Position { x: 0, y: 0 }, 4);

    // THEN we expect the result to be false
    assert_ne!(true, can_fit);
}

#[test]
fn test_3x3_cannot_fit_zero() {
    // GIVEN a 3x3 Area
    let area = build_square_area(Position { x: 0, y: 0 }, 3);

    // WHEN we call to see if the start point can fit a zero sized area
    let can_fit = area.can_fit(Position { x: 0, y: 0 }, 0);

    // THEN we expect the result to be false
    assert_ne!(true, can_fit);
}

#[test]
fn test_get_sides() {
    let start_position = Position { x: 0, y: 0};
    let area = build_square_area(start_position, 3);
    let sides = area.get_sides();

    assert_eq!(4, sides.len());

    let left = sides[0];
    assert_eq!(Side::LEFT, left.side);
    assert_eq!(0, left.area.start_position.x);
    assert_eq!(0, left.area.start_position.y);
    assert_eq!(0, left.area.end_position.x);
    assert_eq!(2, left.area.end_position.y);

    let right = sides[1];
    assert_eq!(Side::RIGHT, right.side);
    assert_eq!(2, right.area.start_position.x);
    assert_eq!(0, right.area.start_position.y);
    assert_eq!(2, right.area.end_position.x);
    assert_eq!(2, right.area.end_position.y);

    let top = sides[2];
    assert_eq!(Side::TOP, top.side);
    assert_eq!(0, top.area.start_position.x);
    assert_eq!(0, top.area.start_position.y);
    assert_eq!(2, top.area.end_position.x);
    assert_eq!(0, top.area.end_position.y);

    let bottom = sides[3];
    assert_eq!(Side::BOTTOM, bottom.side);
    assert_eq!(0, bottom.area.start_position.x);
    assert_eq!(2, bottom.area.start_position.y);
    assert_eq!(2, bottom.area.end_position.x);
    assert_eq!(2, bottom.area.end_position.y);
}

#[test]
fn test_offset_positive() {
    // GIVEN an initial position
    let mut position = Position { x: 3, y: 3};

    // WHEN we try to offset by +1
    position = position.offset(1, 1);
    // THEN we should see x: 4, y: 4
    assert_eq!(4, position.x);
    assert_eq!(4, position.y);
}

#[test]
fn test_offset_negative() {
    // GIVEN an initial position
    let mut position = Position { x: 3, y: 3};

    // WHEN we try to offset by -1
    position = position.offset(-1, -1);
    // THEN we should see x: 2, y: 2
    assert_eq!(2, position.x);
    assert_eq!(2, position.y);
}

#[test]
fn test_offset_negative_lower_bound() {
    // GIVEN an initial position
    let mut position = Position { x: 3, y: 3};

    // WHEN we try to offset by -4 (taking us below 0)
    position = position.offset(-4, -4);
    // THEN we should see x: 0, y: 0 (the lowest possible positive values w/ offset)
    assert_eq!(0, position.x);
    assert_eq!(0, position.y);
}

#[test]
fn test_area_new() {
    let start_position = Position::new(0,0);
    const SIZE: u16 = 3;
    let area = Area::new(start_position, SIZE, SIZE);
    assert_eq!(0, area.start_position.x);
    assert_eq!(0, area.start_position.y);
    assert_eq!(3, area.width);
    assert_eq!(3, area.height);
    assert_eq!(2, area.end_position.x);
    assert_eq!(2, area.end_position.y);
}

#[test]
fn from_rect() {
    // GIVEN a Rectangle starting at Pos x:1, y:1 and of size 3x3
    let rect = Rect::new(1,1,3,3);

    // WHEN we call to build an area from this
    let area = Area::from_rect(rect);

    // THEN we expect an exact match to the Rect provided
    assert_eq!(rect.x, area.start_position.x);
    assert_eq!(rect.y, area.start_position.y);
    assert_eq!(rect.x + rect.width - 1, area.end_position.x);
    assert_eq!(rect.y + rect.height - 1, area.end_position.y);
    assert_eq!(rect.width, area.width);
    assert_eq!(rect.height, area.height);
}
