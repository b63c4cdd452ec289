use raycast::geometry::{Point, Side, Vector};
use raycast::grid::Grid;
use raycast::traversal::{follow_slope, generate_next, get_corresponding_index, Hit};
use raycast::world::World;

fn world_of(rows: Vec<Vec<i32>>, width: i32, height: i32) -> World {
    let grid = Grid::new(rows).expect("a rectangular grid");
    World::new(grid, width, height).expect("a world that fits the grid")
}

fn empty_three_by_three() -> World {
    world_of(vec![vec![0, 0, 0], vec![0, 0, 0], vec![0, 0, 0]], 30, 30)
}

fn single_wall() -> World {
    world_of(vec![vec![0, 0, 0], vec![0, 0, 1], vec![0, 0, 0]], 30, 30)
}

fn pt(x: i32, y: i32) -> Point {
    Point { x, y }
}

fn dir(x: i32, y: i32) -> Vector {
    Vector { x, y }
}

fn crossings_of(world: &World, origin: Point, d: Vector) -> Vec<Point> {
    let mut out = Vec::new();
    let mut current = origin;
    while let Some(p) = world.next_crossing(current, d) {
        out.push(p);
        current = p;
        assert!(out.len() < 10_000);
    }
    assert_eq!(world.trace(origin, d), out);
    out
}

fn along(from: Point, to: Point, d: Vector) -> i64 {
    (to.x as i64 - from.x as i64) * d.x as i64 + (to.y as i64 - from.y as i64) * d.y as i64
}

#[test]
fn next_line_above_and_below() {
    assert_eq!(generate_next(25, 1, 10), 30);
    assert_eq!(generate_next(25, -1, 10), 20);
    assert_eq!(generate_next(25, 0, 10), 20);
}

#[test]
fn next_line_from_a_line_is_never_that_line() {
    assert_eq!(generate_next(20, 1, 10), 30);
    assert_eq!(generate_next(20, -1, 10), 10);
    assert_eq!(generate_next(0, -1, 10), -10);
    assert_eq!(generate_next(0, 1, 10), 10);
}

#[test]
fn next_line_left_of_the_world() {
    assert_eq!(generate_next(-5, 1, 10), 0);
    assert_eq!(generate_next(-5, -1, 10), -10);
    assert_eq!(generate_next(-10, 1, 10), 0);
    assert_eq!(generate_next(-10, -1, 10), -20);
}

#[test]
fn next_line_at_the_ends_of_the_range() {
    assert_eq!(generate_next(i32::MAX, 1, i32::MAX), 2 * (i32::MAX as i64));
    assert_eq!(generate_next(i32::MIN, -1, 7), -2147483653);
    assert_eq!(generate_next(i32::MIN, 1, 7), -2147483646);
}

#[test]
fn slope_is_rounded_towards_zero() {
    assert_eq!(follow_slope(1, 5, 2), 2);
    assert_eq!(follow_slope(-1, 5, 2), -2);
    assert_eq!(follow_slope(1, -5, -2), 2);
    assert_eq!(follow_slope(-1, -5, -2), -2);
    assert_eq!(follow_slope(0, 5, 2), 0);
    assert_eq!(follow_slope(3, 10, 4), 7);
    assert_eq!(follow_slope(-3, 10, 4), -7);
}

#[test]
fn slope_of_the_largest_numbers() {
    assert_eq!(follow_slope(i32::MIN, 2147483648, 1), -4611686018427387904);
    assert_eq!(follow_slope(i32::MAX, -2147483648, i32::MIN), 2147483647);
}

#[test]
fn index_behind_a_line() {
    assert_eq!(get_corresponding_index(1, 20, 10), 2);
    assert_eq!(get_corresponding_index(-1, 20, 10), 1);
    assert_eq!(get_corresponding_index(0, 20, 10), 1);
    assert_eq!(get_corresponding_index(-1, 5, 10), 0);
    assert_eq!(get_corresponding_index(-1, 0, 10), 0);
    assert_eq!(get_corresponding_index(1, 0, 10), 0);
}

#[test]
fn facing_up_crosses_the_horizontal_line_above() {
    let world = world_of(vec![vec![0, 1], vec![0, 0]], 20, 20);
    let up = dir(0, -1);
    let crossing = world.next_crossing(pt(5, 15), up);
    assert_eq!(crossing, Some(pt(5, 10)));
    assert_eq!(world.resolve(pt(5, 10), up), (0, 0, Side::Y));
    assert_eq!(world.grid().get_cell_value(0, 0), 0);
    assert_eq!(world.grid().get_cell_value(1, 0), 1);
    assert_eq!(crossings_of(&world, pt(5, 15), up), vec![pt(5, 10), pt(5, 0)]);
    assert_eq!(world.cast(pt(5, 15), up), None);
}

#[test]
fn facing_up_strikes_the_wall_above() {
    let world = world_of(vec![vec![1, 0], vec![0, 0]], 20, 20);
    let hit = world.cast(pt(5, 15), dir(0, -1));
    assert_eq!(hit, Some(Hit { col: 0, row: 0, side: Side::Y, point: pt(5, 10), value: 1 }));
}

#[test]
fn facing_right_in_an_empty_row_leaves_the_world() {
    let world = world_of(vec![vec![0, 0], vec![1, 1]], 20, 20);
    let right = dir(1, 0);
    assert_eq!(world.next_crossing(pt(5, 5), right), Some(pt(10, 5)));
    assert_eq!(world.next_crossing(pt(10, 5), right), Some(pt(20, 5)));
    assert_eq!(world.next_crossing(pt(20, 5), right), None);
    assert_eq!(world.cast(pt(5, 5), right), None);
}

#[test]
fn horizontal_ray_always_crosses_vertical_lines() {
    let world = empty_three_by_three();
    assert_eq!(crossings_of(&world, pt(5, 5), dir(1, 0)), vec![pt(10, 5), pt(20, 5), pt(30, 5)]);
    assert_eq!(crossings_of(&world, pt(25, 7), dir(-3, 0)), vec![pt(20, 7), pt(10, 7), pt(0, 7)]);
    for p in crossings_of(&world, pt(5, 5), dir(1, 0)) {
        assert_eq!(world.resolve(p, dir(1, 0)).2, Side::X);
    }
}

#[test]
fn vertical_ray_always_crosses_horizontal_lines() {
    let world = empty_three_by_three();
    assert_eq!(crossings_of(&world, pt(5, 5), dir(0, 1)), vec![pt(5, 10), pt(5, 20), pt(5, 30)]);
    assert_eq!(crossings_of(&world, pt(5, 25), dir(0, -2)), vec![pt(5, 20), pt(5, 10), pt(5, 0)]);
    for p in crossings_of(&world, pt(5, 5), dir(0, 1)) {
        assert_eq!(world.resolve(p, dir(0, 1)).2, Side::Y);
    }
}

#[test]
fn direction_of_length_zero_has_no_crossing() {
    let world = empty_three_by_three();
    assert_eq!(world.next_crossing(pt(5, 5), dir(0, 0)), None);
    assert_eq!(world.next_crossing(pt(10, 10), dir(0, 0)), None);
    assert_eq!(world.cast(pt(5, 5), dir(0, 0)), None);
}

#[test]
fn corner_is_left_by_one_unit() {
    let world = empty_three_by_three();
    assert_eq!(world.next_crossing(pt(10, 10), dir(1, 1)), Some(pt(11, 10)));
    assert_eq!(world.next_crossing(pt(10, 10), dir(-1, -1)), Some(pt(9, 10)));
    assert_eq!(world.next_crossing(pt(10, 10), dir(1, 0)), Some(pt(11, 10)));
    assert_eq!(world.next_crossing(pt(10, 10), dir(-1, 0)), Some(pt(9, 10)));
    assert_eq!(world.next_crossing(pt(10, 10), dir(0, 1)), Some(pt(10, 11)));
    assert_eq!(world.next_crossing(pt(10, 10), dir(0, -1)), Some(pt(10, 9)));
}

#[test]
fn ray_to_the_left_along_a_line_ends() {
    let world = empty_three_by_three();
    assert_eq!(crossings_of(&world, pt(10, 10), dir(-1, 0)), vec![pt(9, 10), pt(0, 10)]);
    assert_eq!(
        crossings_of(&world, pt(10, 10), dir(1, 0)),
        vec![pt(11, 10), pt(20, 10), pt(21, 10), pt(30, 10)]
    );
}

#[test]
fn ray_through_a_corner_crosses_the_horizontal_line() {
    let world = empty_three_by_three();
    assert_eq!(world.next_crossing(pt(5, 5), dir(1, 1)), Some(pt(10, 10)));
    assert_eq!(world.next_crossing(pt(15, 15), dir(-1, -1)), Some(pt(10, 10)));
    assert_eq!(
        crossings_of(&world, pt(5, 5), dir(1, 1)),
        vec![pt(10, 10), pt(11, 10), pt(20, 19), pt(21, 20), pt(30, 29)]
    );
    assert_eq!(crossings_of(&world, pt(15, 15), dir(-1, -1)), vec![pt(10, 10), pt(9, 10), pt(0, 1)]);
}

#[test]
fn nearer_line_is_crossed_first() {
    let world = empty_three_by_three();
    assert_eq!(
        crossings_of(&world, pt(5, 5), dir(2, 1)),
        vec![pt(10, 7), pt(16, 10), pt(20, 12), pt(30, 17)]
    );
    assert_eq!(
        crossings_of(&world, pt(5, 28), dir(7, -4)),
        vec![pt(10, 26), pt(20, 21), pt(21, 20), pt(30, 15)]
    );
}

#[test]
fn border_of_the_world_is_inside() {
    let world = empty_three_by_three();
    assert_eq!(world.next_crossing(pt(5, 5), dir(-1, 0)), Some(pt(0, 5)));
    assert_eq!(world.next_crossing(pt(0, 5), dir(-1, 0)), None);
    assert_eq!(world.next_crossing(pt(25, 25), dir(0, 1)), Some(pt(25, 30)));
    assert_eq!(world.next_crossing(pt(25, 30), dir(0, 1)), None);
    assert_eq!(world.next_crossing(pt(30, 30), dir(1, 1)), None);
    assert_eq!(world.next_crossing(pt(0, 0), dir(-1, 0)), None);
}

#[test]
fn ray_from_outside_reaches_the_border() {
    let world = empty_three_by_three();
    assert_eq!(
        crossings_of(&world, pt(-5, 5), dir(1, 0)),
        vec![pt(0, 5), pt(10, 5), pt(20, 5), pt(30, 5)]
    );
    assert_eq!(world.next_crossing(pt(35, 5), dir(1, 0)), None);
    assert_eq!(world.next_crossing(pt(-5, -5), dir(-1, -1)), None);
}

#[test]
fn directions_of_the_largest_numbers() {
    let world = empty_three_by_three();
    assert_eq!(crossings_of(&world, pt(17, 3), dir(i32::MIN, 1)), vec![pt(10, 3), pt(0, 3)]);
    assert_eq!(crossings_of(&world, pt(17, 3), dir(1, i32::MIN)), vec![pt(17, 0)]);
    assert_eq!(
        crossings_of(&world, pt(17, 3), dir(i32::MAX, i32::MAX)),
        vec![pt(20, 6), pt(24, 10), pt(30, 16)]
    );
    assert_eq!(world.next_crossing(pt(i32::MAX, i32::MIN), dir(i32::MAX, i32::MIN)), None);
    assert_eq!(world.next_crossing(pt(i32::MIN, i32::MAX), dir(i32::MIN, i32::MAX)), None);
}

#[test]
fn crossing_never_equals_the_point_before_it() {
    let world = empty_three_by_three();
    for x in 1..30 {
        for y in 1..30 {
            for dx in -3..=3 {
                for dy in -3..=3 {
                    let from = pt(x, y);
                    if let Some(p) = world.next_crossing(from, dir(dx, dy)) {
                        assert_ne!(p, from);
                        assert!(p.x % 10 == 0 || p.y % 10 == 0);
                        assert!(0 <= p.x && p.x <= 30 && 0 <= p.y && p.y <= 30);
                    }
                }
            }
        }
    }
}

#[test]
fn crossings_move_strictly_along_the_ray() {
    let world = empty_three_by_three();
    for x in 0..=30 {
        for y in 0..=30 {
            for dx in -4..=4 {
                for dy in -4..=4 {
                    let origin = pt(x, y);
                    let d = dir(dx, dy);
                    let mut last: i64 = 0;
                    for p in crossings_of(&world, origin, d) {
                        let here = along(origin, p, d);
                        assert!(here > last);
                        last = here;
                    }
                }
            }
        }
    }
}

fn lines_in_front(c: i32, d: i32, w: i32, extent: i32) -> usize {
    if d > 0 {
        (extent / w - c / w) as usize
    } else if d < 0 {
        ((c - 1).div_euclid(w) + 1) as usize
    } else {
        0
    }
}

#[test]
fn crossings_are_at_most_two_for_every_line_ahead() {
    let world = empty_three_by_three();
    assert_eq!(crossings_of(&world, pt(29, 29), dir(1, 1)).len(), 1);
    assert_eq!(crossings_of(&world, pt(5, 0), dir(1, 0)).len(), 5);
    for x in 0..=30 {
        for y in 0..=30 {
            for dx in -2..=2 {
                for dy in -2..=2 {
                    let lines = lines_in_front(x, dx, 10, 30) + lines_in_front(y, dy, 10, 30);
                    let corner = usize::from(x % 10 == 0 && y % 10 == 0);
                    let made = crossings_of(&world, pt(x, y), dir(dx, dy)).len();
                    assert!(made <= 2 * lines + corner);
                }
            }
        }
    }
}

#[test]
fn single_wall_struck_from_the_left() {
    let world = single_wall();
    assert_eq!(
        world.cast(pt(5, 15), dir(1, 0)),
        Some(Hit { col: 2, row: 1, side: Side::X, point: pt(20, 15), value: 1 })
    );
}

#[test]
fn single_wall_struck_from_above_and_below() {
    let world = single_wall();
    assert_eq!(
        world.cast(pt(25, 5), dir(0, 1)),
        Some(Hit { col: 2, row: 1, side: Side::Y, point: pt(25, 10), value: 1 })
    );
    assert_eq!(
        world.cast(pt(25, 25), dir(0, -1)),
        Some(Hit { col: 2, row: 1, side: Side::Y, point: pt(25, 20), value: 1 })
    );
}

#[test]
fn single_wall_struck_at_a_slant() {
    let world = single_wall();
    assert_eq!(
        world.cast(pt(5, 5), dir(2, 1)),
        Some(Hit { col: 2, row: 1, side: Side::X, point: pt(20, 12), value: 1 })
    );
    assert_eq!(
        world.cast(pt(29, 29), dir(-1, -3)),
        Some(Hit { col: 2, row: 1, side: Side::Y, point: pt(26, 20), value: 1 })
    );
    assert_eq!(
        world.cast(pt(5, 28), dir(7, -4)),
        Some(Hit { col: 2, row: 1, side: Side::Y, point: pt(21, 20), value: 1 })
    );
}

#[test]
fn single_wall_missed() {
    let world = single_wall();
    assert_eq!(world.cast(pt(5, 5), dir(1, 0)), None);
    assert_eq!(world.cast(pt(5, 15), dir(-1, 0)), None);
    assert_eq!(world.cast(pt(15, 15), dir(0, 1)), None);
}

#[test]
fn cell_behind_a_vertical_line() {
    let world = empty_three_by_three();
    assert_eq!(world.resolve(pt(20, 15), dir(1, 0)), (2, 1, Side::X));
    assert_eq!(world.resolve(pt(20, 15), dir(-1, 0)), (1, 1, Side::X));
    assert_eq!(world.resolve(pt(20, 15), dir(0, 1)), (1, 1, Side::X));
    assert_eq!(world.resolve(pt(0, 5), dir(-1, 0)), (0, 0, Side::X));
}

#[test]
fn cell_behind_a_horizontal_line() {
    let world = empty_three_by_three();
    assert_eq!(world.resolve(pt(15, 20), dir(0, 1)), (1, 2, Side::Y));
    assert_eq!(world.resolve(pt(15, 20), dir(0, -1)), (1, 1, Side::Y));
    assert_eq!(world.resolve(pt(15, 20), dir(1, 0)), (1, 1, Side::Y));
    assert_eq!(world.resolve(pt(5, 0), dir(0, -1)), (0, 0, Side::Y));
}

#[test]
fn corner_counts_as_a_vertical_line() {
    let world = empty_three_by_three();
    assert_eq!(world.resolve(pt(10, 10), dir(1, 1)), (1, 1, Side::X));
    assert_eq!(world.resolve(pt(10, 10), dir(-1, 1)), (0, 1, Side::X));
    assert_eq!(world.resolve(pt(10, 10), dir(1, -1)), (1, 1, Side::X));
    assert_eq!(world.resolve(pt(10, 10), dir(-1, -1)), (0, 1, Side::X));
    assert_eq!(world.resolve(pt(30, 30), dir(1, 1)), (3, 3, Side::X));
}

#[test]
fn cell_outside_the_grid_is_no_wall() {
    let world = world_of(vec![vec![1, 1], vec![1, 1]], 25, 25);
    assert_eq!(world.cell_width(), 12);
    let right = dir(1, 0);
    assert_eq!(world.next_crossing(pt(20, 5), right), Some(pt(24, 5)));
    assert_eq!(world.resolve(pt(24, 5), right), (2, 0, Side::X));
    assert_eq!(world.grid().get_cell_value(2, 0), 0);
    assert_eq!(world.cast(pt(20, 5), right), None);
}

#[test]
fn first_wall_hides_the_walls_behind_it() {
    let world = world_of(vec![vec![0, 2, 3, 1]], 40, 10);
    assert_eq!(
        world.cast(pt(5, 5), dir(1, 0)),
        Some(Hit { col: 1, row: 0, side: Side::X, point: pt(10, 5), value: 2 })
    );
    assert_eq!(
        world.cast(pt(39, 5), dir(-1, 0)),
        Some(Hit { col: 2, row: 0, side: Side::X, point: pt(30, 5), value: 3 })
    );
}

#[test]
fn rays_in_the_large_grid() {
    let world = world_of(
        vec![
            vec![0, 1, 0, 0, 0, 0],
            vec![0, 0, 2, 0, 0, 0],
            vec![3, 0, 0, 1, 0, 0],
            vec![1, 0, 0, 0, 3, 0],
            vec![2, 0, 0, 0, 0, 2],
            vec![1, 2, 1, 1, 1, 0],
        ],
        800,
        800,
    );
    assert_eq!(world.cell_width(), 133);
    assert_eq!(world.cell_height(), 133);
    assert_eq!(
        crossings_of(&world, pt(172, 611), dir(227, -212)),
        vec![
            pt(256, 532),
            pt(266, 523),
            pt(398, 399),
            pt(399, 399),
            pt(400, 399),
            pt(532, 276),
            pt(542, 266),
            pt(665, 152),
            pt(685, 133),
            pt(798, 28),
        ]
    );
    assert_eq!(
        world.cast(pt(172, 611), dir(227, -212)),
        Some(Hit { col: 3, row: 2, side: Side::Y, point: pt(400, 399), value: 1 })
    );
    assert_eq!(
        world.cast(pt(172, 611), dir(-3, 1)),
        Some(Hit { col: 0, row: 4, side: Side::X, point: pt(133, 624), value: 2 })
    );
    assert_eq!(
        world.cast(pt(400, 400), dir(1, 1)),
        Some(Hit { col: 5, row: 4, side: Side::X, point: pt(665, 664), value: 2 })
    );
    assert_eq!(world.cast(pt(400, 400), dir(-1, -1)), None);
    assert_eq!(
        world.cast(pt(1, 1), dir(5, 3)),
        Some(Hit { col: 1, row: 0, side: Side::X, point: pt(133, 80), value: 1 })
    );
}

#[test]
fn trace_lists_every_crossing_in_order() {
    let world = empty_three_by_three();
    assert_eq!(
        world.trace(pt(5, 5), dir(2, 1)),
        vec![pt(10, 7), pt(16, 10), pt(20, 12), pt(30, 17)]
    );
    assert_eq!(world.trace(pt(0, 0), dir(-1, 0)), Vec::new());
    assert_eq!(world.trace(pt(5, 5), dir(0, 0)), Vec::new());
    assert_eq!(
        world.trace(pt(0, 0), dir(1, 2)),
        vec![pt(1, 0), pt(6, 10), pt(10, 18), pt(11, 20), pt(16, 30)]
    );
}

#[test]
fn trace_goes_on_behind_a_wall() {
    let world = single_wall();
    assert_eq!(world.trace(pt(5, 15), dir(1, 0)), vec![pt(10, 15), pt(20, 15), pt(30, 15)]);
}
