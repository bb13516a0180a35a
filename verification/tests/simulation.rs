use game_of_life::{Cell, Universe};

fn grid_snapshot(u: &Universe) -> Vec<Cell> {
    let w: u32 = u.width();
    let h: u32 = u.height();
    let mut cells: Vec<Cell> = Vec::new();
    let mut y: u32 = 0;
    while y < h {
        let mut x: u32 = 0;
        while x < w {
            cells.push(u.get_cell_at(x, y));
            x += 1;
        }
        y += 1;
    }
    cells
}

fn cleared(width: u32, height: u32) -> Universe {
    let mut u = Universe::new(width, height);
    u.clear();
    u
}

#[test]
fn seed_pattern_even_or_multiple_of_seven() {
    let u = Universe::new(5, 3);
    let mut i: u32 = 0;
    while i < 15 {
        let expected = if i % 2 == 0 || i % 7 == 0 {
            Cell::Alive
        } else {
            Cell::Dead
        };
        assert_eq!(u.get_cell_at(i % 5, i / 5), expected);
        i += 1;
    }
}

#[test]
fn seed_pattern_one_by_one() {
    let u = Universe::new(1, 1);
    assert_eq!(u.get_cell_at(0, 0), Cell::Alive);
}

#[test]
fn toroidal_read_wraps_both_axes() {
    let u = Universe::new(4, 3);
    let mut y: u32 = 0;
    while y < 3 {
        let mut x: u32 = 0;
        while x < 4 {
            assert_eq!(u.get_cell_at(x + 4, y), u.get_cell_at(x, y));
            assert_eq!(u.get_cell_at(x, y + 3), u.get_cell_at(x, y));
            assert_eq!(u.get_cell_at(x + 400, y + 300), u.get_cell_at(x, y));
            x += 1;
        }
        y += 1;
    }
    assert_eq!(u.get_cell_at(101, 250), u.get_cell_at(101 % 4, 250 % 3));
}

#[test]
fn set_out_of_bounds_is_a_no_op() {
    let mut u = Universe::new(3, 3);
    let before = grid_snapshot(&u);
    u.set_cell_at(3, 0, Cell::Dead);
    u.set_cell_at(0, 3, Cell::Dead);
    u.set_cell_at(7, 9, Cell::Alive);
    assert_eq!(grid_snapshot(&u), before);
}

#[test]
fn set_in_bounds_writes() {
    let mut u = cleared(3, 3);
    u.set_cell_at(2, 1, Cell::Alive);
    assert_eq!(u.get_cell_at(2, 1), Cell::Alive);
    assert_eq!(u.get_cell_at(1, 2), Cell::Dead);
}

#[test]
fn toggle_twice_restores() {
    let mut u = Universe::new(4, 4);
    let before = grid_snapshot(&u);
    u.toggle_cell_at(1, 2);
    assert_ne!(grid_snapshot(&u), before);
    u.toggle_cell_at(1, 2);
    assert_eq!(grid_snapshot(&u), before);
    u.toggle_cell_at(9, 9);
    u.toggle_cell_at(9, 9);
    assert_eq!(grid_snapshot(&u), before);
}

#[test]
fn lone_cell_starves() {
    let mut u = cleared(3, 3);
    u.set_cell_at(1, 1, Cell::Alive);
    u.tick();
    assert_eq!(grid_snapshot(&u), vec![Cell::Dead; 9]);
}

#[test]
fn full_three_by_three_dies_of_overcrowding() {
    let mut u = cleared(3, 3);
    let mut y: u32 = 0;
    while y < 3 {
        let mut x: u32 = 0;
        while x < 3 {
            u.set_cell_at(x, y, Cell::Alive);
            x += 1;
        }
        y += 1;
    }
    u.tick();
    assert_eq!(grid_snapshot(&u), vec![Cell::Dead; 9]);
}

#[test]
fn blinker_oscillates() {
    let mut u = cleared(5, 5);
    u.set_cell_at(1, 2, Cell::Alive);
    u.set_cell_at(2, 2, Cell::Alive);
    u.set_cell_at(3, 2, Cell::Alive);
    let horizontal = grid_snapshot(&u);
    u.tick();
    let mut y: u32 = 0;
    while y < 5 {
        let mut x: u32 = 0;
        while x < 5 {
            let expected = if x == 2 && (y == 1 || y == 2 || y == 3) {
                Cell::Alive
            } else {
                Cell::Dead
            };
            assert_eq!(u.get_cell_at(x, y), expected);
            x += 1;
        }
        y += 1;
    }
    u.tick();
    assert_eq!(grid_snapshot(&u), horizontal);
}

#[test]
fn line_with_identical_endpoints_toggles_nothing() {
    let mut u = Universe::new(4, 4);
    let before = grid_snapshot(&u);
    u.toggle_cells_between(0, 0, 0, 0);
    assert_eq!(grid_snapshot(&u), before);
    u.toggle_cells_between(2, 3, 2, 3);
    assert_eq!(grid_snapshot(&u), before);
}

#[test]
fn horizontal_line_toggles_interior_only() {
    let mut u = cleared(6, 3);
    u.toggle_cells_between(1, 1, 4, 1);
    let mut y: u32 = 0;
    while y < 3 {
        let mut x: u32 = 0;
        while x < 6 {
            let expected = if y == 1 && (x == 2 || x == 3) {
                Cell::Alive
            } else {
                Cell::Dead
            };
            assert_eq!(u.get_cell_at(x, y), expected);
            x += 1;
        }
        y += 1;
    }
}

#[test]
fn diagonal_line_walks_x() {
    let mut u = cleared(5, 5);
    u.toggle_cells_between(0, 0, 3, 3);
    let mut y: u32 = 0;
    while y < 5 {
        let mut x: u32 = 0;
        while x < 5 {
            let expected = if (x == 1 && y == 1) || (x == 2 && y == 2) {
                Cell::Alive
            } else {
                Cell::Dead
            };
            assert_eq!(u.get_cell_at(x, y), expected);
            x += 1;
        }
        y += 1;
    }
}

#[test]
fn anti_diagonal_tie_toggles_interior() {
    let mut u = cleared(5, 5);
    u.toggle_cells_between(3, 0, 0, 3);
    let mut y: u32 = 0;
    while y < 5 {
        let mut x: u32 = 0;
        while x < 5 {
            let expected = if (x == 1 && y == 2) || (x == 2 && y == 1) {
                Cell::Alive
            } else {
                Cell::Dead
            };
            assert_eq!(u.get_cell_at(x, y), expected);
            x += 1;
        }
        y += 1;
    }
}

#[test]
fn interpolation_rounds_halves_up() {
    let mut u = cleared(6, 4);
    // From (0, 0) to (4, 2) the secondary coordinate passes 0.5, 1.0 and
    // 1.5; halves round away from zero, so the walk hits rows 1, 1, 2.
    u.toggle_cells_between(0, 0, 4, 2);
    let mut y: u32 = 0;
    while y < 4 {
        let mut x: u32 = 0;
        while x < 6 {
            let expected = if (x == 1 && y == 1) || (x == 2 && y == 1) || (x == 3 && y == 2) {
                Cell::Alive
            } else {
                Cell::Dead
            };
            assert_eq!(u.get_cell_at(x, y), expected);
            x += 1;
        }
        y += 1;
    }
}

#[test]
fn steep_line_walks_y() {
    let mut u = cleared(5, 6);
    u.toggle_cells_between(1, 1, 2, 4);
    let mut y: u32 = 0;
    while y < 6 {
        let mut x: u32 = 0;
        while x < 5 {
            let expected = if (x == 1 && y == 2) || (x == 2 && y == 3) {
                Cell::Alive
            } else {
                Cell::Dead
            };
            assert_eq!(u.get_cell_at(x, y), expected);
            x += 1;
        }
        y += 1;
    }
}

#[test]
fn reversed_endpoints_toggle_the_same_cells() {
    let mut a = cleared(8, 8);
    let mut b = cleared(8, 8);
    a.toggle_cells_between(1, 1, 6, 3);
    b.toggle_cells_between(6, 3, 1, 1);
    assert_eq!(grid_snapshot(&a), grid_snapshot(&b));
}

#[test]
fn line_steps_outside_bounds_are_ignored() {
    let mut u = cleared(3, 3);
    u.toggle_cells_between(0, 0, 5, 0);
    let mut y: u32 = 0;
    while y < 3 {
        let mut x: u32 = 0;
        while x < 3 {
            let expected = if y == 0 && (x == 1 || x == 2) {
                Cell::Alive
            } else {
                Cell::Dead
            };
            assert_eq!(u.get_cell_at(x, y), expected);
            x += 1;
        }
        y += 1;
    }
}

#[test]
fn clear_kills_everything() {
    let mut u = Universe::new(7, 5);
    u.clear();
    assert_eq!(grid_snapshot(&u), vec![Cell::Dead; 35]);
    assert_eq!(u.width(), 7);
    assert_eq!(u.height(), 5);
}

#[test]
fn resize_samples_old_grid_toroidally() {
    let mut u = Universe::new(2, 2);
    // Seed of 2 by 2: indices 0 and 2 alive, 1 and 3 dead.
    u.resize_to(3, 2);
    assert_eq!(u.width(), 3);
    assert_eq!(u.height(), 2);
    // Sampling (x, y) through the old 2 by 2 wrap tiles the old content.
    assert_eq!(u.get_cell_at(0, 0), Cell::Alive);
    assert_eq!(u.get_cell_at(1, 0), Cell::Dead);
    assert_eq!(u.get_cell_at(2, 0), Cell::Alive);
    assert_eq!(u.get_cell_at(0, 1), Cell::Alive);
    assert_eq!(u.get_cell_at(1, 1), Cell::Dead);
    assert_eq!(u.get_cell_at(2, 1), Cell::Alive);
}

#[test]
fn resize_shrink_keeps_top_left_content() {
    let mut u = Universe::new(4, 4);
    let mut expected: Vec<Cell> = Vec::new();
    let mut y: u32 = 0;
    while y < 2 {
        let mut x: u32 = 0;
        while x < 2 {
            expected.push(u.get_cell_at(x, y));
            x += 1;
        }
        y += 1;
    }
    u.resize_to(2, 2);
    assert_eq!(grid_snapshot(&u), expected);
}

#[test]
fn resize_then_tick_never_panics() {
    let mut u = Universe::new(4, 4);
    u.resize_to(1, 1);
    u.tick();
    assert_eq!(u.get_cell_at(0, 0), Cell::Dead);
    u.resize_to(1, 7);
    u.tick();
    u.resize_to(13, 11);
    u.tick();
    assert_eq!(u.width(), 13);
    assert_eq!(u.height(), 11);
}

#[test]
fn resize_then_tick_helper_runs() {
    let mut u = Universe::new(2, 2);
    game_of_life::universe::resize_then_tick(&mut u, 1, 1);
    assert_eq!(u.width(), 1);
    assert_eq!(u.height(), 1);
}

#[test]
fn display_parameter_accessors() {
    let mut u = Universe::new(2, 2);
    assert_eq!(u.get_square_size(), 8);
    assert_eq!(u.get_square_spacing(), 1);
    u.set_square_size(12);
    assert_eq!(u.get_square_size(), 12);
    assert_eq!(u.get_square_spacing(), 1);
}
