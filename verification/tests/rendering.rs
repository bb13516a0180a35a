use game_of_life::{Cell, Rect, Rgba, Universe};

#[test]
fn canvas_size_counts_spacing_borders() {
    let u = Universe::new(2, 3);
    // Default squares of 8 with spacing 1: pitch 9, plus one leading border.
    let (cw, ch): (u64, u64) = u.canvas_size_px();
    assert_eq!(cw, 19);
    assert_eq!(ch, 28);
}

#[test]
fn fill_cells_reports_matching_squares_only() {
    let u = Universe::new(2, 1);
    // Seed: cell (0, 0) alive, cell (1, 0) dead.
    let alive: Vec<Rect> = u.fill_cells(Cell::Alive);
    assert_eq!(alive.len(), 1);
    assert_eq!(alive[0], Rect { x: 1, y: 1, side: 8 });
    let dead: Vec<Rect> = u.fill_cells(Cell::Dead);
    assert_eq!(dead.len(), 1);
    assert_eq!(dead[0], Rect { x: 10, y: 1, side: 8 });
}

#[test]
fn fill_cells_visits_columns_outermost() {
    let mut u = Universe::new(2, 2);
    u.clear();
    let mut y: u32 = 0;
    while y < 2 {
        let mut x: u32 = 0;
        while x < 2 {
            u.set_cell_at(x, y, Cell::Alive);
            x += 1;
        }
        y += 1;
    }
    let rects: Vec<Rect> = u.fill_cells(Cell::Alive);
    assert_eq!(
        rects,
        vec![
            Rect { x: 1, y: 1, side: 8 },
            Rect { x: 1, y: 10, side: 8 },
            Rect { x: 10, y: 1, side: 8 },
            Rect { x: 10, y: 10, side: 8 },
        ]
    );
}

#[test]
fn fill_cells_respects_display_parameters() {
    let mut u = Universe::new(1, 1);
    u.set_square_size(4);
    let rects: Vec<Rect> = u.fill_cells(Cell::Alive);
    assert_eq!(rects, vec![Rect { x: 1, y: 1, side: 4 }]);
}

#[test]
fn fill_cells_with_no_match_is_empty() {
    let mut u = Universe::new(2, 2);
    u.clear();
    let rects: Vec<Rect> = u.fill_cells(Cell::Alive);
    assert_eq!(rects.len(), 0);
}

#[test]
fn image_data_stamps_matching_block() {
    let mut u = Universe::new(1, 1);
    // One alive cell, square size 1, spacing 1: a 3 by 3 canvas whose only
    // covered pixel is the center.
    u.set_square_size(1);
    let color = Rgba { r: 200, g: 150, b: 100, a: 255 };
    let buf: Vec<u8> = u.render_image_data(Cell::Alive, color);
    assert_eq!(buf.len(), 36);
    let mut p: usize = 0;
    while p < 9 {
        let expected: [u8; 4] = if p == 4 {
            [200, 150, 100, 255]
        } else {
            [0, 0, 0, 0]
        };
        assert_eq!(buf[4 * p], expected[0]);
        assert_eq!(buf[4 * p + 1], expected[1]);
        assert_eq!(buf[4 * p + 2], expected[2]);
        assert_eq!(buf[4 * p + 3], expected[3]);
        p += 1;
    }
}

#[test]
fn image_data_for_unmatched_target_is_blank() {
    let mut u = Universe::new(1, 1);
    u.set_square_size(1);
    let color = Rgba { r: 9, g: 9, b: 9, a: 9 };
    let buf: Vec<u8> = u.render_image_data(Cell::Dead, color);
    assert_eq!(buf, vec![0u8; 36]);
}

#[test]
fn image_data_block_spans_square_size() {
    let mut u = Universe::new(2, 1);
    // Cells: (0, 0) alive, (1, 0) dead; size 2, spacing 0 gives a 4 by 2
    // canvas whose left 2 by 2 block is colored.
    u.set_square_size(2);
    // Spacing stays at the default of 1; shrink the canvas instead by
    // checking coverage coordinates: pitch 3, canvas 7 by 4.
    let color = Rgba { r: 1, g: 2, b: 3, a: 4 };
    let buf: Vec<u8> = u.render_image_data(Cell::Alive, color);
    assert_eq!(buf.len(), 4 * 7 * 4);
    let mut py: usize = 0;
    while py < 4 {
        let mut px: usize = 0;
        while px < 7 {
            let covered = (1..=2).contains(&px) && (1..=2).contains(&py);
            let p: usize = py * 7 + px;
            let expected: [u8; 4] = if covered { [1, 2, 3, 4] } else { [0, 0, 0, 0] };
            assert_eq!(buf[4 * p], expected[0]);
            assert_eq!(buf[4 * p + 1], expected[1]);
            assert_eq!(buf[4 * p + 2], expected[2]);
            assert_eq!(buf[4 * p + 3], expected[3]);
            px += 1;
        }
        py += 1;
    }
}
