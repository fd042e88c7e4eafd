use terminal_gfx::TerminalGraphics;

#[test]
fn new_buffer_is_blank() {
    let gfx = TerminalGraphics::new(4, 3, f32::NEG_INFINITY);
    assert_eq!(gfx.get_dimensions(), (4, 3));
    for y in 0..3 {
        for x in 0..4 {
            assert_eq!(gfx.pixel_at(x, y), 0);
            assert_eq!(gfx.depth_at(x, y), f32::NEG_INFINITY);
        }
    }
}

#[test]
fn write_pixel_lands_in_flipped_row() {
    let mut gfx = TerminalGraphics::new(3, 3, f32::NEG_INFINITY);
    gfx.write_pixel(1, 0, 200, 0.5);
    assert_eq!(gfx.pixel_at(1, 0), 200);
    assert_eq!(gfx.depth_at(1, 0), 0.5);
    // y counts from the visual bottom: the write went to the last stored row.
    assert_eq!(gfx.draw_buffer[2][1], 200);
    assert_eq!(gfx.depth_buffer[2][1], 0.5);
    for y in 0..3 {
        for x in 0..3 {
            if !(x == 1 && y == 0) {
                assert_eq!(gfx.pixel_at(x, y), 0);
                assert_eq!(gfx.depth_at(x, y), f32::NEG_INFINITY);
            }
        }
    }
}

#[test]
fn resize_preserves_overlap_and_pads_rest() {
    let mut gfx = TerminalGraphics::new(3, 3, f32::NEG_INFINITY);
    gfx.write_pixel(0, 0, 7, 1.0);
    // the written cell sits in stored row 2, column 0
    gfx.resize(5, 4);
    assert_eq!(gfx.get_dimensions(), (5, 4));
    assert_eq!(gfx.draw_buffer[2][0], 7);
    assert_eq!(gfx.depth_buffer[2][0], 1.0);
    // through the flip of the new height, stored row 2 is y == 1
    assert_eq!(gfx.pixel_at(0, 1), 7);
    assert_eq!(gfx.depth_at(0, 1), 1.0);
    for r in 0..4 {
        for c in 0..5 {
            if !(r == 2 && c == 0) {
                assert_eq!(gfx.draw_buffer[r][c], 0);
                assert_eq!(gfx.depth_buffer[r][c], f32::NEG_INFINITY);
            }
        }
    }
}

#[test]
fn resize_truncates_rows_and_columns() {
    let mut gfx = TerminalGraphics::new(4, 4, f32::NEG_INFINITY);
    gfx.write_pixel(3, 0, 9, 2.0);
    gfx.resize(2, 2);
    assert_eq!(gfx.get_dimensions(), (2, 2));
    // the written cell was in stored row 3, column 3: both cut away
    for y in 0..2 {
        for x in 0..2 {
            assert_eq!(gfx.pixel_at(x, y), 0);
            assert_eq!(gfx.depth_at(x, y), f32::NEG_INFINITY);
        }
    }
}

#[test]
fn resize_then_clear_leaves_blank_buffer() {
    let mut gfx = TerminalGraphics::new(4, 3, f32::NEG_INFINITY);
    gfx.write_pixel(2, 1, 123, 0.25);
    gfx.resize(5, 2);
    gfx.clear(false);
    assert_eq!(gfx.get_dimensions(), (5, 2));
    for y in 0..2 {
        for x in 0..5 {
            assert_eq!(gfx.pixel_at(x, y), 0);
            assert_eq!(gfx.depth_at(x, y), f32::NEG_INFINITY);
        }
    }
}

#[test]
fn clear_with_size_takes_one_cell_margin() {
    let mut gfx = TerminalGraphics::new(4, 3, f32::NEG_INFINITY);
    gfx.write_pixel(0, 0, 50, 0.0);
    gfx.clear_with_size(Some((10, 5)));
    assert_eq!(gfx.get_dimensions(), (9, 4));
    for y in 0..4 {
        for x in 0..9 {
            assert_eq!(gfx.pixel_at(x, y), 0);
            assert_eq!(gfx.depth_at(x, y), f32::NEG_INFINITY);
        }
    }
}

#[test]
fn clear_with_no_size_keeps_dimensions() {
    let mut gfx = TerminalGraphics::new(4, 3, f32::NEG_INFINITY);
    gfx.write_pixel(0, 0, 50, 0.0);
    gfx.clear_with_size(None);
    assert_eq!(gfx.get_dimensions(), (4, 3));
    assert_eq!(gfx.pixel_at(0, 0), 0);
}

#[test]
fn clear_with_degenerate_size_keeps_dimensions() {
    let mut gfx = TerminalGraphics::new(4, 3, f32::NEG_INFINITY);
    gfx.clear_with_size(Some((0, 5)));
    assert_eq!(gfx.get_dimensions(), (4, 3));
    gfx.clear_with_size(Some((10, 1)));
    assert_eq!(gfx.get_dimensions(), (4, 3));
}

#[test]
fn clear_resets_every_cell() {
    let mut gfx = TerminalGraphics::new(2, 2, f32::NEG_INFINITY);
    gfx.write_pixel(0, 0, 1, 0.0);
    gfx.write_pixel(1, 1, 2, 0.0);
    gfx.clear(true);
    let (w, h) = gfx.get_dimensions();
    for y in 0..h {
        for x in 0..w {
            assert_eq!(gfx.pixel_at(x, y), 0);
            assert_eq!(gfx.depth_at(x, y), f32::NEG_INFINITY);
        }
    }
}
