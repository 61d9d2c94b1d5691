use chip8::emulator::display::{Display, Point};

// ****
// *  *
// *  *
// *  *
// ****
fn zero_glyph() -> [u8; 5] {
    [0xF0, 0x90, 0x90, 0x90, 0xF0]
}

#[test]
fn display_new_is_empty() {
    let display = Display::new();

    for index in 0..display.screen.len() {
        for block in &display.screen[index] {
            assert!(!block);
        }
    }
}

#[test]
fn drew_sprite() {
    let mut display = Display::new();

    display.draw(Point { x: 0, y: 0 }, &zero_glyph());

    assert_eq!(display.screen[0][..4], [true, true, true, true]);
    assert_eq!(display.screen[1][..4], [true, false, false, true]);
    assert_eq!(display.screen[2][..4], [true, false, false, true]);
    assert_eq!(display.screen[3][..4], [true, false, false, true]);
    assert_eq!(display.screen[4][..4], [true, true, true, true]);
}

#[test]
fn clears_screen() {
    let mut display = Display::new();

    display.draw(Point { x: 0, y: 0 }, &zero_glyph());

    display.clear();

    for index in 0..display.screen.len() {
        for block in &display.screen[index] {
            assert!(!block);
        }
    }
}

#[test]
fn clear_unsets_all_2048_cells() {
    let mut display = Display::new();
    display.draw(Point { x: 7, y: 3 }, &[0xFF, 0xFF, 0xFF]);
    display.clear();

    let mut count: usize = 0;
    for row in 0..32 {
        for col in 0..64 {
            assert!(!display.screen[row][col]);
            count += 1;
        }
    }
    assert_eq!(count, 2048);
}

#[test]
fn draw_twice_restores_grid_and_collides() {
    let mut display = Display::new();

    let first = display.draw(Point { x: 5, y: 9 }, &zero_glyph());
    assert!(!first);

    let second = display.draw(Point { x: 5, y: 9 }, &zero_glyph());
    assert!(second);

    for row in 0..32 {
        for col in 0..64 {
            assert!(!display.screen[row][col]);
        }
    }
}

#[test]
fn draw_wraps_toroidally_at_60_30() {
    let mut display = Display::new();

    let solid: [u8; 5] = [0xFF, 0xFF, 0xFF, 0xFF, 0xFF];
    let collision = display.draw(Point { x: 60, y: 30 }, &solid);
    assert!(!collision);

    let mut set_count: usize = 0;
    for row in 0..32 {
        for col in 0..64 {
            let row_hit = row >= 30 || row < 3;
            let col_hit = col >= 60 || col < 4;
            assert_eq!(display.screen[row][col], row_hit && col_hit);
            if display.screen[row][col] {
                set_count += 1;
            }
        }
    }
    assert_eq!(set_count, 40);
    assert!(display.screen[0][0]);
    assert!(display.screen[31][63]);
    assert!(display.screen[30][60]);
    assert!(display.screen[2][3]);
    assert!(!display.screen[3][0]);
    assert!(!display.screen[0][4]);
}

#[test]
fn collision_only_on_erased_pixel() {
    let mut display = Display::new();

    // A draw that only sets pixels reports no collision; a draw that turns
    // a set pixel off does.
    assert!(!display.draw(Point { x: 0, y: 0 }, &[0x80]));
    assert!(!display.draw(Point { x: 1, y: 0 }, &[0x80]));
    assert!(display.draw(Point { x: 0, y: 0 }, &[0xC0]));
}

#[test]
fn empty_sprite_draws_nothing() {
    let mut display = Display::new();
    let collision = display.draw(Point { x: 10, y: 10 }, &[]);
    assert!(!collision);
    for row in 0..32 {
        for col in 0..64 {
            assert!(!display.screen[row][col]);
        }
    }
}
