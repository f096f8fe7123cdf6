use sashiki::terminal_state::{ansi_color, color_from_256, CellAttrs, Color, TerminalState};

fn row_text(state: &TerminalState, row: usize) -> String {
    state.grid[row].iter().map(|cell| cell.c).collect::<String>().trim_end().to_string()
}

fn write(state: &mut TerminalState, text: &str) {
    for c in text.chars() {
        state.print(c);
    }
}

#[test]
fn test_terminal_state_creation() {
    let state = TerminalState::new(24, 80);
    assert_eq!(state.rows, 24);
    assert_eq!(state.cols, 80);
    assert_eq!(state.cursor.row, 0);
    assert_eq!(state.cursor.col, 0);
}

#[test]
fn test_put_char() {
    let mut state = TerminalState::new(24, 80);
    state.put_char('A');
    assert_eq!(state.grid[0][0].c, 'A');
    assert_eq!(state.cursor.col, 1);
}

#[test]
fn test_newline() {
    let mut state = TerminalState::new(24, 80);
    state.cursor.col = 5;
    state.newline();
    assert_eq!(state.cursor.row, 1);
}

#[test]
fn test_carriage_return() {
    let mut state = TerminalState::new(24, 80);
    state.cursor.col = 10;
    state.carriage_return();
    assert_eq!(state.cursor.col, 0);
}

#[test]
fn test_clear_screen() {
    let mut state = TerminalState::new(24, 80);
    state.put_char('A');
    state.put_char('B');
    state.clear_screen();
    assert_eq!(state.grid[0][0].c, ' ');
    assert_eq!(state.grid[0][1].c, ' ');
}

#[test]
fn test_resize() {
    let mut state = TerminalState::new(24, 80);
    state.put_char('A');
    state.resize(30, 100);
    assert_eq!(state.rows, 30);
    assert_eq!(state.cols, 100);
    assert_eq!(state.grid[0][0].c, 'A');
}

#[test]
fn test_color_from_256() {
    assert_eq!(color_from_256(0), ansi_color(0));
    assert_eq!(color_from_256(15), ansi_color(15));
    let c = color_from_256(16);
    assert_eq!(c, Color::from_rgb(0, 0, 0));
    let g = color_from_256(232);
    assert_eq!(g, Color::from_rgb(8, 8, 8));
}

#[test]
fn palette_cube_and_grays() {
    assert_eq!(color_from_256(196), Color::from_rgb(255, 0, 0));
    assert_eq!(color_from_256(21), Color::from_rgb(0, 0, 255));
    assert_eq!(color_from_256(59), Color::from_rgb(95, 95, 95));
    assert_eq!(color_from_256(255), Color::from_rgb(238, 238, 238));
    assert_eq!(ansi_color(1), Color::from_rgb(205, 49, 49));
    assert_eq!(ansi_color(15), Color::from_rgb(255, 255, 255));
}

#[test]
fn wrapping_and_scrolling() {
    let mut state = TerminalState::new(2, 3);
    write(&mut state, "abcde");
    assert_eq!(row_text(&state, 0), "abc");
    assert_eq!(row_text(&state, 1), "de");
    state.print('f');
    assert_eq!(row_text(&state, 0), "def");
    assert_eq!(row_text(&state, 1), "");
    assert_eq!((state.cursor.row, state.cursor.col), (1, 0));
    state.print('g');
    assert_eq!(row_text(&state, 0), "def");
    assert_eq!(row_text(&state, 1), "g");
    state.scroll_view(5);
    assert_eq!(state.scroll_offset, 1);
    state.scroll_view(-3);
    assert_eq!(state.scroll_offset, 0);
    state.scroll_view(1);
    state.scroll_to_bottom();
    assert_eq!(state.scroll_offset, 0);
}

#[test]
fn control_characters() {
    let mut state = TerminalState::new(3, 20);
    write(&mut state, "ab");
    state.execute(0x08);
    assert_eq!(state.cursor.col, 1);
    state.execute(0x09);
    assert_eq!(state.cursor.col, 8);
    state.execute(0x09);
    state.execute(0x09);
    assert_eq!(state.cursor.col, 19);
    state.execute(0x0d);
    assert_eq!(state.cursor.col, 0);
    state.execute(0x0a);
    assert_eq!(state.cursor.row, 1);
    state.execute(0x07);
    assert_eq!((state.cursor.row, state.cursor.col), (1, 0));
}

fn p(values: &[u16]) -> Vec<Vec<u16>> {
    values.iter().map(|v| vec![*v]).collect()
}

#[test]
fn cursor_movement_sequences() {
    let mut state = TerminalState::new(10, 20);
    state.csi_dispatch(&p(&[5, 7]), 'H');
    assert_eq!((state.cursor.row, state.cursor.col), (4, 6));
    state.csi_dispatch(&p(&[2]), 'A');
    assert_eq!(state.cursor.row, 2);
    state.csi_dispatch(&p(&[]), 'B');
    assert_eq!(state.cursor.row, 3);
    state.csi_dispatch(&p(&[100]), 'C');
    assert_eq!(state.cursor.col, 19);
    state.csi_dispatch(&p(&[0]), 'D');
    assert_eq!(state.cursor.col, 18);
    state.csi_dispatch(&p(&[3]), 'G');
    assert_eq!(state.cursor.col, 2);
    state.csi_dispatch(&p(&[50]), 'd');
    assert_eq!(state.cursor.row, 9);
    state.csi_dispatch(&p(&[4]), 'F');
    assert_eq!((state.cursor.row, state.cursor.col), (5, 0));
    state.csi_dispatch(&p(&[]), 'z');
    assert_eq!((state.cursor.row, state.cursor.col), (5, 0));
}

#[test]
fn save_and_restore_cursor() {
    let mut state = TerminalState::new(10, 20);
    state.csi_dispatch(&p(&[3, 4]), 'H');
    state.esc_dispatch(b'7');
    state.csi_dispatch(&p(&[9, 9]), 'H');
    state.esc_dispatch(b'8');
    assert_eq!((state.cursor.row, state.cursor.col), (2, 3));
    state.csi_dispatch(&p(&[1, 1]), 'H');
    state.csi_dispatch(&p(&[]), 's');
    state.csi_dispatch(&p(&[5, 5]), 'H');
    state.csi_dispatch(&p(&[]), 'u');
    assert_eq!((state.cursor.row, state.cursor.col), (0, 0));
}

#[test]
fn erasing() {
    let mut state = TerminalState::new(3, 5);
    write(&mut state, "abcdefghijklmn");
    state.csi_dispatch(&p(&[2, 3]), 'H');
    state.csi_dispatch(&p(&[]), 'K');
    assert_eq!(row_text(&state, 1), "fg");
    state.csi_dispatch(&p(&[1]), 'K');
    assert_eq!(row_text(&state, 1), "");
    state.csi_dispatch(&p(&[1, 2]), 'H');
    state.csi_dispatch(&p(&[2]), 'X');
    assert_eq!(row_text(&state, 0), "a  de");
    state.csi_dispatch(&p(&[1]), 'J');
    assert_eq!(row_text(&state, 0), "   de");
    state.csi_dispatch(&p(&[]), 'J');
    assert_eq!(row_text(&state, 0), "");
    assert_eq!(row_text(&state, 2), "");
}

#[test]
fn inserting_and_deleting_characters() {
    let mut state = TerminalState::new(1, 6);
    write(&mut state, "abcde");
    state.csi_dispatch(&p(&[1, 2]), 'H');
    state.csi_dispatch(&p(&[2]), '@');
    assert_eq!(row_text(&state, 0), "a  bcd");
    state.csi_dispatch(&p(&[3]), 'P');
    assert_eq!(row_text(&state, 0), "acd");
}

#[test]
fn inserting_and_deleting_lines() {
    let mut state = TerminalState::new(4, 3);
    write(&mut state, "aaabbbcccdd");
    state.csi_dispatch(&p(&[2, 1]), 'H');
    state.csi_dispatch(&p(&[1]), 'L');
    assert_eq!(row_text(&state, 1), "");
    assert_eq!(row_text(&state, 2), "bbb");
    assert_eq!(row_text(&state, 3), "ccc");
    state.csi_dispatch(&p(&[2]), 'M');
    assert_eq!(row_text(&state, 0), "aaa");
    assert_eq!(row_text(&state, 1), "ccc");
    assert_eq!(row_text(&state, 2), "");
}

#[test]
fn scroll_region_limits_scrolling() {
    let mut state = TerminalState::new(4, 2);
    write(&mut state, "1122334");
    state.csi_dispatch(&p(&[2, 3]), 'r');
    assert_eq!((state.cursor.row, state.cursor.col), (0, 0));
    state.csi_dispatch(&p(&[1]), 'S');
    assert_eq!(row_text(&state, 0), "11");
    assert_eq!(row_text(&state, 1), "33");
    assert_eq!(row_text(&state, 2), "");
    assert_eq!(row_text(&state, 3), "4");
    state.csi_dispatch(&p(&[1]), 'T');
    assert_eq!(row_text(&state, 1), "");
    assert_eq!(row_text(&state, 2), "33");
    state.csi_dispatch(&p(&[3, 2]), 'r');
    assert_eq!(row_text(&state, 2), "33");
}

#[test]
fn graphic_rendition() {
    let mut state = TerminalState::new(1, 10);
    state.csi_dispatch(&p(&[1, 31, 44]), 'm');
    state.print('x');
    let a = state.grid[0][0].attrs;
    assert!(a.bold);
    assert_eq!(a.fg, ansi_color(1));
    assert_eq!(a.bg, ansi_color(4));
    state.csi_dispatch(&p(&[38, 5, 196, 48, 2, 1, 2, 3, 3, 7]), 'm');
    state.print('y');
    let b = state.grid[0][1].attrs;
    assert_eq!(b.fg, Color::from_rgb(255, 0, 0));
    assert_eq!(b.bg, Color::from_rgb(1, 2, 3));
    assert!(b.italic && b.inverse && b.bold);
    state.csi_dispatch(&p(&[22, 39, 49, 97]), 'm');
    state.print('z');
    let c = state.grid[0][2].attrs;
    assert!(!c.bold);
    assert_eq!(c.fg, ansi_color(15));
    assert_eq!(c.bg, CellAttrs::default().bg);
    state.csi_dispatch(&p(&[0]), 'm');
    state.print('w');
    assert_eq!(state.grid[0][3].attrs, CellAttrs::default());
}

#[test]
fn index_and_reset() {
    let mut state = TerminalState::new(3, 2);
    write(&mut state, "aabb");
    state.esc_dispatch(b'M');
    assert_eq!(state.cursor.row, 1);
    state.csi_dispatch(&p(&[1, 1]), 'H');
    state.esc_dispatch(b'M');
    assert_eq!(row_text(&state, 0), "");
    assert_eq!(row_text(&state, 1), "aa");
    state.csi_dispatch(&p(&[3, 2]), 'H');
    state.esc_dispatch(b'E');
    assert_eq!((state.cursor.row, state.cursor.col), (2, 0));
    assert_eq!(row_text(&state, 0), "aa");
    state.esc_dispatch(b'c');
    assert_eq!((state.rows, state.cols), (3, 2));
    assert_eq!(row_text(&state, 0), "");
    assert_eq!(state.visible_rows().len(), 3);
}
