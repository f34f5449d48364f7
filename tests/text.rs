use minesweeper_solver::{
    color_background, color_text, color_to_state, decode_pixel, normalized, rgb_to_hex,
    state_to_color, App, Board, BoardState, CellState, CurrentScreen, KeyInput, Rgb,
};

#[test]
fn hex_of_a_pixel() {
    assert_eq!(rgb_to_hex(0x4C, 0x54, 0x5C), "4C545C");
    assert_eq!(rgb_to_hex(0, 10, 255), "000AFF");
}

#[test]
fn palette_decodes_every_color() {
    let table = [
        ("4C545C", CellState::Closed, 0),
        ("D8E0E8", CellState::Flagged, 0),
        ("7B7B7B", CellState::Mine, 0),
        ("384048", CellState::Open, 0),
        ("7CC7FF", CellState::Open, 1),
        ("66C266", CellState::Open, 2),
        ("FF7788", CellState::Open, 3),
        ("EE88FF", CellState::Open, 4),
        ("DDAA22", CellState::Open, 5),
        ("66CCCC", CellState::Open, 6),
        ("888888", CellState::Open, 7),
        ("D0D8E0", CellState::Open, 8),
    ];
    for (hex, state, value) in table {
        assert_eq!(color_to_state(hex), Some((state, value)));
    }
}

#[test]
fn colors_outside_the_palette_decode_to_nothing() {
    assert_eq!(color_to_state("66DD66"), None);
    assert_eq!(color_to_state("4c545c"), None);
    assert_eq!(color_to_state("4C545"), None);
    assert_eq!(color_to_state("4C545C0"), None);
    assert_eq!(color_to_state(""), None);
}

#[test]
fn pixel_and_hex_decoding_agree() {
    let p = Rgb { r: 0x66, g: 0xC2, b: 0x66 };
    assert_eq!(decode_pixel(p), Some((CellState::Open, 2)));
    assert_eq!(color_to_state(&rgb_to_hex(p.r, p.g, p.b)), decode_pixel(p));
    assert_eq!(decode_pixel(Rgb { r: 1, g: 2, b: 3 }), None);
}

#[test]
fn display_colors() {
    assert_eq!(state_to_color(CellState::Closed, None), "DCDCDC");
    assert_eq!(state_to_color(CellState::Flagged, Some(3)), "F75656");
    assert_eq!(state_to_color(CellState::Mine, None), "FF3333");
    assert_eq!(state_to_color(CellState::Open, Some(3)), "FF7788");
    assert_eq!(state_to_color(CellState::Open, Some(9)), "384048");
    assert_eq!(state_to_color(CellState::Open, None), "384048");
}

#[test]
fn file_names_lose_separators() {
    assert_eq!(normalized(String::from("a|b\\c:d/e")), "abcde");
    assert_eq!(normalized(String::from("Monitor 1")), "Monitor 1");
    assert_eq!(normalized(String::new()), "");
}

#[test]
fn colored_text_escapes() {
    assert_eq!(color_text(">_<", "#f3ff82"), "\x1b[38;2;243;255;130m>_<\x1b[0m");
    assert_eq!(color_background("x", "0d0e14"), "\x1b[48;2;13;14;20mx\x1b[0m");
    assert_eq!(color_text("", "##000000"), "\x1b[38;2;0;0;0m\x1b[0m");
}

#[test]
fn viewer_keys_switch_screens() {
    let mut app = App::new();
    assert_eq!(app.current_screen, CurrentScreen::Menu);
    assert!(!app.handle_key(KeyInput::Char('x')));
    assert!(!app.handle_key(KeyInput::Char('e')));
    assert_eq!(app.current_screen, CurrentScreen::Gameplay);
    assert!(!app.handle_key(KeyInput::Char('q')));
    assert_eq!(app.current_screen, CurrentScreen::Menu);
    assert!(!app.handle_key(KeyInput::Char('e')));
    assert!(!app.handle_key(KeyInput::Esc));
    assert_eq!(app.current_screen, CurrentScreen::Menu);
    assert!(app.handle_key(KeyInput::Char('q')));
}

#[test]
fn board_drawing() {
    let mut b = Board::new([0, 0, 200, 40], [0, 0], 40, [5, 1], 3).unwrap();
    b.set_cell(2, 1, CellState::Open, 2);
    b.set_cell_solved(2, 1, true);
    b.flag_cell(3, 1);
    b.set_cell(4, 1, CellState::Open, 0);
    b.set_cell(5, 1, CellState::Mine, 0);
    let closed = "\x1b[48;2;13;14;20m\x1b[38;2;220;220;220m~ \x1b[0m\x1b[0m";
    let two = "\x1b[48;2;30;31;41m\x1b[38;2;102;194;102m2 \x1b[0m\x1b[0m";
    let flag = "\x1b[48;2;30;31;41m\x1b[38;2;247;86;86m! \x1b[0m\x1b[0m";
    let blank = "\x1b[48;2;13;14;20m\x1b[38;2;56;64;72m  \x1b[0m\x1b[0m";
    let mine = "\x1b[48;2;13;14;20m\x1b[38;2;255;51;51mX \x1b[0m\x1b[0m";
    let expected = format!(
        "002\x1b[38;2;243;255;130m>_<\x1b[0m007\n{closed}{two}{flag}{blank}{mine}\n"
    );
    assert_eq!(b.display_board(7), expected);
}

#[test]
fn board_drawing_centers_the_face() {
    let mut b = Board::new([0, 0, 280, 0], [0, 0], 40, [7, 0], 120).unwrap();
    b.state = BoardState::Solved;
    assert_eq!(
        b.display_board(1234),
        "120  \x1b[38;2;125;240;132m>w<\x1b[0m  1234\n"
    );
}
