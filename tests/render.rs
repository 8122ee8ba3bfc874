use battleship::board::{Board, Placement};

const HEADER: &str = "    0  1  2  3  4  5  6  7  8  9 \n";

#[test]
fn empty_board_shows_water() {
    let b = Board::new();
    let text = b.display(false);
    let lines: Vec<&str> = text.split('\n').collect();
    assert_eq!(lines.len(), 12);
    assert_eq!(format!("{}\n", lines[0]), HEADER);
    assert_eq!(lines[1], format!(" 0 {}", " \u{25A1} ".repeat(10)));
    assert_eq!(lines[10], format!(" 9 {}", " \u{25A1} ".repeat(10)));
    assert_eq!(lines[11], "");
}

#[test]
fn hidden_ships_look_like_water() {
    let mut b = Board::new();
    b.place_ship_at(Placement { row: 1, col: 0, horizontal: true }, 2);
    let shown = b.display(false);
    let hidden = b.display(true);
    let shown_lines: Vec<&str> = shown.split('\n').collect();
    let hidden_lines: Vec<&str> = hidden.split('\n').collect();
    assert_eq!(
        shown_lines[2],
        format!(" 1 {}{}", " \u{25A0} ".repeat(2), " \u{25A1} ".repeat(8))
    );
    assert_eq!(hidden_lines[2], format!(" 1 {}", "   ".repeat(10)));
    assert_eq!(hidden_lines[1], hidden_lines[2].replace(" 1 ", " 0 "));
}

#[test]
fn hits_and_misses_are_marked() {
    let mut b = Board::new();
    b.place_ship_at(Placement { row: 0, col: 0, horizontal: false }, 2);
    b.fire(0, 0);
    b.fire(0, 1);
    let hit = "\x1b[31m \u{25CF} \x1b[0m";
    let miss = "\x1b[36m \u{00B7} \x1b[0m";
    for hide in [false, true] {
        let text = b.display(hide);
        let line = text.split('\n').nth(1).unwrap().to_string();
        let rest = if hide { "   ".repeat(8) } else { " \u{25A1} ".repeat(8) };
        assert_eq!(line, format!(" 0 {}{}{}", hit, miss, rest));
    }
}

#[test]
fn same_board_renders_the_same() {
    let mut a = Board::new();
    let mut b = Board::new();
    for board in [&mut a, &mut b] {
        board.place_ship_at(Placement { row: 3, col: 3, horizontal: true }, 4);
        board.fire(3, 4);
        board.fire(9, 9);
    }
    assert_eq!(a.display(true), b.display(true));
    assert_eq!(a.display(false), b.display(false));
    assert_eq!(a.display(false), a.display(false));
    assert_ne!(a.display(false), a.display(true));
}
