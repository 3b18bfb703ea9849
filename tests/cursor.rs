use dungeon_mark::cursor::{position, Position};

#[test]
fn cursor_position_counts_lines_and_characters() {
    let source = "ab\ncdé\nf";
    assert_eq!(position(source, 0), Position { line: 1, column: 0 });
    assert_eq!(position(source, 2), Position { line: 1, column: 2 });
    assert_eq!(position(source, 3), Position { line: 2, column: 0 });
    assert_eq!(position(source, 7), Position { line: 2, column: 3 });
    assert_eq!(position(source, 9), Position { line: 3, column: 1 });
    assert_eq!(position(source, 100), Position { line: 3, column: 1 });
}
