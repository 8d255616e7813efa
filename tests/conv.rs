use rust_pack::conv::{Conv, LineCol, Position};

#[test]
fn position_to_zero_based() {
    let p = Position { line_number: 3, column: 7 };
    assert_eq!(p.to_line_col(), Some(LineCol { line: 2, col: 6 }));
    assert_eq!(p.conv(), Some(LineCol { line: 2, col: 6 }));
}

#[test]
fn position_with_zero_coordinate() {
    assert_eq!(Position { line_number: 0, column: 1 }.to_line_col(), None);
    assert_eq!(Position { line_number: 1, column: 0 }.conv(), None);
}

#[test]
fn line_col_to_position() {
    let lc = LineCol { line: 0, col: 0 };
    assert_eq!(lc.conv(), Some(Position { line_number: 1, column: 1 }));
    assert_eq!(LineCol { line: u32::MAX, col: 0 }.to_position(), None);
}
