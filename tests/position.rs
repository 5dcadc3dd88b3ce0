use offside::position::LineCol;

#[test]
fn add_offset_moves_column() {
    let mut lc = LineCol(3, 4);
    assert_eq!(lc.add_offset(5), LineCol(3, 9));
    assert_eq!(lc, LineCol(3, 9));
}

#[test]
fn surrounding_offset_counts_quotes() {
    let mut lc = LineCol(1, 0);
    assert_eq!(lc.surrounding_offset(5), LineCol(1, 7));
    assert_eq!(lc, LineCol(1, 7));
}

#[test]
fn newline_offset_resets_column() {
    let mut lc = LineCol(1, 12);
    assert_eq!(lc.newline_offset(), LineCol(2, 0));
    assert_eq!(lc, LineCol(2, 0));
}

#[test]
fn multiple_newline_offset_skips_lines() {
    let mut lc = LineCol(2, 7);
    assert_eq!(lc.multiple_newline_offset(3), LineCol(5, 0));
    assert_eq!(lc, LineCol(5, 0));
}
