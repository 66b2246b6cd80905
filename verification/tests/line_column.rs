use star_battle::LineColumn;

#[test]
fn test_from() {
    let lc = LineColumn::from((1, 2));
    assert_eq!(lc.line(), 1);
    assert_eq!(lc.column(), 2);
}

#[test]
fn test_new() {
    let lc = LineColumn::new(2, 1);
    assert_eq!(lc.line(), 2);
    assert_eq!(lc.column(), 1);
}

#[test]
fn test_eq() {
    assert_eq!(LineColumn::new(1, 2), LineColumn::from((1, 2)));
}
