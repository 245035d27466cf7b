use lox::source_location::SourceLocation;

#[test]
fn join_takes_the_smaller_start_and_the_larger_end() {
    let a = SourceLocation::new_multiple_line(2, 3, 4, 9);
    let b = SourceLocation::new_single_line(1, 6, 12);
    let joined = a.join(b);
    assert_eq!(joined, SourceLocation::new_multiple_line(1, 3, 4, 12));
    assert_eq!(b.join(a), joined);
}

#[test]
fn join_does_not_depend_on_grouping() {
    let a = SourceLocation::new_multiple_line(4, 4, 10, 12);
    let b = SourceLocation::new_multiple_line(2, 5, 3, 3);
    let c = SourceLocation::new_multiple_line(3, 9, 0, 11);
    assert_eq!(a.join(b).join(c), a.join(b.join(c)));
    assert_eq!(a.join(b).join(c), SourceLocation::new_multiple_line(2, 9, 0, 12));
}

#[test]
fn the_dummy_span_is_all_zero() {
    assert_eq!(SourceLocation::dummy(), SourceLocation::new_multiple_line(0, 0, 0, 0));
    assert_eq!(SourceLocation::default(), SourceLocation::dummy());
    assert_eq!(
        SourceLocation::new_single_line(3, 1, 2),
        SourceLocation::new_multiple_line(3, 3, 1, 2)
    );
}
