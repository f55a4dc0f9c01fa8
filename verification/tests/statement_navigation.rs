use std::ops::Range;

use avl_basic::debugger::DebugStatementTarget;
use avl_basic::navigation::{same_target, visible_statement_ranges, DebugCodeSelection};

fn target(line: i32, source: &str, statement: &str) -> DebugStatementTarget {
    let start = source.find(statement).unwrap();
    DebugStatementTarget {
        line,
        source_span: start..start + statement.len(),
    }
}

#[test]
fn horizontal_selection_uses_only_supplied_statements_and_never_wraps() {
    let source = "10 A=1:IF A THEN GOSUB 100:PRINT Z ELSE PRINT Y:B=2";
    let first = target(10, source, "A=1");
    let whole_if = target(10, source, "IF A THEN GOSUB 100:PRINT Z ELSE PRINT Y:B=2");
    let mut selection = DebugCodeSelection::new(&[whole_if.clone(), first.clone()]);
    selection.sync_line(Some(10), None);
    assert!(same_target(selection.selected().unwrap(), &first));
    assert_eq!(selection.ordinal(), Some(1));
    assert!(!selection.move_on_line(false));
    assert!(selection.move_on_line(true));
    assert!(same_target(selection.selected().unwrap(), &whole_if));
    assert_eq!(selection.ordinal(), Some(2));
    assert!(!selection.move_on_line(true));
    assert!(selection.move_on_line(false));
    assert!(same_target(selection.selected().unwrap(), &first));
}

#[test]
fn initial_nested_execution_selects_the_enclosing_top_level_if() {
    let source = "10 A=1:IF A THEN GOSUB 100:PRINT Z ELSE PRINT Y";
    let whole_if = target(10, source, "IF A THEN GOSUB 100:PRINT Z ELSE PRINT Y");
    let mut selection = DebugCodeSelection::new(&[target(10, source, "A=1"), whole_if.clone()]);
    for nested in ["GOSUB 100", "PRINT Z", "PRINT Y"] {
        let nested = target(10, source, nested);
        selection.sync_line(Some(10), Some(&nested.source_span));
        assert!(same_target(selection.selected().unwrap(), &whole_if));
    }
}

#[test]
fn vertical_navigation_starts_at_first_statement_and_handles_non_executable_lines() {
    let one = "10 A=1:B=2";
    let two = "20 PRINT A:PRINT B";
    let targets = [
        target(10, one, "A=1"),
        target(10, one, "B=2"),
        target(20, two, "PRINT A"),
        target(20, two, "PRINT B"),
    ];
    let mut selection = DebugCodeSelection::new(&targets);
    selection.sync_line(Some(10), None);
    selection.move_on_line(true);
    selection.sync_line(Some(10), None);
    assert_eq!(selection.ordinal(), Some(2));
    selection.sync_line(Some(20), None);
    assert_eq!(selection.ordinal(), Some(1));
    selection.sync_line(Some(10), None);
    assert_eq!(selection.ordinal(), Some(1));
    for line in [None, Some(15), Some(100)] {
        selection.sync_line(line, None);
        assert!(selection.selected().is_none());
        assert!(selection.ordinal().is_none());
        assert!(!selection.move_on_line(true));
        assert!(!selection.move_on_line(false));
    }
}

#[test]
fn refreshed_targets_preserve_identity_and_reconcile_removed_candidates() {
    let source = "10 A=1:B=2:C=3";
    let first = target(10, source, "A=1");
    let second = target(10, source, "B=2");
    let third = target(10, source, "C=3");
    let mut selection = DebugCodeSelection::new(&[first.clone(), second.clone()]);
    selection.sync_line(Some(10), None);
    selection.move_on_line(true);
    selection.replace_targets(&[third.clone(), first.clone(), second.clone(), first.clone()]);
    assert!(same_target(selection.selected().unwrap(), &second));
    assert_eq!(selection.ordinal(), Some(2));
    selection.replace_targets(&[first.clone(), third]);
    assert!(same_target(selection.selected().unwrap(), &first));
    selection.replace_targets(&[]);
    assert!(selection.selected().is_none());
}

#[test]
fn source_offsets_are_utf8_bytes_but_view_ranges_are_character_columns() {
    let source = "10 PRINT \"á中🙂\":A=2";
    let statement = target(10, source, "A=2");
    let start = source[..statement.source_span.start].chars().count();
    let mut selection = DebugCodeSelection::new(&[statement.clone()]);
    selection.sync_line(Some(10), None);
    assert_eq!(selection.selected_char_span(source), Some(start..start + 3));
    assert_eq!(
        visible_statement_ranges(source, &statement.source_span, start - 1, 10, None),
        [1..4]
    );
    let inside_unicode = source.find('中').unwrap() + 1;
    assert!(
        visible_statement_ranges(source, &(inside_unicode..source.len()), 0, 100, None).is_empty()
    );
    assert!(visible_statement_ranges(source, &(0..source.len() + 1), 0, 100, None).is_empty());
    assert!(visible_statement_ranges(source, &(2..2), 0, 100, None).is_empty());
}

#[test]
fn selection_is_clipped_around_an_inserted_execution_marker() {
    let source = "10 A=1:B=2:C=3";
    let selected = target(10, source, "B=2");
    assert_eq!(
        visible_statement_ranges(source, &selected.source_span, 0, 99, Some((3, 2))),
        [9..12]
    );
    assert_eq!(
        visible_statement_ranges(source, &selected.source_span, 0, 99, Some((7, 2))),
        [9..12]
    );
    assert_eq!(
        visible_statement_ranges(source, &selected.source_span, 0, 99, Some((11, 2))),
        [7..10]
    );
    assert_eq!(
        visible_statement_ranges(source, &selected.source_span, 9, 2, Some((7, 2))),
        [0..2]
    );
    assert_eq!(
        visible_statement_ranges(source, &selected.source_span, 10, 1, Some((7, 2))),
        [0..1]
    );
    assert!(visible_statement_ranges(source, &selected.source_span, 0, 0, Some((7, 2))).is_empty());
    assert!(visible_statement_ranges(
        source,
        &selected.source_span,
        usize::MAX,
        usize::MAX,
        None
    )
    .is_empty());
    let whole_if = "10 IF A THEN PRINT 1:PRINT 2 ELSE PRINT 3";
    let selected = target(10, whole_if, "IF A THEN PRINT 1:PRINT 2 ELSE PRINT 3");
    let inside = whole_if.find("PRINT 2").unwrap();
    assert_eq!(
        visible_statement_ranges(whole_if, &selected.source_span, 0, 100, Some((inside, 2))),
        [3..inside, inside + 2..whole_if.len() + 2]
    );
    assert_eq!(
        visible_statement_ranges(whole_if, &selected.source_span, inside, 2, Some((inside, 2))),
        Vec::<Range<usize>>::new()
    );
}
