use treesheets_core::{format_sheet, Cell, Sheet};

#[test]
fn display_formatting_produces_expected_structure() {
    let formatted = format_sheet(&Sheet::sample());
    let expected = r#"# Sample Sheet
- TreeSheets Rust Prototype
  - Personal
    - Tasks
    - Notes
  - Work
    - TreeSheets RS
      - Implement sheet data model
      - Design CLI workflows
    - Retrospective
"#;
    assert_eq!(formatted, expected);
    assert!(formatted.contains("# Sample Sheet"));
    assert!(formatted.contains("- TreeSheets Rust Prototype"));
    assert!(formatted.contains("  - Personal"));
    assert!(formatted.contains("    - Notes"));
}

#[test]
fn formatting_a_single_cell() {
    let sheet = Sheet::new("", Cell::new(""));
    assert_eq!(format_sheet(&sheet), "# \n- \n");
}

#[test]
fn formatting_shows_folded_children_too() {
    let mut root = Cell::new("r");
    root.add_child(Cell::new("c"));
    root.toggle_fold();
    assert_eq!(format_sheet(&Sheet::new("T", root)), "# T\n- r\n  - c\n");
}
