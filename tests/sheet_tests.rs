use treesheets_core::sheet::{default_border_color, default_cell_color, default_text_color};
use treesheets_core::{Cell, CellType, Color, GridLayout, Sheet, StyleBits};

#[test]
fn sheet_cell_construction_and_traversal() {
    let mut cell = Cell::new("root");
    cell.add_child(Cell::new("child-1"));
    let mut second = Cell::new("child-2");
    second.add_child(Cell::new("leaf"));
    cell.add_child(second);

    assert!(!cell.is_leaf());
    assert_eq!(cell.child_count(), 2);

    let mut seen = Vec::new();
    cell.walk(0, &mut |node: &Cell, depth: usize| {
        seen.push((node.text.clone(), depth));
        true
    });

    assert_eq!(
        seen,
        vec![
            ("root".to_string(), 0),
            ("child-1".to_string(), 1),
            ("child-2".to_string(), 1),
            ("leaf".to_string(), 2),
        ]
    );
}

#[test]
fn sheet_sheet_sample_structure() {
    let sheet = Sheet::sample();
    assert_eq!(sheet.title, "Sample Sheet");

    let mut labels: Vec<(String, usize)> = Vec::new();
    sheet.for_each_cell(|cell: &Cell, depth: usize| {
        labels.push((cell.text.clone(), depth));
    });

    assert_eq!(labels[0], ("TreeSheets Rust Prototype".into(), 0));
    assert_eq!(labels.len(), 9);
    assert_eq!(
        labels,
        vec![
            ("TreeSheets Rust Prototype".into(), 0),
            ("Personal".into(), 1),
            ("Tasks".into(), 2),
            ("Notes".into(), 2),
            ("Work".into(), 1),
            ("TreeSheets RS".into(), 2),
            ("Implement sheet data model".into(), 3),
            ("Design CLI workflows".into(), 3),
            ("Retrospective".into(), 2),
        ]
    );
}

#[test]
fn cell_with_styling() {
    let mut style = StyleBits::new();
    style.set_bold(true);
    style.set_italic(true);

    let cell = Cell::with_style("Styled Text", style, Color::rgb(255, 0, 0));

    assert!(cell.style.is_bold());
    assert!(cell.style.is_italic());
    assert!(!cell.style.is_fixed());
    assert_eq!(cell.text_color.r, 255);
    assert_eq!(cell.text_color.g, 0);
    assert_eq!(cell.text_color.b, 0);
    assert!(cell.has_styling());
}

#[test]
fn cell_type_variations() {
    let data_cell = Cell::with_type("Data", CellType::Data);
    let code_cell = Cell::with_type("=SUM(A1:A10)", CellType::Code);
    let var_assign = Cell::with_type("x = 42", CellType::VarAssign);

    assert_eq!(data_cell.cell_type, CellType::Data);
    assert_eq!(code_cell.cell_type, CellType::Code);
    assert_eq!(var_assign.cell_type, CellType::VarAssign);
}

#[test]
fn cell_folding() {
    let mut cell = Cell::new("Parent");
    cell.add_child(Cell::new("Child 1"));
    cell.add_child(Cell::new("Child 2"));

    assert!(!cell.folded);
    cell.toggle_fold();
    assert!(cell.folded);
    cell.toggle_fold();
    assert!(!cell.folded);
}

#[test]
fn cell_layout_orientation() {
    let mut cell = Cell::new("Container");
    assert_eq!(cell.layout, GridLayout::Vertical);

    cell.set_layout(GridLayout::Horizontal);
    assert_eq!(cell.layout, GridLayout::Horizontal);
}

#[test]
fn cell_walk_mut() {
    let mut cell = Cell::new("root");
    cell.add_child(Cell::new("child1"));
    cell.add_child(Cell::new("child2"));

    cell.walk_mut(0, &mut |c: &mut Cell, depth: usize| {
        c.rel_size = depth as i32;
        c.folded = depth > 0;
    });

    assert_eq!(cell.rel_size, 0);
    assert!(!cell.folded);
    assert_eq!(cell.children[0].rel_size, 1);
    assert!(cell.children[0].folded);
    assert_eq!(cell.children[1].rel_size, 1);
    assert!(cell.children[1].folded);
}

#[test]
fn color_constants() {
    assert_eq!(Color::white().r, 255);
    assert_eq!(Color::white().g, 255);
    assert_eq!(Color::white().b, 255);

    assert_eq!(Color::black().r, 0);
    assert_eq!(Color::black().g, 0);
    assert_eq!(Color::black().b, 0);

    assert_eq!(default_cell_color(), Color::white());
    assert_eq!(default_text_color(), Color::black());
}

#[test]
fn style_bits_operations() {
    let mut style = StyleBits::new();
    assert!(!style.is_bold());
    assert!(!style.is_italic());

    style.set_bold(true);
    assert!(style.is_bold());
    assert!(!style.is_italic());

    style.set_italic(true);
    assert!(style.is_bold());
    assert!(style.is_italic());

    style.set_bold(false);
    assert!(!style.is_bold());
    assert!(style.is_italic());
}

#[test]
fn style_bits_pack_into_one_word() {
    let mut style = StyleBits::new();
    style.set_italic(true);
    assert_eq!(style.0, 2);
    style.set_bold(true);
    assert_eq!(style.0, 3);
    assert!(!style.is_underline());
    assert!(!style.is_strikethru());
    let all = StyleBits(31);
    assert!(all.is_fixed() && all.is_underline() && all.is_strikethru());
    style.set_italic(false);
    assert_eq!(style.0, 1);
}

#[test]
fn new_cell_has_defaults() {
    let cell = Cell::new("x");
    assert_eq!(cell.text, "x");
    assert!(cell.is_leaf());
    assert_eq!(cell.cell_type, CellType::Data);
    assert_eq!(cell.style, StyleBits(0));
    assert_eq!(cell.rel_size, 0);
    assert_eq!(cell.cell_color, Color::new(255, 255, 255, 255));
    assert_eq!(cell.text_color, Color::new(0, 0, 0, 255));
    assert_eq!(cell.border_color, default_border_color());
    assert!(!cell.folded);
    assert_eq!(cell.layout, GridLayout::Vertical);
    assert_eq!(cell.image, None);
    assert!(!cell.has_styling());
}

#[test]
fn has_content_and_styling() {
    let empty = Cell::new("");
    assert!(!empty.has_content());
    let mut parent = Cell::new("");
    parent.add_child(Cell::new(""));
    assert!(parent.has_content());
    assert!(Cell::new("t").has_content());

    let mut sized = Cell::new("s");
    sized.rel_size = -2;
    assert!(sized.has_styling());
    let mut colored = Cell::new("c");
    colored.cell_color = Color::rgb(1, 2, 3);
    assert!(colored.has_styling());
    let mut bordered = Cell::new("b");
    bordered.border_color = Color::black();
    assert!(!bordered.has_styling());
}

#[test]
fn walk_stops_after_second_cell() {
    let sheet = Sheet::sample();
    let mut visits: usize = 0;
    let finished = sheet.root.walk(0, &mut |_c: &Cell, _d: usize| {
        visits += 1;
        visits < 2
    });
    assert!(!finished);
    assert_eq!(visits, 2);

    let mut all: usize = 0;
    assert!(sheet.root.walk(0, &mut |_c: &Cell, _d: usize| {
        all += 1;
        true
    }));
    assert_eq!(all, 9);
}

#[test]
fn walk_stop_inside_a_subtree_skips_the_rest() {
    let sheet = Sheet::sample();
    let mut seen: Vec<String> = Vec::new();
    let finished = sheet.root.walk(0, &mut |c: &Cell, _d: usize| {
        seen.push(c.text.clone());
        c.text != "TreeSheets RS"
    });
    assert!(!finished);
    assert_eq!(seen, vec!["TreeSheets Rust Prototype", "Personal", "Tasks", "Notes", "Work", "TreeSheets RS"]);
}

#[test]
fn walk_starts_at_given_depth() {
    let mut cell = Cell::new("a");
    cell.add_child(Cell::new("b"));
    let mut depths: Vec<usize> = Vec::new();
    cell.walk(5, &mut |_c: &Cell, d: usize| {
        depths.push(d);
        true
    });
    assert_eq!(depths, vec![5, 6]);
}

#[test]
fn index_paths_resolve_or_fail() {
    let sheet = Sheet::sample();
    assert_eq!(sheet.root.cell_at(&[]).unwrap().text, "TreeSheets Rust Prototype");
    assert_eq!(sheet.root.cell_at(&[1, 0, 1]).unwrap().text, "Design CLI workflows");
    assert_eq!(sheet.root.cell_at(&[0, 1]).unwrap().text, "Notes");
    assert!(sheet.root.cell_at(&[2]).is_none());
    assert!(sheet.root.cell_at(&[0, 0, 0]).is_none());
}

#[test]
fn set_text_at_path() {
    let mut sheet = Sheet::sample();
    assert!(sheet.root.set_text_at(&[1, 1], 0, "Planning".to_string()));
    assert_eq!(sheet.root.children[1].children[1].text, "Planning");
    assert!(!sheet.root.set_text_at(&[1, 5], 0, "x".to_string()));
    assert_eq!(sheet.root.children[1].child_count(), 2);
}

#[test]
fn sheet_new_keeps_title_and_root() {
    let sheet = Sheet::new("T", Cell::new("r"));
    assert_eq!(sheet.title, "T");
    assert_eq!(sheet.root, Cell::new("r"));
}

#[test]
fn depth_fits_counts_levels() {
    let sheet = Sheet::sample();
    assert!(sheet.root.depth_fits(0));
    assert!(sheet.root.depth_fits(usize::MAX - 3));
    assert!(!sheet.root.depth_fits(usize::MAX - 2));
    assert!(Cell::new("leaf").depth_fits(usize::MAX));
}

#[test]
fn clone_copies_the_whole_tree() {
    let sheet = Sheet::sample();
    let copy = sheet.clone();
    assert_eq!(copy, sheet);
    let mut root = sheet.root.clone();
    root.children[1].children[0].add_child(Cell::new("new"));
    assert_eq!(sheet.root.children[1].children[0].child_count(), 2);
    assert_eq!(root.children[1].children[0].child_count(), 3);
    assert_eq!(root.deep_copy(), root);
}

#[test]
fn walk_mut_reaches_every_depth_in_order() {
    let mut sheet = Sheet::sample();
    let mut order: Vec<String> = Vec::new();
    sheet.root.walk_mut(0, &mut |c: &mut Cell, d: usize| {
        order.push(c.text.clone());
        c.rel_size = d as i32;
    });
    assert_eq!(order.len(), 9);
    assert_eq!(order[5], "TreeSheets RS");
    assert_eq!(sheet.root.children[1].children[0].children[1].rel_size, 3);
    assert_eq!(sheet.root.children[1].children[1].rel_size, 2);
}
