use code_rag::extract::{
    check_tree_fits, chunks_from_outcome, declaration_kind, declaration_spans, extract_chunks,
    Chunk, Extraction, Span,
};
use code_rag::parse::ParseOutcome;
use code_rag::syntax::SyntaxNode;

fn node(kind: &str, start: usize, end: usize, row: usize, children: Vec<SyntaxNode>) -> SyntaxNode {
    SyntaxNode { kind: kind.to_string(), start_byte: start, end_byte: end, start_row: row, children }
}

fn leaf(kind: &str, start: usize, end: usize, row: usize) -> SyntaxNode {
    node(kind, start, end, row, vec![])
}

#[test]
fn declaration_kinds_are_the_four() {
    assert!(declaration_kind("function_definition"));
    assert!(declaration_kind("struct_specifier"));
    assert!(declaration_kind("class_specifier"));
    assert!(declaration_kind("enum_specifier"));
    assert!(!declaration_kind("declaration"));
    assert!(!declaration_kind("translation_unit"));
    assert!(!declaration_kind("Function_Definition"));
    assert!(!declaration_kind(""));
}

#[test]
fn walk_stops_at_a_declaration() {
    let inner = leaf("struct_specifier", 4, 8, 1);
    let outer = node("function_definition", 2, 10, 0, vec![inner]);
    let root = node("translation_unit", 0, 12, 0, vec![outer]);
    assert_eq!(declaration_spans(&root), vec![Span { start: 2, end: 10, row: 0 }]);
}

#[test]
fn walk_goes_below_other_nodes_in_source_order() {
    let a = leaf("function_definition", 1, 3, 0);
    let b = leaf("enum_specifier", 3, 5, 1);
    let wrap = node("declaration_list", 0, 6, 0, vec![a, leaf("comment", 3, 3, 1), b]);
    let c = leaf("class_specifier", 7, 9, 2);
    let root = node("translation_unit", 0, 10, 0, vec![wrap, c]);
    assert_eq!(
        declaration_spans(&root),
        vec![
            Span { start: 1, end: 3, row: 0 },
            Span { start: 3, end: 5, row: 1 },
            Span { start: 7, end: 9, row: 2 },
        ]
    );
}

#[test]
fn root_is_never_a_span_itself() {
    let child = leaf("struct_specifier", 1, 2, 0);
    let root = node("function_definition", 0, 3, 0, vec![child]);
    assert_eq!(declaration_spans(&root), vec![Span { start: 1, end: 2, row: 0 }]);
    assert_eq!(declaration_spans(&leaf("function_definition", 0, 3, 0)), vec![]);
}

#[test]
fn well_formed_trees_are_accepted() {
    let root = node(
        "translation_unit",
        0,
        10,
        0,
        vec![leaf("a", 0, 4, 0), leaf("b", 4, 4, 0), leaf("c", 5, 10, 1)],
    );
    assert!(root.check_well_formed());
    assert!(check_tree_fits(&root, 10));
    assert!(check_tree_fits(&root, 11));
    assert!(!check_tree_fits(&root, 9));
    assert!(leaf("x", 0, 0, 0).check_well_formed());
}

#[test]
fn reversed_range_is_not_well_formed() {
    assert!(!leaf("x", 3, 2, 0).check_well_formed());
    let root = node("r", 0, 9, 0, vec![leaf("x", 5, 4, 0)]);
    assert!(!root.check_well_formed());
}

#[test]
fn overlapping_siblings_are_not_well_formed() {
    let root = node("r", 0, 9, 0, vec![leaf("a", 0, 5, 0), leaf("b", 4, 9, 0)]);
    assert!(!root.check_well_formed());
    let swapped = node("r", 0, 9, 0, vec![leaf("b", 5, 9, 0), leaf("a", 0, 5, 0)]);
    assert!(!swapped.check_well_formed());
}

#[test]
fn child_outside_its_parent_is_not_well_formed() {
    assert!(!node("r", 2, 9, 0, vec![leaf("a", 1, 5, 0)]).check_well_formed());
    assert!(!node("r", 0, 9, 0, vec![leaf("a", 5, 10, 0)]).check_well_formed());
    let deep = node("r", 0, 9, 0, vec![node("m", 0, 4, 0, vec![leaf("a", 3, 5, 0)])]);
    assert!(!deep.check_well_formed());
}

#[test]
fn row_without_a_line_is_not_well_formed() {
    assert!(!leaf("x", 0, 1, usize::MAX).check_well_formed());
    assert!(leaf("x", 0, 1, usize::MAX - 1).check_well_formed());
}

#[test]
fn chunks_are_cut_from_the_text() {
    let text = b"ab\ncdef\ngh";
    let root = node(
        "translation_unit",
        0,
        10,
        0,
        vec![leaf("function_definition", 3, 7, 1), leaf("enum_specifier", 8, 10, 2)],
    );
    let chunks = extract_chunks("t.c", &root, text);
    assert_eq!(
        chunks,
        vec![
            Chunk { path: "t.c".to_string(), line: 2, text: "cdef".to_string() },
            Chunk { path: "t.c".to_string(), line: 3, text: "gh".to_string() },
        ]
    );
}

#[test]
fn outcome_with_a_fitting_tree_gives_chunks() {
    let root = node("translation_unit", 0, 4, 0, vec![leaf("struct_specifier", 0, 4, 0)]);
    let extraction = chunks_from_outcome("s.h", &ParseOutcome::Parsed(root), b"abcd");
    let expected = Chunk { path: "s.h".to_string(), line: 1, text: "abcd".to_string() };
    assert_eq!(extraction, Extraction::Chunks(vec![expected]));
}

#[test]
fn outcome_with_a_tree_longer_than_the_text_is_malformed() {
    let root = node("translation_unit", 0, 5, 0, vec![leaf("struct_specifier", 0, 5, 0)]);
    let extraction = chunks_from_outcome("s.h", &ParseOutcome::Parsed(root), b"abcd");
    assert_eq!(extraction, Extraction::Malformed);
}

#[test]
fn outcome_with_overlapping_nodes_is_malformed() {
    let root = node(
        "translation_unit",
        0,
        4,
        0,
        vec![leaf("struct_specifier", 0, 3, 0), leaf("enum_specifier", 2, 4, 0)],
    );
    let extraction = chunks_from_outcome("s.h", &ParseOutcome::Parsed(root), b"abcd");
    assert_eq!(extraction, Extraction::Malformed);
}

#[test]
fn outcome_without_a_tree_is_unparsed() {
    assert_eq!(chunks_from_outcome("s.h", &ParseOutcome::NoTree, b"abcd"), Extraction::Unparsed);
}

#[test]
fn outcome_without_a_grammar_is_rejected() {
    assert_eq!(
        chunks_from_outcome("s.h", &ParseOutcome::GrammarRejected, b"abcd"),
        Extraction::GrammarRejected
    );
}
