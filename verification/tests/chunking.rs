use code_rag::extract::{chunk_file, chunk_opaque, chunk_structural, Chunk, Extraction};
use code_rag::language::{Detection, Grammar};

const SOURCE: &str = "int foo(void) {\n    return 1;\n}\n\nstruct Bar {\n    int x;\n};\n";

fn chunks_of(extraction: Extraction) -> Vec<Chunk> {
    match extraction {
        Extraction::Chunks(chunks) => chunks,
        other => panic!("no chunks: {:?}", other),
    }
}

fn line_feeds_before(text: &str, offset: usize) -> u64 {
    text.as_bytes()[..offset].iter().filter(|b| **b == b'\n').count() as u64
}

#[test]
fn c_file_yields_function_and_struct() {
    let extraction = chunk_structural("a.c", Grammar::C, SOURCE.as_bytes());
    let expected = vec![
        Chunk {
            path: "a.c".to_string(),
            line: 1,
            text: "int foo(void) {\n    return 1;\n}".to_string(),
        },
        Chunk {
            path: "a.c".to_string(),
            line: 5,
            text: "struct Bar {\n    int x;\n}".to_string(),
        },
    ];
    assert_eq!(extraction, Extraction::Chunks(expected));
}

#[test]
fn enum_is_a_chunk() {
    let source = "\n\nenum Color { RED, GREEN };\n";
    let chunks = chunks_of(chunk_structural("e.c", Grammar::C, source.as_bytes()));
    assert_eq!(chunks.len(), 1);
    assert_eq!(chunks[0].line, 3);
    assert_eq!(chunks[0].text, "enum Color { RED, GREEN }");
}

#[test]
fn method_inside_class_is_part_of_the_class_chunk() {
    let source = "class Shape {\npublic:\n    int area() { return 0; }\n    enum Kind { A, B };\n};\n\nint main() { return 0; }\n";
    let chunks = chunks_of(chunk_structural("shape.cpp", Grammar::Cpp, source.as_bytes()));
    assert_eq!(chunks.len(), 2);
    assert_eq!(chunks[0].line, 1);
    assert!(chunks[0].text.starts_with("class Shape {"));
    assert!(chunks[0].text.contains("int area() { return 0; }"));
    assert!(chunks[0].text.contains("enum Kind { A, B }"));
    assert_eq!(chunks[1].line, 7);
    assert_eq!(chunks[1].text, "int main() { return 0; }");
}

#[test]
fn function_inside_namespace_is_found() {
    let source = "namespace n {\nint f() { return 1; }\n}\n";
    let chunks = chunks_of(chunk_structural("n.hpp", Grammar::Cpp, source.as_bytes()));
    assert_eq!(chunks.len(), 1);
    assert_eq!(chunks[0].line, 2);
    assert_eq!(chunks[0].text, "int f() { return 1; }");
}

#[test]
fn chunks_do_not_overlap_and_come_in_source_order() {
    let source = "struct A { int a; };\nint f(void) { return 0; }\nenum E { X };\nint g(void) { struct Inner { int i; } v; return v.i; }\n";
    let chunks = chunks_of(chunk_structural("m.c", Grammar::C, source.as_bytes()));
    assert_eq!(chunks.len(), 4);
    let mut cursor = 0;
    for chunk in &chunks {
        let start = cursor + source[cursor..].find(chunk.text.as_str()).unwrap();
        assert!(start >= cursor);
        cursor = start + chunk.text.len();
    }
    assert!(chunks[3].text.contains("struct Inner"));
}

#[test]
fn line_is_one_more_than_the_line_feeds_before_the_chunk() {
    let source = "/* head */\n\n\nint a(void) { return 0; }\n\n  struct S { int s; };\nint b(void)\n{\n  return 1;\n}\n";
    let chunks = chunks_of(chunk_structural("l.c", Grammar::C, source.as_bytes()));
    assert_eq!(chunks.len(), 3);
    for chunk in &chunks {
        let start = source.find(chunk.text.as_str()).unwrap();
        assert_eq!(chunk.line, 1 + line_feeds_before(source, start));
    }
    assert_eq!(chunks[0].line, 4);
    assert_eq!(chunks[1].line, 6);
    assert_eq!(chunks[2].line, 7);
}

#[test]
fn file_without_declarations_has_no_chunks() {
    let extraction = chunk_structural("v.c", Grammar::C, b"int x = 3;\n");
    assert_eq!(extraction, Extraction::Chunks(vec![]));
}

#[test]
fn empty_file_has_no_chunks() {
    let extraction = chunk_structural("empty.c", Grammar::C, b"");
    assert_eq!(extraction, Extraction::Chunks(vec![]));
}

#[test]
fn malformed_source_is_not_fatal() {
    let source = "int broken( { ]]] struct ;;; }\nint fine(void) { return 2; }\n";
    let chunks = chunks_of(chunk_structural("bad.c", Grammar::C, source.as_bytes()));
    let mut cursor = 0;
    for chunk in &chunks {
        assert_eq!(chunk.path, "bad.c");
        assert!(chunk.line >= 1 && chunk.line <= 2);
        let start = cursor + source[cursor..].find(chunk.text.as_str()).unwrap();
        cursor = start + chunk.text.len();
    }
}

#[test]
fn bytes_that_are_not_utf8_are_replaced_in_the_text() {
    let source = b"int f(void) { return '\xff'; }\n";
    let chunks = chunks_of(chunk_structural("x.c", Grammar::C, source));
    assert_eq!(chunks.len(), 1);
    assert_eq!(chunks[0].text, "int f(void) { return '\u{fffd}'; }");
}

#[test]
fn unknown_extension_is_one_chunk_at_line_zero() {
    let chunk = chunk_opaque("b.unknownext", b"any text\nat all\n");
    assert_eq!(chunk.path, "b.unknownext");
    assert_eq!(chunk.line, 0);
    assert_eq!(chunk.text, "any text\nat all\n");
}

#[test]
fn opaque_chunk_of_an_empty_file_is_empty() {
    let chunk = chunk_opaque("empty.txt", b"");
    assert_eq!(chunk, Chunk { path: "empty.txt".to_string(), line: 0, text: String::new() });
}

#[test]
fn opaque_file_is_never_parsed() {
    let extraction = chunk_file("notes.md", Detection::Opaque, SOURCE.as_bytes());
    let expected = Chunk { path: "notes.md".to_string(), line: 0, text: SOURCE.to_string() };
    assert_eq!(extraction, Extraction::Chunks(vec![expected]));
}

#[test]
fn file_without_extension_is_not_chunked() {
    let extraction = chunk_file("Makefile", Detection::NoExtension, SOURCE.as_bytes());
    assert_eq!(extraction, Extraction::NoExtension);
}

#[test]
fn known_grammar_is_parsed() {
    let extraction = chunk_file("a.c", Detection::Known(Grammar::C), SOURCE.as_bytes());
    assert_eq!(chunks_of(extraction).len(), 2);
}
