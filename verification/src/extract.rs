//! Chunk extraction: which parts of a file are indexed on their own.
//!
//! A parsed file is walked from its root in source order. A node whose kind
//! is a declaration kind becomes one chunk, and the walk does not go below
//! it: a declaration nested in another is part of the outer chunk and is
//! never a chunk of its own. A file without a grammar is one chunk.

use vstd::prelude::*;
use vstd::slice::slice_subrange;
use crate::language::{detection_of, grammar_of_extension, Detection, Grammar};
use crate::parse::{parse_outcome, parse_tree, ParseOutcome};
use crate::syntax::{forest_well_formed, SyntaxNode};
use crate::text::{lemma_valid_text_is_kept, lossy_string, str_equals, text_of_bytes};
use vstd::utf8::{encode_utf8, valid_utf8};

verus! {

/// The line value of a chunk that is a whole file.
pub const OPAQUE_LINE: u64 = 0;

/// The byte range and the zero-based row of one declaration.
#[derive(Clone, Copy, Debug, PartialEq, Eq, Structural)]
pub struct Span {
    pub start: usize,
    pub end: usize,
    pub row: usize,
}

impl Span {
    /// Whether the byte at offset `b` belongs to the span.
    pub open spec fn covers(self, b: int) -> bool {
        self.start <= b < self.end
    }
}

/// A fragment of a file that is indexed on its own.
#[derive(Clone, Debug, PartialEq, Eq)]
pub struct Chunk {
    pub path: String,
    pub line: u64,
    pub text: String,
}

/// A chunk as a mathematical value.
pub ghost struct ChunkView {
    pub path: Seq<char>,
    pub line: nat,
    pub text: Seq<char>,
}

impl View for Chunk {
    type V = ChunkView;

    open spec fn view(&self) -> ChunkView {
        ChunkView { path: self.path@, line: self.line as nat, text: self.text@ }
    }
}

/// The views of a sequence of chunks.
pub open spec fn chunk_views(chunks: Seq<Chunk>) -> Seq<ChunkView> {
    Seq::new(chunks.len(), |i: int| chunks[i]@)
}

/// The kinds of node that become chunks: function definitions and struct,
/// class and enum specifiers.
pub open spec fn is_declaration_kind(kind: Seq<char>) -> bool {
    kind == "function_definition"@ || kind == "struct_specifier"@ || kind == "class_specifier"@
        || kind == "enum_specifier"@
}

/// Decides `is_declaration_kind`.
pub fn declaration_kind(kind: &str) -> (found: bool)
    ensures
        found == is_declaration_kind(kind@),
{
    str_equals(kind, "function_definition") || str_equals(kind, "struct_specifier") || str_equals(
        kind,
        "class_specifier",
    ) || str_equals(kind, "enum_specifier")
}

/// The span that a node covers.
pub open spec fn span_of(node: SyntaxNode) -> Span {
    Span { start: node.start_byte, end: node.end_byte, row: node.start_row }
}

/// The spans found at and below `node`: the node itself if it is a
/// declaration, otherwise what its children hold.
pub open spec fn node_spans(node: SyntaxNode) -> Seq<Span>
    decreases node, 1nat,
{
    if is_declaration_kind(node.kind@) {
        seq![span_of(node)]
    } else {
        forest_spans(node.children@)
    }
}

/// The spans found in `nodes`, from the first node to the last.
pub open spec fn forest_spans(nodes: Seq<SyntaxNode>) -> Seq<Span>
    decreases nodes, 0nat,
{
    if nodes.len() == 0 {
        Seq::empty()
    } else {
        forest_spans(nodes.drop_last()) + node_spans(nodes.last())
    }
}

/// The spans of a file whose tree has the root `root`. The root stands for
/// the file and is never a span itself.
pub open spec fn root_spans(root: SyntaxNode) -> Seq<Span> {
    forest_spans(root.children@)
}

/// Spans that lie inside `lo..hi`, each one ending before the next begins,
/// with rows that can be turned into lines.
pub open spec fn spans_in_order(spans: Seq<Span>, lo: int, hi: int) -> bool {
    &&& lo <= hi
    &&& forall|i: int|
        0 <= i < spans.len() ==> lo <= (#[trigger] spans[i]).start <= spans[i].end <= hi
            && spans[i].row < usize::MAX
    &&& forall|i: int, j: int|
        0 <= i < j < spans.len() ==> (#[trigger] spans[i]).end <= (#[trigger] spans[j]).start
}

proof fn lemma_node_spans_in_order(node: SyntaxNode)
    requires
        node.well_formed(),
    ensures
        spans_in_order(node_spans(node), node.start_byte as int, node.end_byte as int),
    decreases node, 1nat,
{
    if !is_declaration_kind(node.kind@) {
        lemma_forest_spans_in_order(node.children@, node.start_byte, node.end_byte);
    }
}

proof fn lemma_forest_spans_in_order(nodes: Seq<SyntaxNode>, lo: usize, hi: usize)
    requires
        forest_well_formed(nodes, lo, hi),
    ensures
        spans_in_order(forest_spans(nodes), lo as int, hi as int),
    decreases nodes, 0nat,
{
    if nodes.len() > 0 {
        let last = nodes.last();
        lemma_forest_spans_in_order(nodes.drop_last(), lo, last.start_byte);
        lemma_node_spans_in_order(last);
        let front = forest_spans(nodes.drop_last());
        let back = node_spans(last);
        let all = forest_spans(nodes);
        assert(all == front + back);
        assert forall|i: int| 0 <= i < all.len() implies lo <= (#[trigger] all[i]).start
            <= all[i].end <= hi && all[i].row < usize::MAX by {
            if i >= front.len() {
                assert(all[i] == back[i - front.len()]);
            } else {
                assert(all[i] == front[i]);
            }
        }
        assert forall|i: int, j: int| 0 <= i < j < all.len() implies (#[trigger] all[i]).end <= (
        #[trigger] all[j]).start by {
            if i >= front.len() {
                assert(all[i] == back[i - front.len()]);
                assert(all[j] == back[j - front.len()]);
            } else if j >= front.len() {
                assert(all[i] == front[i]);
                assert(all[j] == back[j - front.len()]);
            } else {
                assert(all[i] == front[i]);
                assert(all[j] == front[j]);
            }
        }
    }
}

/// Spans of which no two share a byte.
pub open spec fn spans_disjoint(spans: Seq<Span>) -> bool {
    forall|i: int, j: int, b: int|
        0 <= i < spans.len() && 0 <= j < spans.len() && i != j && #[trigger] spans[i].covers(b)
            ==> !#[trigger] spans[j].covers(b)
}

/// Spans of which none that holds a byte lies inside another.
pub open spec fn spans_not_nested(spans: Seq<Span>) -> bool {
    forall|i: int, j: int|
        0 <= i < spans.len() && 0 <= j < spans.len() && i != j && (#[trigger] spans[i]).start
            < spans[i].end ==> !((#[trigger] spans[j]).start <= spans[i].start && spans[i].end
            <= spans[j].end)
}

/// In a well-formed tree the declarations lie inside the root's range and
/// in source order, each ending before the next begins. So no two of them
/// share a byte, and none that holds a byte lies inside another.
pub proof fn lemma_spans_do_not_overlap(root: SyntaxNode)
    requires
        root.well_formed(),
    ensures
        spans_in_order(root_spans(root), root.start_byte as int, root.end_byte as int),
        spans_disjoint(root_spans(root)),
        spans_not_nested(root_spans(root)),
{
    lemma_forest_spans_in_order(root.children@, root.start_byte, root.end_byte);
    let spans = root_spans(root);
    assert forall|i: int, j: int|
        0 <= i < spans.len() && 0 <= j < spans.len() && i != j && (#[trigger] spans[i]).start
            < spans[i].end implies !((#[trigger] spans[j]).start <= spans[i].start
        && spans[i].end <= spans[j].end) by {
        if i < j {
            assert(spans[i].end <= spans[j].start);
        } else {
            assert(spans[j].end <= spans[i].start);
        }
    }
    assert forall|i: int, j: int, b: int|
        0 <= i < spans.len() && 0 <= j < spans.len() && i != j && #[trigger] spans[i].covers(
            b,
        ) implies !#[trigger] spans[j].covers(b) by {
        if i < j {
            assert(spans[i].end <= spans[j].start);
        } else {
            assert(spans[j].end <= spans[i].start);
        }
    }
}

fn collect_node(node: &SyntaxNode, out: &mut Vec<Span>)
    ensures
        final(out)@ == old(out)@ + node_spans(*node),
    decreases node, 1nat,
{
    if declaration_kind(node.kind.as_str()) {
        out.push(Span { start: node.start_byte, end: node.end_byte, row: node.start_row });
        assert(out@ =~= old(out)@ + node_spans(*node));
    } else {
        collect_forest(&node.children, out);
    }
}

fn collect_forest(nodes: &Vec<SyntaxNode>, out: &mut Vec<Span>)
    ensures
        final(out)@ == old(out)@ + forest_spans(nodes@),
    decreases nodes, 0nat,
{
    let mut i: usize = 0;
    assert(out@ =~= old(out)@ + forest_spans(nodes@.take(0)));
    while i < nodes.len()
        invariant
            i <= nodes.len(),
            out@ == old(out)@ + forest_spans(nodes@.take(i as int)),
        decreases nodes.len() - i,
    {
        proof {
            let next = nodes@.take(i + 1);
            assert(next.last() == nodes@[i as int]);
            assert(next.drop_last() =~= nodes@.take(i as int));
        }
        collect_node(&nodes[i], out);
        assert(out@ =~= old(out)@ + forest_spans(nodes@.take(i + 1)));
        i += 1;
    }
    assert(nodes@.take(i as int) =~= nodes@);
}

/// Finds the declarations of a parsed file, in source order.
pub fn declaration_spans(root: &SyntaxNode) -> (spans: Vec<Span>)
    ensures
        spans@ == root_spans(*root),
{
    let mut spans: Vec<Span> = Vec::new();
    collect_forest(&root.children, &mut spans);
    assert(spans@ =~= root_spans(*root));
    spans
}

/// The chunk that the span `span` of the file `text` at `path` becomes: the
/// text of its bytes, and the one-based line of its first byte.
pub open spec fn chunk_of_span(path: Seq<char>, span: Span, text: Seq<u8>) -> ChunkView {
    ChunkView {
        path,
        line: (span.row + 1) as nat,
        text: text_of_bytes(text.subrange(span.start as int, span.end as int)),
    }
}

/// The chunks of the spans `spans`, one for one and in the same order.
pub open spec fn chunks_of_spans(path: Seq<char>, spans: Seq<Span>, text: Seq<u8>) -> Seq<
    ChunkView,
> {
    Seq::new(spans.len(), |i: int| chunk_of_span(path, spans[i], text))
}

/// The chunk that a file without a grammar becomes: all of it, at line 0.
pub open spec fn opaque_chunk(path: Seq<char>, text: Seq<u8>) -> ChunkView {
    ChunkView { path, line: OPAQUE_LINE as nat, text: text_of_bytes(text) }
}

/// The number of line-feed bytes among the first `offset` bytes of `text`.
pub open spec fn newlines_before(text: Seq<u8>, offset: int) -> nat
    decreases offset,
{
    if offset <= 0 || offset > text.len() {
        0
    } else if text[offset - 1] == 10u8 {
        newlines_before(text, offset - 1) + 1
    } else {
        newlines_before(text, offset - 1)
    }
}

/// Whether every node of `nodes`, and every node below them, has as its
/// row the number of line feeds before its first byte.
pub open spec fn forest_rows_follow(nodes: Seq<SyntaxNode>, text: Seq<u8>) -> bool
    decreases nodes, 0nat,
{
    if nodes.len() == 0 {
        true
    } else {
        forest_rows_follow(nodes.drop_last(), text) && node_rows_follow(nodes.last(), text)
    }
}

/// Whether `node`, and every node below it, has as its row the number of
/// line feeds before its first byte.
pub open spec fn node_rows_follow(node: SyntaxNode, text: Seq<u8>) -> bool
    decreases node, 1nat,
{
    node.start_row == newlines_before(text, node.start_byte as int) && forest_rows_follow(
        node.children@,
        text,
    )
}

proof fn lemma_node_span_rows(node: SyntaxNode, text: Seq<u8>)
    requires
        node_rows_follow(node, text),
    ensures
        forall|i: int|
            0 <= i < node_spans(node).len() ==> (#[trigger] node_spans(node)[i]).row
                == newlines_before(text, node_spans(node)[i].start as int),
    decreases node, 1nat,
{
    if is_declaration_kind(node.kind@) {
        assert(node_spans(node)[0] == span_of(node));
    } else {
        lemma_forest_span_rows(node.children@, text);
        assert(node_spans(node) == forest_spans(node.children@));
    }
}

proof fn lemma_forest_span_rows(nodes: Seq<SyntaxNode>, text: Seq<u8>)
    requires
        forest_rows_follow(nodes, text),
    ensures
        forall|i: int|
            0 <= i < forest_spans(nodes).len() ==> (#[trigger] forest_spans(nodes)[i]).row
                == newlines_before(text, forest_spans(nodes)[i].start as int),
    decreases nodes, 0nat,
{
    if nodes.len() > 0 {
        lemma_forest_span_rows(nodes.drop_last(), text);
        lemma_node_span_rows(nodes.last(), text);
        let front = forest_spans(nodes.drop_last());
        let back = node_spans(nodes.last());
        let all = forest_spans(nodes);
        assert forall|i: int| 0 <= i < all.len() implies (#[trigger] all[i]).row
            == newlines_before(text, all[i].start as int) by {
            if i >= front.len() {
                assert(all[i] == back[i - front.len()]);
            } else {
                assert(all[i] == front[i]);
            }
        }
    }
}

/// Where the parser's rows count the line feeds of the file, the line of
/// each chunk of a parsed file is one more than the number of line feeds
/// before the chunk's first byte.
pub proof fn lemma_lines_count_line_feeds(path: Seq<char>, root: SyntaxNode, text: Seq<u8>)
    requires
        forest_rows_follow(root.children@, text),
    ensures
        forall|i: int|
            0 <= i < root_spans(root).len() ==> (#[trigger] chunks_of_spans(
                path,
                root_spans(root),
                text,
            )[i]).line == 1 + newlines_before(text, root_spans(root)[i].start as int),
{
    lemma_forest_span_rows(root.children@, text);
}

/// Whether the tree under `root` can be cut out of a file of `len` bytes.
pub open spec fn tree_fits(root: SyntaxNode, len: nat) -> bool {
    root.well_formed() && root.end_byte <= len
}

/// Decides `tree_fits`.
pub fn check_tree_fits(root: &SyntaxNode, len: usize) -> (fits: bool)
    ensures
        fits == tree_fits(*root, len as nat),
{
    root.end_byte <= len && root.check_well_formed()
}

/// Cuts the declarations of a parsed file into chunks, in source order.
pub fn extract_chunks(path: &str, root: &SyntaxNode, text: &[u8]) -> (chunks: Vec<Chunk>)
    requires
        tree_fits(*root, text@.len()),
    ensures
        chunk_views(chunks@) == chunks_of_spans(path@, root_spans(*root), text@),
{
    let spans = declaration_spans(root);
    proof {
        lemma_spans_do_not_overlap(*root);
    }
    let mut chunks: Vec<Chunk> = Vec::new();
    let mut i: usize = 0;
    while i < spans.len()
        invariant
            i <= spans.len(),
            spans@ == root_spans(*root),
            spans_in_order(spans@, root.start_byte as int, root.end_byte as int),
            root.end_byte <= text@.len(),
            chunks@.len() == i,
            forall|k: int|
                0 <= k < i ==> (#[trigger] chunks@[k])@ == chunk_of_span(path@, spans@[k], text@),
        decreases spans.len() - i,
    {
        let span = spans[i];
        assert(spans@[i as int].end <= root.end_byte);
        let bytes = slice_subrange(text, span.start, span.end);
        let chunk = Chunk {
            path: path.to_owned(),
            line: (span.row + 1) as u64,
            text: lossy_string(bytes),
        };
        chunks.push(chunk);
        i += 1;
    }
    assert(chunk_views(chunks@) =~= chunks_of_spans(path@, root_spans(*root), text@));
    chunks
}

/// Makes the one chunk of a file without a grammar: the whole file, at line 0.
/// Where the file is valid UTF-8, the chunk's text is the file's content.
pub fn chunk_opaque(path: &str, text: &[u8]) -> (chunk: Chunk)
    ensures
        chunk@ == opaque_chunk(path@, text@),
        valid_utf8(text@) ==> encode_utf8(chunk@.text) == text@,
{
    proof {
        if valid_utf8(text@) {
            lemma_valid_text_is_kept(text@);
        }
    }
    Chunk { path: path.to_owned(), line: OPAQUE_LINE, text: lossy_string(text) }
}

/// What chunking a file came to.
#[derive(Debug, PartialEq, Eq)]
pub enum Extraction {
    /// The file's chunks, in source order.
    Chunks(Vec<Chunk>),
    /// The parser gave no tree.
    Unparsed,
    /// The parser's tree does not fit the file: a range is reversed or
    /// reaches past the end, or siblings overlap.
    Malformed,
    /// The parser refused to load the grammar.
    GrammarRejected,
    /// The path has no extension, so nothing says how to read the file.
    NoExtension,
}

/// An extraction as a mathematical value.
pub ghost enum ExtractionView {
    Chunks(Seq<ChunkView>),
    Unparsed,
    Malformed,
    GrammarRejected,
    NoExtension,
}

impl View for Extraction {
    type V = ExtractionView;

    open spec fn view(&self) -> ExtractionView {
        match self {
            Extraction::Chunks(chunks) => ExtractionView::Chunks(chunk_views(chunks@)),
            Extraction::Unparsed => ExtractionView::Unparsed,
            Extraction::Malformed => ExtractionView::Malformed,
            Extraction::GrammarRejected => ExtractionView::GrammarRejected,
            Extraction::NoExtension => ExtractionView::NoExtension,
        }
    }
}

/// What the parse outcome `outcome` of the file `text` at `path` comes to:
/// the chunks of its declarations where the tree fits the file.
pub open spec fn outcome_extraction(path: Seq<char>, outcome: ParseOutcome, text: Seq<u8>)
    -> ExtractionView {
    match outcome {
        ParseOutcome::Parsed(root) => if tree_fits(root, text.len()) {
            ExtractionView::Chunks(chunks_of_spans(path, root_spans(root), text))
        } else {
            ExtractionView::Malformed
        },
        ParseOutcome::NoTree => ExtractionView::Unparsed,
        ParseOutcome::GrammarRejected => ExtractionView::GrammarRejected,
    }
}

/// What the file `text` at `path` comes to once `detection` has been
/// decided for it.
pub open spec fn file_extraction(path: Seq<char>, detection: Detection, text: Seq<u8>)
    -> ExtractionView {
    match detection {
        Detection::Known(grammar) => outcome_extraction(path, parse_outcome(grammar, text), text),
        Detection::Opaque => ExtractionView::Chunks(seq![opaque_chunk(path, text)]),
        Detection::NoExtension => ExtractionView::NoExtension,
    }
}

/// A file whose extension belongs to no grammar is exactly one chunk: its
/// text is the text of the whole file and its line is 0. Where the file is
/// valid UTF-8, the text is the file's content, byte for byte.
pub proof fn lemma_unmapped_extension_is_one_chunk(
    path: Seq<char>,
    ext: Seq<char>,
    text: Seq<u8>,
)
    requires
        grammar_of_extension(ext) is None,
    ensures
        file_extraction(path, detection_of(Some(ext)), text) == ExtractionView::Chunks(
            seq![opaque_chunk(path, text)],
        ),
        opaque_chunk(path, text).path == path,
        opaque_chunk(path, text).line == 0,
        opaque_chunk(path, text).text == text_of_bytes(text),
        valid_utf8(text) ==> encode_utf8(opaque_chunk(path, text).text) == text,
{
    if valid_utf8(text) {
        lemma_valid_text_is_kept(text);
    }
}

/// Turns what the parser made of `text` into chunks, or says why there are none.
pub fn chunks_from_outcome(path: &str, outcome: &ParseOutcome, text: &[u8]) -> (extraction:
    Extraction)
    ensures
        extraction@ == outcome_extraction(path@, *outcome, text@),
{
    match outcome {
        ParseOutcome::Parsed(root) => {
            if check_tree_fits(root, text.len()) {
                Extraction::Chunks(extract_chunks(path, root, text))
            } else {
                Extraction::Malformed
            }
        },
        ParseOutcome::NoTree => Extraction::Unparsed,
        ParseOutcome::GrammarRejected => Extraction::GrammarRejected,
    }
}

/// Parses `text` with `grammar` and cuts its declarations into chunks.
pub fn chunk_structural(path: &str, grammar: Grammar, text: &[u8]) -> (extraction: Extraction)
    ensures
        extraction@ == outcome_extraction(path@, parse_outcome(grammar, text@), text@),
{
    let outcome = parse_tree(grammar, text);
    chunks_from_outcome(path, &outcome, text)
}

/// Chunks one file: by its declarations where it has a grammar, as a whole
/// where it has none, and not at all where its path has no extension.
pub fn chunk_file(path: &str, detection: Detection, text: &[u8]) -> (extraction: Extraction)
    ensures
        extraction@ == file_extraction(path@, detection, text@),
{
    match detection {
        Detection::Known(grammar) => chunk_structural(path, grammar, text),
        Detection::Opaque => {
            let mut chunks: Vec<Chunk> = Vec::new();
            chunks.push(chunk_opaque(path, text));
            assert(chunk_views(chunks@) =~= seq![opaque_chunk(path@, text@)]);
            Extraction::Chunks(chunks)
        },
        Detection::NoExtension => Extraction::NoExtension,
    }
}

} // verus!
