use code_rag::extract::{Chunk, Extraction};
use code_rag::ingest::{
    IngestError, IngestionPipeline, Metadata, Record, SkipReason, Step, BATCH_THRESHOLD,
};
use code_rag::language::{detect_language, Detection, Grammar};

fn chunk(path: &str, line: u64, text: &str) -> Chunk {
    Chunk { path: path.to_string(), line, text: text.to_string() }
}

fn chunks(path: &str, count: usize) -> Vec<Chunk> {
    (0..count).map(|i| chunk(path, i as u64 + 1, &format!("{}#{}", path, i))).collect()
}

fn flushed(step: Step) -> Vec<Record> {
    match step {
        Step::Flush(records) => records,
        other => panic!("no flush: {:?}", other),
    }
}

fn functions(count: usize) -> String {
    let mut source = String::new();
    for i in 0..count {
        source.push_str(&format!("int f{}(void) {{ return {}; }}\n", i, i));
    }
    source
}

#[test]
fn threshold_is_512() {
    assert_eq!(BATCH_THRESHOLD, 512);
}

#[test]
fn new_pipeline_starts_at_zero_with_nothing_pending() {
    let mut pipeline = IngestionPipeline::new();
    assert_eq!(pipeline.offset(), 0);
    assert_eq!(pipeline.pending_len(), 0);
    assert_eq!(pipeline.finish(), None);
    assert_eq!(pipeline.offset(), 0);
}

#[test]
fn two_files_end_to_end() {
    let source = "int foo(void) {\n    return 1;\n}\n\nstruct Bar {\n    int x;\n};\n";
    let other = "arbitrary text\nof two lines\n";
    let mut pipeline = IngestionPipeline::new();

    let first = pipeline.ingest_file("a.c", detect_language("a.c"), source.as_bytes());
    assert_eq!(first, Step::Buffered);
    let second =
        pipeline.ingest_file("b.unknownext", detect_language("b.unknownext"), other.as_bytes());
    assert_eq!(second, Step::Buffered);
    assert_eq!(pipeline.pending_len(), 3);
    assert_eq!(pipeline.offset(), 0);

    let records = pipeline.finish().unwrap();
    let expected = vec![
        Record {
            id: "0".to_string(),
            metadata: Metadata { path: "a.c".to_string(), line: 1 },
            document: "int foo(void) {\n    return 1;\n}".to_string(),
        },
        Record {
            id: "1".to_string(),
            metadata: Metadata { path: "a.c".to_string(), line: 5 },
            document: "struct Bar {\n    int x;\n}".to_string(),
        },
        Record {
            id: "2".to_string(),
            metadata: Metadata { path: "b.unknownext".to_string(), line: 0 },
            document: other.to_string(),
        },
    ];
    assert_eq!(records, expected);
    assert_eq!(pipeline.offset(), 3);
    assert_eq!(pipeline.pending_len(), 0);
    assert_eq!(pipeline.finish(), None);
}

#[test]
fn one_file_of_600_chunks_is_sent_in_one_batch() {
    let source = functions(600);
    let mut pipeline = IngestionPipeline::new();
    let step = pipeline.ingest_file("big.c", Detection::Known(Grammar::C), source.as_bytes());
    let records = flushed(step);
    assert_eq!(records.len(), 600);
    for (i, record) in records.iter().enumerate() {
        assert_eq!(record.id, i.to_string());
        assert_eq!(record.metadata.line, i as u64 + 1);
        assert_eq!(record.document, format!("int f{}(void) {{ return {}; }}", i, i));
    }
    assert_eq!(pipeline.pending_len(), 0);
    assert_eq!(pipeline.offset(), 600);
    assert_eq!(pipeline.finish(), None);
}

#[test]
fn batch_is_checked_after_a_file_not_after_a_chunk() {
    let mut pipeline = IngestionPipeline::new();
    assert_eq!(pipeline.accept(Extraction::Chunks(chunks("a", 500))), Step::Buffered);
    let records = flushed(pipeline.accept(Extraction::Chunks(chunks("b", 100))));
    assert_eq!(records.len(), 600);
    assert_eq!(records[499].metadata.path, "a");
    assert_eq!(records[500].metadata.path, "b");
    assert_eq!(records[599].id, "599");
    assert_eq!(pipeline.pending_len(), 0);
}

#[test]
fn one_chunk_short_of_the_threshold_waits() {
    let mut pipeline = IngestionPipeline::new();
    assert_eq!(pipeline.accept(Extraction::Chunks(chunks("a", 511))), Step::Buffered);
    assert_eq!(pipeline.pending_len(), 511);
    assert_eq!(pipeline.offset(), 0);
    let records = flushed(pipeline.accept(Extraction::Chunks(chunks("b", 1))));
    assert_eq!(records.len(), 512);
    assert_eq!(pipeline.offset(), 512);
}

#[test]
fn exactly_the_threshold_is_sent() {
    let mut pipeline = IngestionPipeline::new();
    let records = flushed(pipeline.accept(Extraction::Chunks(chunks("a", 512))));
    assert_eq!(records.len(), 512);
    assert_eq!(pipeline.finish(), None);
}

#[test]
fn identifiers_are_contiguous_over_several_batches() {
    let mut pipeline = IngestionPipeline::new();
    let mut ids: Vec<String> = Vec::new();
    let mut documents: Vec<String> = Vec::new();
    let mut batches = 0;
    for (file, count) in [300usize, 300, 7, 0, 600, 511, 1, 40].iter().enumerate() {
        let path = format!("f{}", file);
        match pipeline.accept(Extraction::Chunks(chunks(&path, *count))) {
            Step::Flush(records) => {
                batches += 1;
                for record in records {
                    ids.push(record.id);
                    documents.push(record.document);
                }
            }
            Step::Buffered => {}
            other => panic!("unexpected step: {:?}", other),
        }
    }
    if let Some(records) = pipeline.finish() {
        batches += 1;
        for record in records {
            ids.push(record.id);
            documents.push(record.document);
        }
    }
    assert_eq!(batches, 4);
    assert_eq!(ids.len(), 1759);
    for (i, id) in ids.iter().enumerate() {
        assert_eq!(*id, i.to_string());
    }
    assert_eq!(documents[0], "f0#0");
    assert_eq!(documents[599], "f1#299");
    assert_eq!(documents[600], "f2#0");
    assert_eq!(documents[1758], "f7#39");
    assert_eq!(pipeline.offset(), 1759);
}

#[test]
fn final_batch_of_one_is_sent() {
    let mut pipeline = IngestionPipeline::new();
    assert_eq!(pipeline.accept(Extraction::Chunks(chunks("a", 1))), Step::Buffered);
    let records = pipeline.finish().unwrap();
    assert_eq!(records.len(), 1);
    assert_eq!(records[0].id, "0");
    assert_eq!(pipeline.finish(), None);
}

#[test]
fn file_without_chunks_changes_nothing() {
    let mut pipeline = IngestionPipeline::new();
    assert_eq!(pipeline.accept(Extraction::Chunks(vec![])), Step::Buffered);
    assert_eq!(pipeline.pending_len(), 0);
    assert_eq!(pipeline.finish(), None);
}

#[test]
fn skipped_files_leave_the_pipeline_as_it_was() {
    let mut pipeline = IngestionPipeline::new();
    assert_eq!(pipeline.accept(Extraction::Chunks(chunks("a", 3))), Step::Buffered);
    assert_eq!(pipeline.accept(Extraction::NoExtension), Step::Skipped(SkipReason::NoExtension));
    assert_eq!(pipeline.accept(Extraction::Unparsed), Step::Skipped(SkipReason::Unparsed));
    assert_eq!(pipeline.accept(Extraction::Malformed), Step::Skipped(SkipReason::Malformed));
    assert_eq!(pipeline.pending_len(), 3);
    assert_eq!(pipeline.offset(), 0);
    let step = pipeline.ingest_file("Makefile", Detection::NoExtension, b"all:\n");
    assert_eq!(step, Step::Skipped(SkipReason::NoExtension));
    assert_eq!(pipeline.pending_len(), 3);
}

#[test]
fn rejected_grammar_stops_the_run() {
    let mut pipeline = IngestionPipeline::new();
    assert_eq!(pipeline.accept(Extraction::Chunks(chunks("a", 2))), Step::Buffered);
    assert_eq!(
        pipeline.accept(Extraction::GrammarRejected),
        Step::Failed(IngestError::GrammarRejected)
    );
    assert_eq!(pipeline.pending_len(), 2);
    assert_eq!(pipeline.offset(), 0);
}

#[test]
fn offset_moves_by_the_size_of_each_batch() {
    let mut pipeline = IngestionPipeline::new();
    flushed(pipeline.accept(Extraction::Chunks(chunks("a", 700))));
    assert_eq!(pipeline.offset(), 700);
    pipeline.accept(Extraction::Chunks(chunks("b", 12)));
    assert_eq!(pipeline.offset(), 700);
    let records = pipeline.finish().unwrap();
    assert_eq!(records[0].id, "700");
    assert_eq!(records[11].id, "711");
    assert_eq!(pipeline.offset(), 712);
}
