//! The ingestion pipeline: chunks gather in a batch, file by file, and
//! leave it as records with consecutive identifiers.
//!
//! The batch is looked at only between files. A file that brings the batch
//! to the threshold or over it sends the whole batch, however large.

use vstd::prelude::*;
use crate::extract::{
    chunk_file, chunk_views, file_extraction, Chunk, ChunkView, Extraction, ExtractionView,
};
use crate::language::Detection;
use crate::text::{decimal_digits, decimal_string, lemma_decimal_digits_injective};

verus! {

/// The number of pending chunks from which a batch is sent.
pub const BATCH_THRESHOLD: usize = 512;

/// Where a stored fragment came from.
#[derive(Clone, Debug, PartialEq, Eq)]
pub struct Metadata {
    pub path: String,
    pub line: u64,
}

/// One entry for the store, still without its embedding.
#[derive(Clone, Debug, PartialEq, Eq)]
pub struct Record {
    pub id: String,
    pub metadata: Metadata,
    pub document: String,
}

/// A record as a mathematical value.
pub ghost struct RecordView {
    pub id: Seq<char>,
    pub path: Seq<char>,
    pub line: nat,
    pub document: Seq<char>,
}

impl View for Record {
    type V = RecordView;

    open spec fn view(&self) -> RecordView {
        RecordView {
            id: self.id@,
            path: self.metadata.path@,
            line: self.metadata.line as nat,
            document: self.document@,
        }
    }
}

/// The views of a sequence of records.
pub open spec fn record_views(records: Seq<Record>) -> Seq<RecordView> {
    Seq::new(records.len(), |i: int| records[i]@)
}

/// The record of `chunk` under the identifier `id`.
pub open spec fn record_of(id: nat, chunk: ChunkView) -> RecordView {
    RecordView { id: decimal_digits(id), path: chunk.path, line: chunk.line, document: chunk.text }
}

/// The records of `chunks`, numbered from `offset` upwards in their order.
pub open spec fn records_of(offset: nat, chunks: Seq<ChunkView>) -> Seq<RecordView> {
    Seq::new(chunks.len(), |i: int| record_of(offset + i as nat, chunks[i]))
}

/// Why a file added nothing to the batch.
#[derive(Clone, Copy, Debug, PartialEq, Eq, Structural)]
pub enum SkipReason {
    /// Its path has no extension.
    NoExtension,
    /// The parser gave no tree for it.
    Unparsed,
    /// The parser's tree does not fit its bytes.
    Malformed,
}

/// Why a run cannot go on.
#[derive(Clone, Copy, Debug, PartialEq, Eq, Structural)]
pub enum IngestError {
    /// The parser refused to load a grammar.
    GrammarRejected,
    /// The chunks of this file would need identifiers past the largest one.
    IdSpaceExhausted,
}

/// What one file did to the pipeline.
#[derive(Debug, PartialEq, Eq)]
pub enum Step {
    /// The file was skipped; the pipeline is as it was.
    Skipped(SkipReason),
    /// The file's chunks are pending; nothing is to be sent yet.
    Buffered,
    /// The batch reached the threshold: these records are to be embedded
    /// and stored now, and the batch is empty again.
    Flush(Vec<Record>),
    /// The run must stop; the pipeline is as it was.
    Failed(IngestError),
}

/// The state of a run as a mathematical value.
pub ghost struct PipelineView {
    pub offset: nat,
    pub pending: Seq<ChunkView>,
}

/// A step as a mathematical value.
pub ghost enum StepView {
    Skipped(SkipReason),
    Buffered,
    Flush(Seq<RecordView>),
    Failed(IngestError),
}

impl View for Step {
    type V = StepView;

    open spec fn view(&self) -> StepView {
        match self {
            Step::Skipped(reason) => StepView::Skipped(*reason),
            Step::Buffered => StepView::Buffered,
            Step::Flush(records) => StepView::Flush(record_views(records@)),
            Step::Failed(error) => StepView::Failed(*error),
        }
    }
}

/// What one file does: the state it leaves and the step it reports.
pub ghost struct Transition {
    pub state: PipelineView,
    pub step: StepView,
}

/// The state of a run before its first file.
pub open spec fn initial_state() -> PipelineView {
    PipelineView { offset: 0, pending: Seq::empty() }
}

/// The records that sending the batch of `state` makes: one for each
/// pending chunk, in order, numbered from the offset.
pub open spec fn flush_records(state: PipelineView) -> Seq<RecordView> {
    records_of(state.offset, state.pending)
}

/// The state after the batch of `state` was sent: the offset has moved past
/// the records, and nothing is pending.
pub open spec fn flushed(state: PipelineView) -> PipelineView {
    PipelineView { offset: state.offset + state.pending.len(), pending: Seq::empty() }
}

/// Adds the chunks of one file, then sends the whole batch if it has
/// reached the threshold. Chunks that could not all get an identifier
/// are not added.
pub open spec fn accept_step(state: PipelineView, chunks: Seq<ChunkView>) -> Transition {
    let grown = PipelineView { offset: state.offset, pending: state.pending + chunks };
    if state.offset + state.pending.len() + chunks.len() > usize::MAX {
        Transition { state, step: StepView::Failed(IngestError::IdSpaceExhausted) }
    } else if grown.pending.len() >= BATCH_THRESHOLD {
        Transition { state: flushed(grown), step: StepView::Flush(flush_records(grown)) }
    } else {
        Transition { state: grown, step: StepView::Buffered }
    }
}

/// What the extraction of one file does to a run.
pub open spec fn ingest_step(state: PipelineView, extraction: ExtractionView) -> Transition {
    match extraction {
        ExtractionView::Chunks(chunks) => accept_step(state, chunks),
        ExtractionView::Unparsed => Transition {
            state,
            step: StepView::Skipped(SkipReason::Unparsed),
        },
        ExtractionView::Malformed => Transition {
            state,
            step: StepView::Skipped(SkipReason::Malformed),
        },
        ExtractionView::NoExtension => Transition {
            state,
            step: StepView::Skipped(SkipReason::NoExtension),
        },
        ExtractionView::GrammarRejected => Transition {
            state,
            step: StepView::Failed(IngestError::GrammarRejected),
        },
    }
}

/// What the end of the input sends: all that is pending, if anything is.
pub open spec fn finish_records(state: PipelineView) -> Option<Seq<RecordView>> {
    if state.pending.len() > 0 {
        Some(flush_records(state))
    } else {
        None
    }
}

/// The state after the end of the input.
pub open spec fn finished(state: PipelineView) -> PipelineView {
    if state.pending.len() > 0 {
        flushed(state)
    } else {
        state
    }
}

/// The views of optional records.
pub open spec fn optional_records(records: Option<Vec<Record>>) -> Option<Seq<RecordView>> {
    match records {
        Some(r) => Some(record_views(r@)),
        None => None,
    }
}

/// The running state of one ingestion run: the next free identifier and
/// the chunks not yet sent.
pub struct IngestionPipeline {
    offset: usize,
    pending: Vec<Chunk>,
}

impl View for IngestionPipeline {
    type V = PipelineView;

    closed spec fn view(&self) -> PipelineView {
        PipelineView { offset: self.offset as nat, pending: chunk_views(self.pending@) }
    }
}

impl IngestionPipeline {
    /// Every pending chunk still has an identifier to get.
    pub open spec fn well_formed(&self) -> bool {
        self@.offset + self@.pending.len() <= usize::MAX
    }

    /// A pipeline at the start of a run: identifiers start at 0, nothing is pending.
    pub fn new() -> (pipeline: IngestionPipeline)
        ensures
            pipeline.well_formed(),
            pipeline@ == initial_state(),
    {
        let pipeline = IngestionPipeline { offset: 0, pending: Vec::new() };
        assert(pipeline@.pending =~= Seq::empty());
        pipeline
    }

    /// The identifier that the next record sent will get.
    pub fn offset(&self) -> (offset: usize)
        ensures
            offset == self@.offset,
    {
        self.offset
    }

    /// The number of chunks waiting to be sent.
    pub fn pending_len(&self) -> (len: usize)
        ensures
            len == self@.pending.len(),
    {
        self.pending.len()
    }

    fn flush(&mut self) -> (records: Vec<Record>)
        requires
            old(self).well_formed(),
        ensures
            final(self).well_formed(),
            final(self)@ == flushed(old(self)@),
            record_views(records@) == flush_records(old(self)@),
    {
        let mut records: Vec<Record> = Vec::new();
        let mut i: usize = 0;
        while i < self.pending.len()
            invariant
                i <= self.pending.len(),
                self.offset + self.pending@.len() <= usize::MAX,
                *self == *old(self),
                records@.len() == i,
                forall|k: int|
                    0 <= k < i ==> (#[trigger] records@[k])@ == record_of(
                        (self.offset + k) as nat,
                        self.pending@[k]@,
                    ),
            decreases self.pending.len() - i,
        {
            let chunk = &self.pending[i];
            let record = Record {
                id: decimal_string((self.offset + i) as u64),
                metadata: Metadata { path: chunk.path.clone(), line: chunk.line },
                document: chunk.text.clone(),
            };
            records.push(record);
            i += 1;
        }
        assert(record_views(records@) =~= records_of(old(self)@.offset, old(self)@.pending));
        self.offset = self.offset + self.pending.len();
        self.pending = Vec::new();
        assert(self@.pending =~= Seq::empty());
        records
    }

    /// Takes in what chunking one file came to. Chunks join the batch, and
    /// the whole batch is sent if it has reached the threshold; a skipped
    /// file and a failure leave the pipeline as it was.
    pub fn accept(&mut self, extraction: Extraction) -> (step: Step)
        requires
            old(self).well_formed(),
        ensures
            final(self).well_formed(),
            final(self)@ == ingest_step(old(self)@, extraction@).state,
            step@ == ingest_step(old(self)@, extraction@).step,
    {
        match extraction {
            Extraction::Chunks(chunks) => {
                let mut chunks = chunks;
                let room = usize::MAX - self.offset - self.pending.len();
                if chunks.len() > room {
                    return Step::Failed(IngestError::IdSpaceExhausted);
                }
                let ghost added = chunk_views(chunks@);
                self.pending.append(&mut chunks);
                assert(self@.pending =~= old(self)@.pending + added);
                if self.pending.len() >= BATCH_THRESHOLD {
                    Step::Flush(self.flush())
                } else {
                    Step::Buffered
                }
            },
            Extraction::Unparsed => Step::Skipped(SkipReason::Unparsed),
            Extraction::Malformed => Step::Skipped(SkipReason::Malformed),
            Extraction::NoExtension => Step::Skipped(SkipReason::NoExtension),
            Extraction::GrammarRejected => Step::Failed(IngestError::GrammarRejected),
        }
    }

    /// Chunks the file `text` at `path` as `detection` says and takes the
    /// chunks in.
    pub fn ingest_file(&mut self, path: &str, detection: Detection, text: &[u8]) -> (step: Step)
        requires
            old(self).well_formed(),
        ensures
            final(self).well_formed(),
            final(self)@ == ingest_step(
                old(self)@,
                file_extraction(path@, detection, text@),
            ).state,
            step@ == ingest_step(old(self)@, file_extraction(path@, detection, text@)).step,
    {
        let extraction = chunk_file(path, detection, text);
        self.accept(extraction)
    }

    /// Ends the input: what is still pending is sent, however little.
    pub fn finish(&mut self) -> (records: Option<Vec<Record>>)
        requires
            old(self).well_formed(),
        ensures
            final(self).well_formed(),
            final(self)@ == finished(old(self)@),
            optional_records(records) == finish_records(old(self)@),
    {
        if self.pending.len() > 0 {
            Some(self.flush())
        } else {
            None
        }
    }
}

/// The state of a run after the files `files`, taken in order.
pub open spec fn run_state(files: Seq<ExtractionView>) -> PipelineView
    decreases files.len(),
{
    if files.len() == 0 {
        initial_state()
    } else {
        ingest_step(run_state(files.drop_last()), files.last()).state
    }
}

/// The records that a step sends.
pub open spec fn sent_by(step: StepView) -> Seq<RecordView> {
    match step {
        StepView::Flush(records) => records,
        _ => Seq::empty(),
    }
}

/// The chunks that a step takes into the batch.
pub open spec fn taken_by(state: PipelineView, extraction: ExtractionView) -> Seq<ChunkView> {
    match extraction {
        ExtractionView::Chunks(chunks) => if ingest_step(state, extraction).step is Failed {
            Seq::empty()
        } else {
            chunks
        },
        _ => Seq::empty(),
    }
}

/// All records sent while the files `files` were taken in, in the order sent.
pub open spec fn run_sent(files: Seq<ExtractionView>) -> Seq<RecordView>
    decreases files.len(),
{
    if files.len() == 0 {
        Seq::empty()
    } else {
        run_sent(files.drop_last()) + sent_by(
            ingest_step(run_state(files.drop_last()), files.last()).step,
        )
    }
}

/// All chunks taken in from the files `files`, in the order taken.
pub open spec fn run_chunks(files: Seq<ExtractionView>) -> Seq<ChunkView>
    decreases files.len(),
{
    if files.len() == 0 {
        Seq::empty()
    } else {
        run_chunks(files.drop_last()) + taken_by(run_state(files.drop_last()), files.last())
    }
}

/// All records of a run that took in `files` and then ended.
pub open spec fn complete_sent(files: Seq<ExtractionView>) -> Seq<RecordView> {
    match finish_records(run_state(files)) {
        Some(records) => run_sent(files) + records,
        None => run_sent(files),
    }
}

proof fn lemma_records_of_concat(offset: nat, front: Seq<ChunkView>, back: Seq<ChunkView>)
    ensures
        records_of(offset, front + back) == records_of(offset, front) + records_of(
            offset + front.len(),
            back,
        ),
{
    assert(records_of(offset, front + back) =~= records_of(offset, front) + records_of(
        offset + front.len(),
        back,
    ));
}

proof fn lemma_run(files: Seq<ExtractionView>)
    ensures
        run_state(files).offset == run_sent(files).len(),
        run_sent(files) + flush_records(run_state(files)) == records_of(0, run_chunks(files)),
    decreases files.len(),
{
    if files.len() == 0 {
        assert(run_sent(files) + flush_records(run_state(files)) =~= records_of(
            0,
            run_chunks(files),
        ));
    } else {
        let before = run_state(files.drop_last());
        let taken = taken_by(before, files.last());
        let grown = PipelineView { offset: before.offset, pending: before.pending + taken };
        lemma_run(files.drop_last());
        lemma_records_of_concat(0, run_chunks(files.drop_last()), taken);
        lemma_records_of_concat(before.offset, before.pending, taken);
        lemma_records_of_concat(0, run_chunks(files.drop_last()), Seq::empty());
        assert(run_sent(files.drop_last()).len() + flush_records(before).len() == run_chunks(
            files.drop_last(),
        ).len());
        assert(before.pending + Seq::<ChunkView>::empty() =~= before.pending);
        assert(flush_records(grown) =~= flush_records(before) + records_of(
            before.offset + before.pending.len(),
            taken,
        ));
        assert(run_sent(files) + flush_records(run_state(files)) =~= run_sent(files.drop_last())
            + flush_records(grown));
        assert(run_sent(files) + flush_records(run_state(files)) =~= records_of(
            0,
            run_chunks(files),
        ));
    }
}

/// Identifiers are contiguous over a whole run. However many batches were
/// sent, the records of a run that ended are the chunks taken in, in
/// their order, and the record at place `i` has the identifier `i`: the
/// identifiers start at 0 and have no gap and no repeat. The offset at the
/// end is their number.
pub proof fn lemma_identifiers_contiguous(files: Seq<ExtractionView>)
    ensures
        complete_sent(files) == records_of(0, run_chunks(files)),
        complete_sent(files).len() == finished(run_state(files)).offset,
        finished(run_state(files)).pending.len() == 0,
        forall|i: int|
            0 <= i < complete_sent(files).len() ==> (#[trigger] complete_sent(files)[i]).id
                == decimal_digits(i as nat),
        forall|i: int, j: int|
            0 <= i < j < complete_sent(files).len() ==> (#[trigger] complete_sent(files)[i]).id
                != (#[trigger] complete_sent(files)[j]).id,
{
    lemma_run(files);
    let state = run_state(files);
    if state.pending.len() == 0 {
        assert(flush_records(state) =~= Seq::empty());
        assert(run_sent(files) + flush_records(state) =~= run_sent(files));
    }
    let all = complete_sent(files);
    assert forall|i: int, j: int| 0 <= i < j < all.len() implies (#[trigger] all[i]).id != (
    #[trigger] all[j]).id by {
        lemma_decimal_digits_injective(i as nat, j as nat);
    }
}

/// The offset never goes back: a step leaves it where it was or moves it
/// forward by the number of records it sends.
pub proof fn lemma_offset_only_grows(state: PipelineView, extraction: ExtractionView)
    ensures
        ingest_step(state, extraction).state.offset == state.offset + sent_by(
            ingest_step(state, extraction).step,
        ).len(),
{
}

/// A batch is sent whole. When a file brings the batch to the threshold or
/// over it, one step sends every pending chunk, the file's own included,
/// and leaves nothing behind, however far over the threshold the batch is.
pub proof fn lemma_flush_is_file_granular(state: PipelineView, chunks: Seq<ChunkView>)
    requires
        state.offset + state.pending.len() + chunks.len() <= usize::MAX,
        state.pending.len() + chunks.len() >= BATCH_THRESHOLD,
    ensures
        accept_step(state, chunks).step == StepView::Flush(
            records_of(state.offset, state.pending + chunks),
        ),
        sent_by(accept_step(state, chunks).step).len() == state.pending.len() + chunks.len(),
        accept_step(state, chunks).state.pending.len() == 0,
{
}

/// Below the threshold nothing is sent: the file's chunks wait in the batch.
pub proof fn lemma_below_threshold_buffers(state: PipelineView, chunks: Seq<ChunkView>)
    requires
        state.offset + state.pending.len() + chunks.len() <= usize::MAX,
        state.pending.len() + chunks.len() < BATCH_THRESHOLD,
    ensures
        accept_step(state, chunks).step == StepView::Buffered,
        accept_step(state, chunks).state.pending == state.pending + chunks,
        accept_step(state, chunks).state.offset == state.offset,
{
}

} // verus!
