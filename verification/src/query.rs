//! The query pipeline: the store's answer to one query becomes a list of
//! results, in the store's order of relevance.
//!
//! The store answers with one ranked list of metadata and one of documents
//! for each query embedding it was given. One embedding is sent, so the
//! last list of each is the answer. The two lists are read side by side;
//! a place where something is missing is left out, and the rest stays.

use vstd::prelude::*;
use crate::text::{decimal_digits, decimal_string};

verus! {

/// The number of nearest records asked of the store.
pub const TOP_K: u32 = 5;

/// The value of one metadata field as the store returned it.
#[derive(Clone, Debug, PartialEq, Eq)]
pub enum FieldValue {
    /// A string.
    Text(String),
    /// An integer that is not negative.
    Unsigned(u64),
    /// Any other value, written as JSON.
    Other(String),
}

/// The metadata of one returned record: its two fields, where it has them.
#[derive(Clone, Debug, PartialEq, Eq)]
pub struct StoredMetadata {
    pub path: Option<FieldValue>,
    pub line: Option<FieldValue>,
}

/// The store's answer to a query. Each outer list has one entry for each
/// query embedding; each inner list is ranked, nearest first.
#[derive(Clone, Debug, PartialEq, Eq)]
pub struct StoreAnswer {
    pub metadatas: Option<Vec<Vec<Option<StoredMetadata>>>>,
    pub documents: Option<Vec<Vec<Option<String>>>>,
}

/// One result of a query.
#[derive(Clone, Debug, PartialEq, Eq)]
pub struct QueryResult {
    pub path: String,
    pub line: u64,
    pub code: String,
}

/// A result as a mathematical value.
pub ghost struct QueryResultView {
    pub path: Seq<char>,
    pub line: nat,
    pub code: Seq<char>,
}

impl View for QueryResult {
    type V = QueryResultView;

    open spec fn view(&self) -> QueryResultView {
        QueryResultView { path: self.path@, line: self.line as nat, code: self.code@ }
    }
}

/// The views of a sequence of results.
pub open spec fn result_views(results: Seq<QueryResult>) -> Seq<QueryResultView> {
    Seq::new(results.len(), |i: int| results[i]@)
}

/// Why one place of the answer gives no result.
#[derive(Clone, Copy, Debug, PartialEq, Eq, Structural)]
pub enum EntryDefect {
    MissingMetadata,
    MissingDocument,
    MissingPath,
    MissingLine,
    LineNotInteger,
}

/// Why an answer gives no result list at all.
#[derive(Clone, Copy, Debug, PartialEq, Eq, Structural)]
pub enum QueryError {
    /// The answer has no metadata lists.
    NoMetadata,
    /// The answer has no document lists.
    NoDocuments,
    /// The answer has no list for the query.
    NoEntry,
}

/// The results of a query, and what was wrong at each place left out, both
/// in the store's order.
#[derive(Clone, Debug, PartialEq, Eq)]
pub struct QueryOutcome {
    pub results: Vec<QueryResult>,
    pub dropped: Vec<EntryDefect>,
}

/// The text of a path field: a string as it is, a number in base ten, any
/// other value as the JSON it came with.
pub open spec fn path_text(value: FieldValue) -> Seq<char> {
    match value {
        FieldValue::Text(s) => s@,
        FieldValue::Unsigned(n) => decimal_digits(n as nat),
        FieldValue::Other(s) => s@,
    }
}

/// What one place of the answer gives: a result where the metadata, the
/// document, the path and a line that is a non-negative integer are all
/// there, otherwise the first of these that is not.
pub open spec fn entry_result(meta: Option<StoredMetadata>, doc: Option<String>) -> Result<
    QueryResultView,
    EntryDefect,
> {
    if meta is None {
        Err(EntryDefect::MissingMetadata)
    } else if doc is None {
        Err(EntryDefect::MissingDocument)
    } else if meta->0.path is None {
        Err(EntryDefect::MissingPath)
    } else if meta->0.line is None {
        Err(EntryDefect::MissingLine)
    } else {
        match meta->0.line->0 {
            FieldValue::Unsigned(line) => Ok(
                QueryResultView {
                    path: path_text(meta->0.path->0),
                    line: line as nat,
                    code: doc->0@,
                },
            ),
            _ => Err(EntryDefect::LineNotInteger),
        }
    }
}

/// The number of places that both lists have.
pub open spec fn pair_count(
    metas: Seq<Option<StoredMetadata>>,
    docs: Seq<Option<String>>,
) -> nat {
    if metas.len() <= docs.len() {
        metas.len()
    } else {
        docs.len()
    }
}

/// The results of the first `n` places, in order.
pub open spec fn results_upto(
    metas: Seq<Option<StoredMetadata>>,
    docs: Seq<Option<String>>,
    n: nat,
) -> Seq<QueryResultView>
    recommends
        n <= pair_count(metas, docs),
    decreases n,
{
    if n == 0 {
        Seq::empty()
    } else {
        let before = results_upto(metas, docs, (n - 1) as nat);
        match entry_result(metas[n - 1], docs[n - 1]) {
            Ok(result) => before.push(result),
            Err(_) => before,
        }
    }
}

/// The defects of the first `n` places, in order.
pub open spec fn defects_upto(
    metas: Seq<Option<StoredMetadata>>,
    docs: Seq<Option<String>>,
    n: nat,
) -> Seq<EntryDefect>
    recommends
        n <= pair_count(metas, docs),
    decreases n,
{
    if n == 0 {
        Seq::empty()
    } else {
        let before = defects_upto(metas, docs, (n - 1) as nat);
        match entry_result(metas[n - 1], docs[n - 1]) {
            Ok(_) => before,
            Err(defect) => before.push(defect),
        }
    }
}

/// The error of an answer that gives no result list, if it is one: missing
/// metadata lists come first, then missing document lists, then an empty
/// list of either.
pub open spec fn answer_error(answer: StoreAnswer) -> Option<QueryError> {
    if answer.metadatas is None {
        Some(QueryError::NoMetadata)
    } else if answer.documents is None {
        Some(QueryError::NoDocuments)
    } else if answer.metadatas->0@.len() == 0 || answer.documents->0@.len() == 0 {
        Some(QueryError::NoEntry)
    } else {
        None
    }
}

/// The ranked metadata for the query: the last list.
pub open spec fn answer_metas(answer: StoreAnswer) -> Seq<Option<StoredMetadata>>
    recommends
        answer_error(answer) is None,
{
    answer.metadatas->0@.last()@
}

/// The ranked documents for the query: the last list.
pub open spec fn answer_docs(answer: StoreAnswer) -> Seq<Option<String>>
    recommends
        answer_error(answer) is None,
{
    answer.documents->0@.last()@
}

/// Reads one place of the answer.
pub fn assess_entry(meta: &Option<StoredMetadata>, doc: &Option<String>) -> (entry: Result<
    QueryResult,
    EntryDefect,
>)
    ensures
        match entry_result(*meta, *doc) {
            Ok(view) => entry is Ok && entry->Ok_0@ == view,
            Err(defect) => entry == Err::<QueryResult, EntryDefect>(defect),
        },
{
    let Some(meta) = meta else {
        return Err(EntryDefect::MissingMetadata);
    };
    let Some(doc) = doc else {
        return Err(EntryDefect::MissingDocument);
    };
    let Some(path) = &meta.path else {
        return Err(EntryDefect::MissingPath);
    };
    let Some(line) = &meta.line else {
        return Err(EntryDefect::MissingLine);
    };
    let FieldValue::Unsigned(line) = line else {
        return Err(EntryDefect::LineNotInteger);
    };
    let path = match path {
        FieldValue::Text(s) => s.clone(),
        FieldValue::Unsigned(n) => decimal_string(*n),
        FieldValue::Other(s) => s.clone(),
    };
    Ok(QueryResult { path, line: *line, code: doc.clone() })
}

/// Reads the store's answer to one query: the results of the places where
/// nothing is missing, in the store's order, and the defects of the others.
pub fn assemble_results(answer: &StoreAnswer) -> (outcome: Result<QueryOutcome, QueryError>)
    ensures
        match answer_error(*answer) {
            Some(error) => outcome == Err::<QueryOutcome, QueryError>(error),
            None => {
                let metas = answer_metas(*answer);
                let docs = answer_docs(*answer);
                &&& outcome is Ok
                &&& result_views(outcome->Ok_0.results@) == results_upto(
                    metas,
                    docs,
                    pair_count(metas, docs),
                )
                &&& outcome->Ok_0.dropped@ == defects_upto(metas, docs, pair_count(metas, docs))
            },
        },
{
    let Some(metadatas) = &answer.metadatas else {
        return Err(QueryError::NoMetadata);
    };
    let Some(documents) = &answer.documents else {
        return Err(QueryError::NoDocuments);
    };
    if metadatas.len() == 0 || documents.len() == 0 {
        return Err(QueryError::NoEntry);
    }
    let metas = &metadatas[metadatas.len() - 1];
    let docs = &documents[documents.len() - 1];
    let count = if metas.len() <= docs.len() {
        metas.len()
    } else {
        docs.len()
    };
    let mut results: Vec<QueryResult> = Vec::new();
    let mut dropped: Vec<EntryDefect> = Vec::new();
    let mut i: usize = 0;
    while i < count
        invariant
            i <= count,
            count == pair_count(metas@, docs@),
            result_views(results@) == results_upto(metas@, docs@, i as nat),
            dropped@ == defects_upto(metas@, docs@, i as nat),
        decreases count - i,
    {
        match assess_entry(&metas[i], &docs[i]) {
            Ok(result) => {
                let ghost before = result_views(results@);
                results.push(result);
                assert(result_views(results@) =~= before.push(result@));
            },
            Err(defect) => {
                dropped.push(defect);
            },
        }
        i += 1;
    }
    Ok(QueryOutcome { results, dropped })
}

/// The places among the first `n` that give a result, in order.
pub open spec fn kept_upto(
    metas: Seq<Option<StoredMetadata>>,
    docs: Seq<Option<String>>,
    n: nat,
) -> Seq<int>
    recommends
        n <= pair_count(metas, docs),
    decreases n,
{
    if n == 0 {
        Seq::empty()
    } else {
        let before = kept_upto(metas, docs, (n - 1) as nat);
        if entry_result(metas[n - 1], docs[n - 1]) is Ok {
            before.push(n - 1)
        } else {
            before
        }
    }
}

/// Results keep the store's order. Every place gives a result or a
/// defect, never both; the results are those of the places where nothing
/// is missing, each place once, and a result that the store ranked first
/// comes first.
pub proof fn lemma_results_in_store_order(
    metas: Seq<Option<StoredMetadata>>,
    docs: Seq<Option<String>>,
    n: nat,
)
    requires
        n <= pair_count(metas, docs),
    ensures
        results_upto(metas, docs, n).len() + defects_upto(metas, docs, n).len() == n,
        kept_upto(metas, docs, n).len() == results_upto(metas, docs, n).len(),
        forall|k: int|
            0 <= k < kept_upto(metas, docs, n).len() ==> {
                let place = #[trigger] kept_upto(metas, docs, n)[k];
                &&& 0 <= place < n
                &&& entry_result(metas[place], docs[place]) == Ok::<QueryResultView, EntryDefect>(
                    results_upto(metas, docs, n)[k],
                )
            },
        forall|k: int, l: int|
            0 <= k < l < kept_upto(metas, docs, n).len() ==> (#[trigger] kept_upto(
                metas,
                docs,
                n,
            )[k]) < (#[trigger] kept_upto(metas, docs, n)[l]),
        forall|place: int|
            0 <= place < n && (#[trigger] entry_result(metas[place], docs[place])) is Ok
                ==> kept_upto(metas, docs, n).contains(place),
    decreases n,
{
    if n > 0 {
        let m = (n - 1) as nat;
        lemma_results_in_store_order(metas, docs, m);
        let kept = kept_upto(metas, docs, n);
        let before = kept_upto(metas, docs, m);
        assert forall|place: int|
            0 <= place < n && (#[trigger] entry_result(metas[place], docs[place])) is Ok implies kept.contains(
            place,
        ) by {
            if place < m {
                let k = choose|k: int| 0 <= k < before.len() && before[k] == place;
                assert(kept[k] == place);
            } else {
                assert(kept[kept.len() - 1] == place);
            }
        }
    }
}

/// There are no more results than the store returned: not more than it
/// returned metadata, and not more than it returned documents. A store
/// that returns at most the number asked of it gets at most that many back.
pub proof fn lemma_results_bounded(metas: Seq<Option<StoredMetadata>>, docs: Seq<Option<String>>)
    ensures
        results_upto(metas, docs, pair_count(metas, docs)).len() <= metas.len(),
        results_upto(metas, docs, pair_count(metas, docs)).len() <= docs.len(),
        metas.len() <= TOP_K || docs.len() <= TOP_K ==> results_upto(
            metas,
            docs,
            pair_count(metas, docs),
        ).len() <= TOP_K,
{
    lemma_results_in_store_order(metas, docs, pair_count(metas, docs));
}

/// An answer in which nothing is missing comes back whole: as many results
/// as the store returned places, the result at each rank made from the
/// metadata and the document at that rank.
pub proof fn lemma_whole_answer_round_trips(
    metas: Seq<Option<StoredMetadata>>,
    docs: Seq<Option<String>>,
    n: nat,
)
    requires
        n <= pair_count(metas, docs),
        forall|place: int| 0 <= place < n ==> (#[trigger] entry_result(metas[place], docs[place])) is Ok,
    ensures
        results_upto(metas, docs, n).len() == n,
        defects_upto(metas, docs, n).len() == 0,
        forall|place: int|
            0 <= place < n ==> (#[trigger] entry_result(metas[place], docs[place])) == Ok::<
                QueryResultView,
                EntryDefect,
            >(results_upto(metas, docs, n)[place]),
    decreases n,
{
    if n > 0 {
        lemma_whole_answer_round_trips(metas, docs, (n - 1) as nat);
        assert(entry_result(metas[n - 1], docs[n - 1]) is Ok);
    }
}

} // verus!
