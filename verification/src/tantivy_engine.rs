//! The search engine: one index on disk, kept in step with the files of the
//! indexed folders and asked in three ways.

use vstd::prelude::*;
use crate::document::document_of_file;
use crate::document::file_document;
use crate::document::is_eligible;
use crate::document::is_indexable_file;
use crate::document::BrowserData;
use crate::document::Document;
use crate::document::DocumentView;
use crate::document::FileEntry;
use crate::extensions::is_recognized_extension;
use crate::extensions::is_text_extension;
use crate::extensions::lowercase_chars;
use crate::index_model::entry_views;
use crate::index_model::folder_ops;
use crate::index_model::browser_ops;
use crate::index_model::delete_folder_ops;
use crate::index_model::folder_updates;
use crate::index_model::record_views;
use crate::index_model::lemma_scan_of_none_eligible;
use crate::index_model::none_eligible;
use crate::index_model::op_views;
use crate::index_model::plan_browser;
use crate::index_model::plan_delete;
use crate::index_model::plan_delete_folder;
use crate::index_model::plan_file;
use crate::index_model::plan_folder;
use crate::index_model::plan_upsert;
use crate::index_model::upsert_ops;
use crate::index_model::OpView;
use crate::index_model::PlannedOp;
use crate::index_store::add_document;
use crate::index_store::add_i64;
use crate::index_store::add_keyword_field;
use crate::index_store::add_stored_i64_field;
use crate::index_store::add_stored_text_field;
use crate::index_store::add_stored_u64_field;
use crate::index_store::add_text;
use crate::index_store::add_text_field;
use crate::index_store::add_u64;
use crate::index_store::any_of;
use crate::index_store::build_schema;
use crate::index_store::commit;
use crate::index_store::committed_operations;
use crate::index_store::count_documents;
use crate::index_store::create_index;
use crate::index_store::declared_fields;
use crate::index_store::delete_term;
use crate::index_store::document_fields;
use crate::index_store::error_message;
use crate::index_store::exact_term;
use crate::index_store::fault_of;
use crate::index_store::field_values;
use crate::index_store::fuzzy_term;
use crate::index_store::has_schema;
use crate::index_store::index_fields;
use crate::index_store::joined_alternatives;
use crate::index_store::live_documents;
use crate::index_store::new_document;
use crate::index_store::new_schema_builder;
use crate::index_store::open_index;
use crate::index_store::open_searcher;
use crate::index_store::open_writer;
use crate::index_store::parse_query;
use crate::index_store::query_alternatives;
use crate::index_store::run_query;
use crate::index_store::schema_fields;
use crate::index_store::segment_readers;
use crate::index_store::writer_budget;
use crate::index_store::writer_operations;
use crate::index_store::clause_views;
use crate::index_store::ClauseView;
use crate::index_store::FieldKind;
use crate::index_store::FieldSpec;
use crate::index_store::Hit;
use crate::index_store::IndexFault;
use crate::index_store::Query;
use crate::index_store::QueryClause;
use crate::index_store::StoredField;
use crate::index_store::StoredValue;
use crate::index_store::WriteOp;
use crate::index_store::Writer;
use crate::index_store::MAX_HITS;
use crate::query_plan::candidate_from_fields;
use crate::query_plan::candidate_of;
use crate::query_plan::first_i64;
use crate::query_plan::number_of;
use crate::query_plan::exact_search_fields;
use crate::query_plan::key_lookup;
use crate::query_plan::plan_enhanced_search;
use crate::query_plan::EnhancedPlan;
use crate::query_plan::CONTENT_FIELD;
use crate::query_plan::EXTENSION_FIELD;
use crate::query_plan::FILE_NAME_FIELD;
use crate::query_plan::MODIFIED_TIME_FIELD;
use crate::query_plan::PATH_FIELD;
use crate::query_plan::RECORD_TYPE_FIELD;
use crate::query_plan::SIZE_FIELD;
use crate::query_plan::URL_FIELD;
use crate::ranking::candidate_views;
use crate::ranking::is_ranked;
use crate::ranking::launcher_ranking;
use crate::ranking::rank_candidates;
use crate::ranking::result_views;
use crate::ranking::Candidate;
use crate::ranking::CandidateView;
use crate::ranking::Score;
use crate::ranking::SearchResult;
use crate::ranking::SearchResultView;
use crate::text::chars_of;
use crate::text::lowercase_of;
use crate::text::string_views;
use crate::tokenizer::split_words;
use crate::tokenizer::tokenize_query;
use crate::tokenizer::trim_chars;
use crate::tokenizer::trimmed;
use crate::tokenizer::words;

verus! {

/// The memory, in bytes, that a writer may use before it flushes.
pub const WRITER_BUDGET: usize = 50_000_000;

/// The kinds of error that the engine reports.
#[derive(Debug, Clone, Copy, PartialEq, Eq, Structural)]
pub enum ErrorKind {
    /// A path is missing, or is not what it has to be.
    NotFound,
    /// A query or a parameter is malformed.
    InvalidInput,
    /// The file system failed during a scan, a read or a commit.
    Io,
    /// The index on disk has an unexpected schema or layout.
    IndexCorruption,
    /// The lock of the writer could not be had.
    Locked,
    /// Something that should not happen.
    Internal,
}

/// An error of the engine: its kind, and a text for the user.
#[derive(Debug)]
pub struct EngineError {
    pub kind: ErrorKind,
    pub message: String,
}

/// Figures of the index.
#[derive(Debug)]
pub struct IndexStats {
    pub document_count: u64,
    pub size_bytes: u64,
    pub index_path: String,
}

/// How an attempt to open the index of an engine ended.
#[derive(Debug, Clone, Copy, PartialEq, Eq, Structural)]
pub enum Opened {
    /// The index is open.
    Ready,
    /// What is in the directory is no index of this engine: the directory
    /// is to be emptied and the index created anew.
    Recreate,
}

/// The kind under which a fault of the index is reported.
pub open spec fn kind_of(fault: IndexFault) -> ErrorKind {
    match fault {
        IndexFault::Io => ErrorKind::Io,
        IndexFault::Corruption => ErrorKind::IndexCorruption,
        IndexFault::Lock => ErrorKind::Locked,
        IndexFault::Argument => ErrorKind::InvalidInput,
        IndexFault::Other => ErrorKind::Internal,
    }
}

/// The kind under which a fault of the index is reported.
pub fn error_kind(fault: IndexFault) -> (r: ErrorKind)
    ensures
        r == kind_of(fault),
{
    match fault {
        IndexFault::Io => ErrorKind::Io,
        IndexFault::Corruption => ErrorKind::IndexCorruption,
        IndexFault::Lock => ErrorKind::Locked,
        IndexFault::Argument => ErrorKind::InvalidInput,
        IndexFault::Other => ErrorKind::Internal,
    }
}

/// The engine's error for a fault of the index and the text that the
/// index gave for it.
pub fn error_of_fault(fault: IndexFault, message: String) -> (r: EngineError)
    ensures
        r.kind == kind_of(fault),
        r.message@ == message@,
{
    EngineError { kind: error_kind(fault), message }
}

/// The engine's error for an error of the index: its kind is the kind
/// under which the fault of the error is reported. Which fault that is,
/// and the text, are the index's to say.
fn engine_error(error: &tantivy::TantivyError) -> (r: EngineError)
    ensures
        exists|fault: IndexFault| r.kind == #[trigger] kind_of(fault),
{
    error_of_fault(fault_of(error), error_message(error))
}

/// The error of an engine whose index is asked for before it was opened:
/// an internal error that says so.
pub open spec fn is_not_open(error: EngineError) -> bool {
    error.kind == ErrorKind::Internal && error.message@ == "the index is not open"@
}

/// The error of an engine whose index is asked for before it was opened.
fn not_open() -> (r: EngineError)
    ensures
        is_not_open(r),
{
    EngineError { kind: ErrorKind::Internal, message: "the index is not open".to_owned() }
}

impl EngineError {
    /// The text of the error for the user.
    pub fn to_message(&self) -> (r: String)
        ensures
            r@ == self.message@,
    {
        self.message.clone()
    }
}

/// The fields of a document, as the schema declares them.
pub open spec fn data_model() -> Seq<FieldSpec> {
    seq![
        FieldSpec { name: "path"@, kind: FieldKind::Keyword },
        FieldSpec { name: "file_name"@, kind: FieldKind::StoredText },
        FieldSpec { name: "content"@, kind: FieldKind::Text },
        FieldSpec { name: "extension"@, kind: FieldKind::Keyword },
        FieldSpec { name: "size"@, kind: FieldKind::StoredU64 },
        FieldSpec { name: "modified_time"@, kind: FieldKind::StoredI64 },
        FieldSpec { name: "url"@, kind: FieldKind::Keyword },
        FieldSpec { name: "record_type"@, kind: FieldKind::Keyword },
    ]
}

/// The field values that are written for a document.
pub open spec fn stored_fields(document: DocumentView) -> Seq<StoredField> {
    seq![
        StoredField { field: PATH_FIELD, value: StoredValue::Text(document.key) },
        StoredField { field: FILE_NAME_FIELD, value: StoredValue::Text(document.display_name) },
        StoredField { field: CONTENT_FIELD, value: StoredValue::Text(document.body) },
        StoredField { field: EXTENSION_FIELD, value: StoredValue::Text(document.category) },
        StoredField { field: SIZE_FIELD, value: StoredValue::U64(document.size) },
        StoredField { field: MODIFIED_TIME_FIELD, value: StoredValue::I64(document.mtime) },
        StoredField { field: URL_FIELD, value: StoredValue::Text(document.url) },
        StoredField { field: RECORD_TYPE_FIELD, value: StoredValue::Text(document.record_kind) },
    ]
}

/// What a request asks of the writer: a deletion goes by the key as a term
/// of the `path` field.
pub open spec fn write_op(op: OpView) -> WriteOp {
    match op {
        OpView::Delete { key } => WriteOp::Delete { field: "path"@, text: key },
        OpView::Add { document } => WriteOp::Add { fields: stored_fields(document) },
    }
}

/// What a list of requests asks of the writer.
pub open spec fn write_ops(ops: Seq<OpView>) -> Seq<WriteOp> {
    Seq::new(ops.len(), |i: int| write_op(ops[i]))
}

/// The path of the index below a data directory: `worksentry/index`.
pub open spec fn default_index_path(data_dir: Seq<char>) -> Seq<char> {
    if data_dir.len() == 0 || data_dir.last() == '/' || data_dir.last() == '\\' {
        data_dir + "worksentry/index"@
    } else {
        data_dir + "/worksentry/index"@
    }
}

/// The parts of a launcher query: the words of its lower-case form.
pub open spec fn launcher_parts(query: Seq<char>) -> Seq<Seq<char>> {
    words(lowercase_of(query))
}

/// A query without a character that is not white space.
pub open spec fn is_blank(query: Seq<char>) -> bool {
    trimmed(query).len() == 0
}

/// The result of a search that the index ranked, for the stored fields of
/// a hit and the bits of its score.
pub open spec fn ranked_result(candidate: CandidateView, score_bits: u32) -> SearchResultView {
    SearchResultView {
        path: candidate.path,
        file_name: candidate.file_name,
        score: Score::Ranked(score_bits),
        record_type: candidate.record_type,
    }
}

/// Builds the document of the index for a document of the library.
pub fn to_index_document(document: &Document) -> (r: tantivy::TantivyDocument)
    ensures
        document_fields(r) == stored_fields(document@),
{
    let mut out = new_document();
    add_text(&mut out, PATH_FIELD, document.key.as_str());
    add_text(&mut out, FILE_NAME_FIELD, document.display_name.as_str());
    add_text(&mut out, CONTENT_FIELD, document.body.as_str());
    add_text(&mut out, EXTENSION_FIELD, document.category.as_str());
    add_u64(&mut out, SIZE_FIELD, document.size);
    add_i64(&mut out, MODIFIED_TIME_FIELD, document.mtime);
    add_text(&mut out, URL_FIELD, document.url.as_str());
    add_text(&mut out, RECORD_TYPE_FIELD, document.record_kind.as_str());
    assert(document_fields(out) =~= stored_fields(document@));
    out
}

/// Whether a query has no character that is not white space.
pub fn is_blank_query(query: &str) -> (r: bool)
    ensures
        r == is_blank(query@),
{
    trim_chars(&chars_of(query)).len() == 0
}

/// Asks the requests of a plan of a writer, in order. It stops at the
/// first request that the writer refuses.
///
/// An empty plan succeeds. After a success the writer was asked the whole
/// plan; after an error it was asked the requests before the one that it
/// refused, and no other. Nothing is published.
pub fn apply_plan(writer: &mut Writer, plan: &Vec<PlannedOp>) -> (r: Result<(), EngineError>)
    ensures
        plan.len() == 0 ==> r is Ok,
        r is Ok ==> writer_operations(*final(writer)) == writer_operations(*old(writer))
            + write_ops(op_views(plan@)),
        r is Err ==> exists|k: int|
            0 <= k < plan.len() && writer_operations(*final(writer)) == writer_operations(
                *old(writer),
            ) + write_ops(#[trigger] op_views(plan@).take(k)),
        committed_operations(*final(writer)) == committed_operations(*old(writer)),
{
    let ghost start = writer_operations(*writer);
    let ghost all = op_views(plan@);
    let mut i: usize = 0;
    assert(start + write_ops(all.take(0)) =~= start);
    while i < plan.len()
        invariant
            i <= plan.len(),
            all == op_views(plan@),
            start == writer_operations(*old(writer)),
            committed_operations(*writer) == committed_operations(*old(writer)),
            writer_operations(*writer) == start + write_ops(all.take(i as int)),
        decreases plan.len() - i,
    {
        let ghost before = writer_operations(*writer);
        let asked = match &plan[i] {
            PlannedOp::Delete { key } => delete_term(writer, "path", key.as_str()),
            PlannedOp::Add { document } => add_document(writer, to_index_document(document)),
        };
        match asked {
            Ok(_) => {},
            Err(e) => {
                assert(writer_operations(*writer) == start + write_ops(all.take(i as int)));
                return Err(engine_error(&e));
            },
        }
        proof {
            assert(all[i as int] == plan@[i as int]@);
            assert(writer_operations(*writer) == before.push(write_op(all[i as int])));
            assert(write_ops(all.take(i + 1)) =~= write_ops(all.take(i as int)).push(
                write_op(all[i as int]),
            ));
        }
        i = i + 1;
    }
    assert(all.take(all.len() as int) =~= all);
    Ok(())
}

/// Turns the hits of a search into results, best first as the index gave
/// them.
pub fn results_of_hits(hits: &Vec<Hit>) -> (r: Vec<SearchResult>)
    ensures
        r.len() == hits.len(),
        forall|i: int|
            0 <= i < r.len() ==> (#[trigger] r@[i])@ == ranked_result(
                crate::query_plan::candidate_of(document_fields(hits@[i].document)),
                hits@[i].score_bits,
            ),
{
    let mut results: Vec<SearchResult> = Vec::new();
    let mut i: usize = 0;
    while i < hits.len()
        invariant
            i <= hits.len(),
            results.len() == i,
            forall|k: int|
                0 <= k < i ==> (#[trigger] results@[k])@ == ranked_result(
                    crate::query_plan::candidate_of(document_fields(hits@[k].document)),
                    hits@[k].score_bits,
                ),
        decreases hits.len() - i,
    {
        let found = candidate_from_fields(&field_values(&hits[i].document));
        results.push(
            SearchResult {
                path: found.path,
                file_name: found.file_name,
                score: Score::Ranked(hits[i].score_bits),
                record_type: found.record_type,
            },
        );
        i = i + 1;
    }
    results
}

/// The modification time that the first hit of a search holds, if the
/// search had a hit.
pub open spec fn first_hit_mtime(hits: Seq<Hit>) -> Option<i64> {
    if hits.len() > 0 {
        first_i64(document_fields(hits[0].document), MODIFIED_TIME_FIELD)
    } else {
        None
    }
}

/// The modification time that the first hit of a search holds.
pub fn mtime_of_first_hit(hits: &Vec<Hit>) -> (r: Option<i64>)
    ensures
        r == first_hit_mtime(hits@),
{
    if hits.len() > 0 {
        number_of(&field_values(&hits[0].document), MODIFIED_TIME_FIELD)
    } else {
        None
    }
}

/// What the documents of a segment tell a search, as the store could
/// read them: one candidate for each document that was read, in order.
pub open spec fn readable_candidates(
    documents: Seq<Result<tantivy::TantivyDocument, tantivy::TantivyError>>,
) -> Seq<CandidateView>
    decreases documents.len(),
{
    if documents.len() == 0 {
        Seq::empty()
    } else {
        match documents.last() {
            Ok(document) => readable_candidates(documents.drop_last()).push(
                candidate_of(document_fields(document)),
            ),
            Err(_) => readable_candidates(documents.drop_last()),
        }
    }
}

/// Appends what the documents of a segment tell a search to `found`. A
/// document that the store could not read is passed over.
pub fn push_candidates(
    documents: &Vec<Result<tantivy::TantivyDocument, tantivy::TantivyError>>,
    found: &mut Vec<Candidate>,
)
    ensures
        candidate_views(final(found)@) == candidate_views(old(found)@) + readable_candidates(
            documents@,
        ),
{
    let ghost start = candidate_views(found@);
    let mut d: usize = 0;
    proof {
        assert(documents@.take(0) =~= Seq::empty());
        assert(start + readable_candidates(documents@.take(0)) =~= start);
    }
    while d < documents.len()
        invariant
            d <= documents.len(),
            candidate_views(found@) == start + readable_candidates(documents@.take(d as int)),
        decreases documents.len() - d,
    {
        proof {
            assert(documents@.take(d + 1).drop_last() =~= documents@.take(d as int));
            assert(documents@.take(d + 1).last() == documents@[d as int]);
        }
        match &documents[d] {
            Ok(document) => {
                let ghost before = candidate_views(found@);
                let candidate = candidate_from_fields(&field_values(document));
                found.push(candidate);
                assert(candidate_views(found@) =~= before.push(candidate@));
            },
            Err(_) => {},
        }
        d = d + 1;
    }
    assert(documents@.take(documents.len() as int) =~= documents@);
}

/// The keys of a list of candidates, in order.
pub open spec fn candidate_keys(candidates: Seq<CandidateView>) -> Seq<Seq<char>> {
    candidates.map_values(|c: CandidateView| c.path)
}

/// The keys of a list of candidates, in order.
pub fn keys_of_candidates(candidates: &Vec<Candidate>) -> (r: Vec<String>)
    ensures
        string_views(r@) == candidate_keys(candidate_views(candidates@)),
{
    let mut keys: Vec<String> = Vec::new();
    let mut i: usize = 0;
    while i < candidates.len()
        invariant
            i <= candidates.len(),
            keys.len() == i,
            forall|k: int| 0 <= k < i ==> (#[trigger] keys@[k])@ == candidates@[k].path@,
        decreases candidates.len() - i,
    {
        keys.push(candidates[i].path.clone());
        i = i + 1;
    }
    assert(string_views(keys@) =~= candidate_keys(candidate_views(candidates@)));
    keys
}

/// Some writer has published exactly these requests, in this order.
pub open spec fn published(requests: Seq<WriteOp>) -> bool {
    exists|writer: Writer| #[trigger] committed_operations(writer) == requests
}

/// Some query of the index holds exactly these alternatives, in this order.
pub open spec fn asked(alternatives: Seq<ClauseView>) -> bool {
    exists|query: Query| #[trigger] query_alternatives(query) == alternatives
}

/// What an exact search asks: what the parser makes of the query as it
/// is, with the body and the display name as the fields that are searched
/// where the query names none.
pub open spec fn exact_query(query: Seq<char>) -> Seq<ClauseView> {
    seq![ClauseView::Parsed { fields: seq!["content"@, "file_name"@], text: query }]
}

/// What an enhanced search asks: the alternatives of the tokens of the
/// query, and what an exact search asks where the query has no token.
pub open spec fn enhanced_query(query: Seq<char>, fuzzy: bool, prefix: bool) -> Seq<ClauseView> {
    if crate::tokenizer::tokenize(query).len() == 0 {
        exact_query(query)
    } else {
        crate::query_plan::enhanced_clauses(crate::tokenizer::tokenize(query), fuzzy, prefix)
    }
}

/// How an attempt to open the index ends, given whether the directory was
/// there before, whether an index came back, and whether its schema is the
/// engine's: a new index, and an old one of the engine's schema, are
/// ready; anything else in a directory that was there asks for the
/// directory to be made anew; in a directory that was just made the
/// failure is an error.
pub open spec fn outcome_of_opening(existed: bool, opened: bool, schema_matches: bool) -> Option<
    Opened,
> {
    if opened && (!existed || schema_matches) {
        Some(Opened::Ready)
    } else if existed {
        Some(Opened::Recreate)
    } else {
        None
    }
}

/// Decides how an attempt to open the index ends; `None` stands for the
/// error of the attempt.
pub fn opening_outcome(existed: bool, opened: bool, schema_matches: bool) -> (r: Option<Opened>)
    ensures
        r == outcome_of_opening(existed, opened, schema_matches),
{
    if opened && (!existed || schema_matches) {
        Some(Opened::Ready)
    } else if existed {
        Some(Opened::Recreate)
    } else {
        None
    }
}

/// The query of the index for one alternative of a search.
pub fn query_of_clause(searcher: &tantivy::Searcher, clause: &QueryClause) -> (r: Result<
    Query,
    tantivy::TantivyError,
>)
    ensures
        r matches Ok(query) ==> query_alternatives(query) == seq![clause@],
{
    match clause {
        QueryClause::Fuzzy { field, text, distance, transposition } => fuzzy_term(
            searcher,
            field.as_str(),
            text.as_str(),
            *distance,
            *transposition,
        ),
        QueryClause::Exact { field, text } => exact_term(searcher, field.as_str(), text.as_str()),
    }
}

/// The query of the index for a document that matches one of the
/// alternatives, in their order. It stops at the first alternative that
/// the index refuses.
pub fn query_of_clauses(searcher: &tantivy::Searcher, clauses: &Vec<QueryClause>) -> (r: Result<
    Query,
    tantivy::TantivyError,
>)
    ensures
        r matches Ok(query) ==> query_alternatives(query) == clause_views(clauses@),
{
    let mut queries: Vec<Query> = Vec::new();
    let ghost all = clause_views(clauses@);
    let mut i: usize = 0;
    proof {
        assert(all.take(0) =~= Seq::<ClauseView>::empty());
    }
    while i < clauses.len()
        invariant
            i <= clauses.len(),
            all == clause_views(clauses@),
            joined_alternatives(queries@) == all.take(i as int),
        decreases clauses.len() - i,
    {
        match query_of_clause(searcher, &clauses[i]) {
            Ok(query) => {
                let ghost before = queries@;
                queries.push(query);
                proof {
                    assert(queries@.drop_last() =~= before);
                    assert(all.take(i + 1) =~= all.take(i as int) + seq![clauses@[i as int]@]);
                }
            },
            Err(e) => {
                return Err(e);
            },
        }
        i = i + 1;
    }
    assert(all.take(all.len() as int) =~= all);
    Ok(any_of(queries))
}

/// The engine: where its index lies, the schema of its documents, and the
/// index itself while it is open.
pub struct TantivyEngine {
    schema: tantivy::schema::Schema,
    index: Option<tantivy::Index>,
    index_path: String,
}

impl TantivyEngine {
    /// Whether the index is open.
    pub closed spec fn is_open(&self) -> bool {
        self.index is Some
    }

    /// Where the index lies.
    pub closed spec fn path(&self) -> Seq<char> {
        self.index_path@
    }

    /// The fields of the engine's schema.
    pub closed spec fn fields(&self) -> Seq<FieldSpec> {
        schema_fields(self.schema)
    }

    /// The fields of the index that is open, if one is.
    pub closed spec fn open_fields(&self) -> Option<Seq<FieldSpec>> {
        match self.index {
            Some(index) => Some(index_fields(index)),
            None => None,
        }
    }

    /// An engine for an index below a data directory. The index is not
    /// opened yet.
    pub fn new(data_dir: &str) -> (r: Result<Self, EngineError>)
        ensures
            r matches Ok(engine) && engine.path() == default_index_path(data_dir@)
                && !engine.is_open() && engine.fields() == data_model(),
    {
        let dir = chars_of(data_dir);
        let mut path = data_dir.to_owned();
        if dir.len() == 0 || dir[dir.len() - 1] == '/' || dir[dir.len() - 1] == '\\' {
            path.append("worksentry/index");
        } else {
            path.append("/worksentry/index");
        }
        Self::new_with_path(path)
    }

    /// An engine for the index at `index_path`. The index is not opened yet.
    pub fn new_with_path(index_path: String) -> (r: Result<Self, EngineError>)
        ensures
            r matches Ok(engine) && engine.path() == index_path@ && !engine.is_open()
                && engine.fields() == data_model(),
    {
        proof {
            reveal_strlit("path");
            reveal_strlit("file_name");
            reveal_strlit("content");
            reveal_strlit("extension");
            reveal_strlit("size");
            reveal_strlit("modified_time");
            reveal_strlit("url");
            reveal_strlit("record_type");
            assert("path"@.len() == 4 && "file_name"@.len() == 9 && "content"@.len() == 7
                && "extension"@.len() == 9 && "size"@.len() == 4 && "modified_time"@.len() == 13
                && "url"@.len() == 3 && "record_type"@.len() == 11);
            assert("path"@[0] == 'p' && "size"@[0] == 's' && "file_name"@[0] == 'f'
                && "extension"@[0] == 'e' && "content"@[0] == 'c' && "modified_time"@[0] == 'm'
                && "url"@[0] == 'u' && "record_type"@[0] == 'r');
        }
        let mut builder = new_schema_builder();
        let path_field = add_keyword_field(&mut builder, "path");
        let file_name_field = add_stored_text_field(&mut builder, "file_name");
        let content_field = add_text_field(&mut builder, "content");
        let extension_field = add_keyword_field(&mut builder, "extension");
        let size_field = add_stored_u64_field(&mut builder, "size");
        let modified_time_field = add_stored_i64_field(&mut builder, "modified_time");
        let url_field = add_keyword_field(&mut builder, "url");
        let record_type_field = add_keyword_field(&mut builder, "record_type");
        assert(path_field == PATH_FIELD && file_name_field == FILE_NAME_FIELD && content_field
            == CONTENT_FIELD && extension_field == EXTENSION_FIELD && size_field == SIZE_FIELD
            && modified_time_field == MODIFIED_TIME_FIELD && url_field == URL_FIELD
            && record_type_field == RECORD_TYPE_FIELD);
        assert(declared_fields(builder) =~= data_model());
        let schema = build_schema(builder);
        Ok(TantivyEngine { schema, index: None, index_path })
    }

    /// Where the index lies.
    pub fn get_index_path(&self) -> (r: &String)
        ensures
            r@ == self.path(),
    {
        &self.index_path
    }

    /// Whether the index is open.
    pub fn has_index(&self) -> (r: bool)
        ensures
            r == self.is_open(),
    {
        self.index.is_some()
    }

    /// Whether files with this extension are indexed at all.
    pub fn is_indexable_ext(&self, ext: &str) -> (r: bool)
        ensures
            r == is_recognized_extension(ext@),
    {
        crate::extensions::is_indexable_ext(ext)
    }

    /// Whether files with this extension are indexed with their contents.
    pub fn is_text_indexable(&self, ext: &str) -> (r: bool)
        ensures
            r == is_text_extension(ext@),
    {
        crate::extensions::is_text_indexable(ext)
    }

    /// Whether files with this extension are indexed by their name alone.
    pub fn is_filename_only_indexable(&self, ext: &str) -> (r: bool)
        ensures
            r == crate::extensions::is_name_only_extension(ext@),
    {
        crate::extensions::is_filename_only_indexable(ext)
    }

    /// Whether `text` holds a CJK ideograph.
    pub fn contains_chinese(text: &str) -> (r: bool)
        ensures
            r == crate::tokenizer::has_cjk(text@),
    {
        crate::tokenizer::contains_chinese(text)
    }

    /// Splits a query into its tokens.
    pub fn tokenize_query(&self, query: &str) -> (r: Vec<String>)
        ensures
            string_views(r@) == crate::tokenizer::tokenize(query@),
            forall|i: int| 0 <= i < r.len() ==> (#[trigger] r@[i])@.len() > 0,
    {
        tokenize_query(query)
    }

    /// Scores a lower-case name for the parts of a launcher query, in
    /// millionths of a point.
    pub fn calculate_launcher_score(query_parts: &[&str], file_name: &str) -> (r: Option<i128>)
        ensures
            crate::scorer::as_points(r) == crate::scorer::launcher_score(
                crate::text::str_views(query_parts@),
                file_name@,
            ),
    {
        crate::scorer::calculate_launcher_score(query_parts, file_name)
    }

    /// Opens the index in the engine's directory, which has to exist.
    ///
    /// `existed` says whether the directory was there before: a directory
    /// that was just made gets a new, empty index. In a directory that was
    /// there an index of the engine's schema is opened; anything else is
    /// left alone, and the answer is that the directory is to be emptied
    /// and the index created anew.
    ///
    /// Which of the two it is, is the disk's to say; how the answer follows
    /// from what the disk gave is decided by `opening_outcome`. An index
    /// that is ready has the fields of the engine's schema.
    pub fn attach(&mut self, existed: bool) -> (r: Result<Opened, EngineError>)
        ensures
            final(self).path() == old(self).path(),
            final(self).fields() == old(self).fields(),
            r matches Ok(Opened::Ready) ==> final(self).is_open() && final(self).open_fields()
                == Some(final(self).fields()),
            r matches Ok(Opened::Recreate) ==> existed && !final(self).is_open(),
            r is Err ==> !existed && !final(self).is_open(),
            existed ==> r is Ok,
    {
        self.index = None;
        let made = if existed {
            open_index(self.index_path.as_str())
        } else {
            create_index(self.index_path.as_str(), &self.schema)
        };
        match made {
            Ok(index) => {
                let matches = existed && has_schema(&index, &self.schema);
                match opening_outcome(existed, true, matches) {
                    Some(Opened::Ready) => {
                        self.index = Some(index);
                        Ok(Opened::Ready)
                    },
                    _ => Ok(Opened::Recreate),
                }
            },
            Err(e) => match opening_outcome(existed, false, false) {
                Some(outcome) => Ok(outcome),
                None => Err(engine_error(&e)),
            },
        }
    }

    /// Lets go of the index, so that its directory can be removed: the
    /// library's part of clearing the index.
    pub fn clear_index(&mut self)
        ensures
            !final(self).is_open(),
            final(self).path() == old(self).path(),
            final(self).fields() == old(self).fields(),
    {
        self.index = None;
    }

    /// A writer on the index, with the engine's memory budget, that has
    /// been asked nothing yet. The index takes one writer at a time.
    pub fn writer(&self) -> (r: Result<Writer, EngineError>)
        ensures
            !self.is_open() ==> (r matches Err(e) && is_not_open(e)),
            r matches Ok(w) ==> writer_operations(w) == Seq::<WriteOp>::empty()
                && committed_operations(w) == Seq::<WriteOp>::empty() && writer_budget(w)
                == WRITER_BUDGET,
    {
        match &self.index {
            Some(index) => match open_writer(index, WRITER_BUDGET) {
                Ok(w) => Ok(w),
                Err(e) => Err(engine_error(&e)),
            },
            None => Err(not_open()),
        }
    }

    /// Commits what was asked of a writer since its last commit: after a
    /// success all of it is published, in order, and readers opened from
    /// now on see it.
    pub fn commit(&self, writer: &mut Writer) -> (r: Result<(), EngineError>)
        ensures
            r is Ok ==> writer_operations(*final(writer)) == Seq::<WriteOp>::empty()
                && committed_operations(*final(writer)) == committed_operations(*old(writer))
                + writer_operations(*old(writer)),
    {
        match commit(writer) {
            Ok(_) => Ok(()),
            Err(e) => Err(engine_error(&e)),
        }
    }

    /// Asks the requests of a plan of a writer and commits. After a success
    /// what the writer had been asked before and the whole plan are
    /// published, in this order, and nothing is left to publish.
    pub fn publish_plan(&self, writer: &mut Writer, plan: &Vec<PlannedOp>) -> (r: Result<
        (),
        EngineError,
    >)
        ensures
            r is Ok ==> writer_operations(*final(writer)) == Seq::<WriteOp>::empty()
                && committed_operations(*final(writer)) == committed_operations(*old(writer))
                + writer_operations(*old(writer)) + write_ops(op_views(plan@)),
    {
        match apply_plan(writer, plan) {
            Ok(_) => {},
            Err(e) => {
                return Err(e);
            },
        }
        let ghost asked = writer_operations(*writer);
        let r = self.commit(writer);
        proof {
            if r is Ok {
                assert(committed_operations(*old(writer)) + asked =~= committed_operations(
                    *old(writer),
                ) + writer_operations(*old(writer)) + write_ops(op_views(plan@)));
            }
        }
        r
    }

    /// Asks the requests of a plan of a new writer and commits them. After
    /// a success the writer has published the plan, and nothing else.
    pub fn commit_plan(&self, plan: &Vec<PlannedOp>) -> (r: Result<(), EngineError>)
        ensures
            !self.is_open() ==> (r matches Err(e) && is_not_open(e)),
            r is Ok ==> published(write_ops(op_views(plan@))),
    {
        let mut writer = match self.writer() {
            Ok(w) => w,
            Err(e) => {
                return Err(e);
            },
        };
        let r = self.publish_plan(&mut writer, plan);
        proof {
            if r is Ok {
                assert(committed_operations(writer) =~= write_ops(op_views(plan@)));
            }
        }
        r
    }

    /// The modification time that the index holds for a path, if it holds
    /// a document for it: the index is asked for at most one document with
    /// the path as its key, and the answer is the time of the hit, if there
    /// is one.
    pub fn get_indexed_mtime(&self, path: &str) -> (r: Result<Option<i64>, EngineError>)
        ensures
            !self.is_open() ==> (r matches Err(e) && is_not_open(e)),
            r matches Ok(time) ==> exists|query: Query, hits: Seq<Hit>|
                #![trigger query_alternatives(query), first_hit_mtime(hits)]
                query_alternatives(query) == seq![
                    ClauseView::Exact { field: "path"@, text: path@ },
                ] && hits.len() <= 1 && time == first_hit_mtime(hits),
    {
        let index = match &self.index {
            Some(index) => index,
            None => {
                return Err(not_open());
            },
        };
        let searcher = match open_searcher(index) {
            Ok(s) => s,
            Err(e) => {
                return Err(engine_error(&e));
            },
        };
        let query = match query_of_clause(&searcher, &key_lookup(path)) {
            Ok(q) => q,
            Err(e) => {
                return Err(engine_error(&e));
            },
        };
        match run_query(&searcher, &query, 1) {
            Ok(hits) => {
                let time = mtime_of_first_hit(&hits);
                assert(query_alternatives(query) == seq![
                    ClauseView::Exact { field: "path"@, text: path@ },
                ] && hits@.len() <= 1 && time == first_hit_mtime(hits@));
                Ok(time)
            },
            Err(e) => Err(engine_error(&e)),
        }
    }

    /// Replaces the document of a file through a writer: the document with
    /// the file's path is deleted, then the file's document is added. After
    /// an error the writer was asked nothing, or the deletion alone.
    pub fn index_single_file(&self, writer: &mut Writer, file: &FileEntry) -> (r: Result<
        bool,
        EngineError,
    >)
        ensures
            r matches Ok(indexed) ==> indexed && writer_operations(*final(writer))
                == writer_operations(*old(writer)) + write_ops(upsert_ops(file_document(file@))),
            r is Err ==> writer_operations(*final(writer)) == writer_operations(*old(writer))
                || writer_operations(*final(writer)) == writer_operations(*old(writer)).push(
                WriteOp::Delete { field: "path"@, text: file@.path },
            ),
            committed_operations(*final(writer)) == committed_operations(*old(writer)),
    {
        let plan = plan_upsert(document_of_file(file));
        let ghost ops = op_views(plan@);
        match apply_plan(writer, &plan) {
            Ok(_) => Ok(true),
            Err(e) => {
                proof {
                    let start = writer_operations(*old(writer));
                    assert(ops.len() == 2);
                    assert(start + write_ops(ops.take(0)) =~= start);
                    assert(start + write_ops(ops.take(1)) =~= start.push(write_op(ops[0])));
                }
                Err(e)
            },
        }
    }

    /// Indexes one file and commits. A path that is no regular file, or
    /// whose extension is not recognized, is left out: the index is not
    /// touched and the answer is `false`. After the answer `true` a writer
    /// has published the replacement of the file's document, and nothing
    /// else.
    pub fn index_file(&self, file: &FileEntry) -> (r: Result<bool, EngineError>)
        ensures
            !is_eligible(file@) ==> r == Ok::<bool, EngineError>(false),
            r matches Ok(indexed) ==> indexed == is_eligible(file@),
            is_eligible(file@) && !self.is_open() ==> (r matches Err(e) && is_not_open(e)),
            r matches Ok(true) ==> published(write_ops(upsert_ops(file_document(file@)))),
    {
        if !is_indexable_file(file) {
            return Ok(false);
        }
        let plan = plan_file(file);
        match self.commit_plan(&plan) {
            Ok(_) => Ok(true),
            Err(e) => Err(e),
        }
    }

    /// Looks up, for each entry, the modification time that the index
    /// holds for its path. A file that is not eligible is not looked up,
    /// and a lookup that fails counts as a file that is not indexed.
    pub fn indexed_mtimes(&self, entries: &Vec<FileEntry>) -> (r: Vec<Option<i64>>)
        ensures
            r.len() == entries.len(),
            forall|i: int|
                0 <= i < entries.len() && !is_eligible(entries@[i]@) ==> (#[trigger] r@[i]) is None,
            !self.is_open() ==> forall|i: int| 0 <= i < r.len() ==> (#[trigger] r@[i]) is None,
    {
        let mut indexed: Vec<Option<i64>> = Vec::new();
        let mut i: usize = 0;
        while i < entries.len()
            invariant
                i <= entries.len(),
                indexed.len() == i,
                forall|k: int|
                    0 <= k < i && !is_eligible(entries@[k]@) ==> (#[trigger] indexed@[k]) is None,
                !self.is_open() ==> forall|k: int| 0 <= k < i ==> (#[trigger] indexed@[k]) is None,
            decreases entries.len() - i,
        {
            let found = if is_indexable_file(&entries[i]) {
                match self.get_indexed_mtime(entries[i].path.as_str()) {
                    Ok(t) => t,
                    Err(_) => None,
                }
            } else {
                None
            };
            indexed.push(found);
            i = i + 1;
        }
        indexed
    }

    /// Scans the entries of a folder through a writer: the document of
    /// each eligible file that is stale is replaced. The answer is the
    /// number of documents replaced. What is stale depends on what the
    /// index holds.
    ///
    /// Where no entry is an eligible file the scan succeeds, replaces
    /// nothing and asks nothing of the writer. After an error the writer
    /// was asked the requests of the scan before the one that it refused.
    pub fn index_folder_with_writer(&self, writer: &mut Writer, entries: &Vec<FileEntry>) -> (r:
        Result<usize, EngineError>)
        ensures
            none_eligible(entry_views(entries@)) ==> (r matches Ok(count) && count == 0
                && writer_operations(*final(writer)) == writer_operations(*old(writer))),
            r matches Ok(count) ==> exists|indexed: Seq<Option<i64>>|
                {
                    &&& indexed.len() == entries.len()
                    &&& count == #[trigger] folder_updates(entry_views(entries@), indexed)
                    &&& writer_operations(*final(writer)) == writer_operations(*old(writer))
                        + write_ops(folder_ops(entry_views(entries@), indexed))
                },
            r is Err ==> exists|indexed: Seq<Option<i64>>, k: int|
                {
                    &&& indexed.len() == entries.len()
                    &&& 0 <= k < folder_ops(entry_views(entries@), indexed).len()
                    &&& writer_operations(*final(writer)) == writer_operations(*old(writer))
                        + write_ops(#[trigger] folder_ops(entry_views(entries@), indexed).take(k))
                },
            committed_operations(*final(writer)) == committed_operations(*old(writer)),
    {
        let indexed = self.indexed_mtimes(entries);
        let plan = plan_folder(entries, &indexed);
        proof {
            if none_eligible(entry_views(entries@)) {
                lemma_scan_of_none_eligible(entry_views(entries@), indexed@);
            }
        }
        match apply_plan(writer, &plan) {
            Ok(_) => {
                let count: usize = plan.len() / 2;
                assert(count == folder_updates(entry_views(entries@), indexed@));
                proof {
                    let start = writer_operations(*old(writer));
                    if none_eligible(entry_views(entries@)) {
                        assert(start + write_ops(Seq::<OpView>::empty()) =~= start);
                    }
                }
                Ok(count)
            },
            Err(e) => {
                proof {
                    let ops = folder_ops(entry_views(entries@), indexed@);
                    let k = choose|k: int|
                        0 <= k < plan.len() && writer_operations(*writer) == writer_operations(
                            *old(writer),
                        ) + write_ops(#[trigger] op_views(plan@).take(k));
                    assert(plan.len() == ops.len());
                    assert(writer_operations(*writer) == writer_operations(*old(writer))
                        + write_ops(ops.take(k)));
                }
                Err(e)
            },
        }
    }

    /// Replaces the document of each eligible file that is stale, given for
    /// each entry the modification time that the index holds for its path,
    /// and commits once. The answer is the number of documents replaced.
    /// After a success a writer has published the requests of the scan, and
    /// nothing else.
    pub fn index_folder_as_planned(
        &self,
        entries: &Vec<FileEntry>,
        indexed: &Vec<Option<i64>>,
    ) -> (r: Result<usize, EngineError>)
        ensures
            !self.is_open() ==> (r matches Err(e) && is_not_open(e)),
            r matches Ok(count) ==> count == folder_updates(entry_views(entries@), indexed@),
            r is Ok ==> published(write_ops(folder_ops(entry_views(entries@), indexed@))),
    {
        let plan = plan_folder(entries, indexed);
        match self.commit_plan(&plan) {
            Ok(_) => Ok(plan.len() / 2),
            Err(e) => Err(e),
        }
    }

    /// Scans the entries of a folder with one writer and commits once.
    /// `is_dir` says whether the folder was found to be a directory: what
    /// is none is passed over, and the index is not touched.
    ///
    /// After a success on a folder a writer has published the requests of
    /// the scan, and nothing else: the replacement of the document of each
    /// eligible file that is stale by the times that the index gave.
    pub fn index_folder(&self, is_dir: bool, entries: &Vec<FileEntry>) -> (r: Result<
        (),
        EngineError,
    >)
        ensures
            !is_dir ==> r is Ok,
            is_dir && !self.is_open() ==> (r matches Err(e) && is_not_open(e)),
            is_dir && r is Ok ==> exists|indexed: Seq<Option<i64>>|
                indexed.len() == entries.len() && published(
                    write_ops(#[trigger] folder_ops(entry_views(entries@), indexed)),
                ),
    {
        if !is_dir {
            return Ok(());
        }
        let mut writer = match self.writer() {
            Ok(w) => w,
            Err(e) => {
                return Err(e);
            },
        };
        match self.index_folder_with_writer(&mut writer, entries) {
            Ok(_) => {},
            Err(e) => {
                return Err(e);
            },
        }
        let ghost asked_of = writer_operations(writer);
        let r = self.commit(&mut writer);
        proof {
            if r is Ok {
                let indexed = choose|indexed: Seq<Option<i64>>|
                    indexed.len() == entries.len() && asked_of == Seq::<WriteOp>::empty()
                        + write_ops(#[trigger] folder_ops(entry_views(entries@), indexed));
                assert(committed_operations(writer) =~= write_ops(
                    folder_ops(entry_views(entries@), indexed),
                ));
            }
        }
        r
    }

    /// Takes in browser records: the document of each record with a title
    /// is replaced, and all is committed at once. After a success a writer
    /// has published these replacements, in the order of the records, and
    /// nothing else.
    pub fn index_browser_data(&self, data: Vec<BrowserData>) -> (r: Result<(), EngineError>)
        ensures
            !self.is_open() ==> (r matches Err(e) && is_not_open(e)),
            r is Ok ==> published(write_ops(browser_ops(record_views(data@)))),
    {
        let plan = plan_browser(&data);
        self.commit_plan(&plan)
    }

    /// Removes the document of a path and commits. After a success a
    /// writer has published the deletion of the path, and nothing else.
    pub fn delete_file(&self, path: &str) -> (r: Result<(), EngineError>)
        ensures
            !self.is_open() ==> (r matches Err(e) && is_not_open(e)),
            r is Ok ==> published(write_ops(seq![OpView::Delete { key: path@ }])),
    {
        self.commit_plan(&plan_delete(path))
    }

    /// What the stored documents of the index tell a search, in the order
    /// of the store. A document that cannot be read is left out.
    pub fn live_candidates(&self) -> (r: Result<Vec<Candidate>, EngineError>)
        ensures
            !self.is_open() ==> (r matches Err(e) && is_not_open(e)),
    {
        let index = match &self.index {
            Some(index) => index,
            None => {
                return Err(not_open());
            },
        };
        let searcher = match open_searcher(index) {
            Ok(s) => s,
            Err(e) => {
                return Err(engine_error(&e));
            },
        };
        let segments = segment_readers(&searcher);
        let mut found: Vec<Candidate> = Vec::new();
        let mut s: usize = 0;
        while s < segments.len()
            invariant
                s <= segments.len(),
                self.is_open(),
            decreases segments.len() - s,
        {
            let documents = match live_documents(&segments[s]) {
                Ok(d) => d,
                Err(e) => {
                    return Err(engine_error(&e));
                },
            };
            push_candidates(&documents, &mut found);
            s = s + 1;
        }
        Ok(found)
    }

    /// Removes the documents whose key begins with the path of a folder
    /// and commits. The answer is the number of documents found under the
    /// folder: for some list of keys, which the index gave, a writer has
    /// published the deletion of each key of the list that begins with the
    /// folder's path, and nothing else, and the answer is their number.
    pub fn delete_folder(&self, folder: &str) -> (r: Result<usize, EngineError>)
        ensures
            !self.is_open() ==> (r matches Err(e) && is_not_open(e)),
            r matches Ok(count) ==> exists|keys: Seq<Seq<char>>|
                count == (#[trigger] delete_folder_ops(keys, folder@)).len() && published(
                    write_ops(delete_folder_ops(keys, folder@)),
                ),
    {
        let candidates = match self.live_candidates() {
            Ok(c) => c,
            Err(e) => {
                return Err(e);
            },
        };
        let keys = keys_of_candidates(&candidates);
        let plan = plan_delete_folder(&keys, folder);
        match self.commit_plan(&plan) {
            Ok(_) => {
                assert(plan.len() == delete_folder_ops(string_views(keys@), folder@).len());
                Ok(plan.len())
            },
            Err(e) => Err(e),
        }
    }

    /// How many documents the index holds.
    pub fn get_document_count(&self) -> (r: Result<u64, EngineError>)
        ensures
            !self.is_open() ==> (r matches Err(e) && is_not_open(e)),
    {
        let index = match &self.index {
            Some(index) => index,
            None => {
                return Err(not_open());
            },
        };
        match open_searcher(index) {
            Ok(searcher) => Ok(count_documents(&searcher)),
            Err(e) => Err(engine_error(&e)),
        }
    }

    /// The figures of the index. `size_bytes` is the size of the index
    /// directory as it was measured on disk.
    pub fn get_index_stats(&self, size_bytes: u64) -> (r: Result<IndexStats, EngineError>)
        ensures
            !self.is_open() ==> (r matches Err(e) && is_not_open(e)),
            r matches Ok(stats) ==> stats.size_bytes == size_bytes && stats.index_path@
                == self.path(),
    {
        match self.get_document_count() {
            Ok(document_count) => Ok(
                IndexStats { document_count, size_bytes, index_path: self.index_path.clone() },
            ),
            Err(e) => Err(e),
        }
    }

    /// Runs a query of the index for at most `limit` hits, and no more than
    /// `MAX_HITS`, and turns the hits into results.
    fn run(&self, searcher: &tantivy::Searcher, query: &Query, limit: usize) -> (r: Result<
        Vec<SearchResult>,
        EngineError,
    >)
        requires
            0 < limit,
        ensures
            r matches Ok(results) ==> results.len() <= limit && results.len() <= MAX_HITS
                && forall|i: int|
                0 <= i < results.len() ==> (#[trigger] results@[i]).score is Ranked,
    {
        let most: usize = if limit > MAX_HITS {
            MAX_HITS
        } else {
            limit
        };
        match run_query(searcher, query, most) {
            Ok(hits) => Ok(results_of_hits(&hits)),
            Err(e) => Err(engine_error(&e)),
        }
    }

    /// Exact search: the query is parsed against the body and the display
    /// name, and the index ranks what matches. A blank query, and a limit
    /// of 0, find nothing. After any other success the index was asked
    /// the parsed query.
    pub fn search(&self, query: &str, limit: usize) -> (r: Result<Vec<SearchResult>, EngineError>)
        ensures
            is_blank(query@) || limit == 0 ==> (r matches Ok(results) && results.len() == 0),
            r matches Ok(results) ==> results.len() <= limit && results.len() <= MAX_HITS
                && forall|i: int|
                0 <= i < results.len() ==> (#[trigger] results@[i]).score is Ranked,
            !is_blank(query@) && limit > 0 && !self.is_open() ==> (r matches Err(e) && is_not_open(
                e,
            )),
            r is Ok && !is_blank(query@) && limit > 0 ==> asked(exact_query(query@)),
    {
        if is_blank_query(query) {
            return Ok(Vec::new());
        }
        if limit == 0 {
            return Ok(Vec::new());
        }
        let index = match &self.index {
            Some(index) => index,
            None => {
                return Err(not_open());
            },
        };
        let searcher = match open_searcher(index) {
            Ok(s) => s,
            Err(e) => {
                return Err(engine_error(&e));
            },
        };
        match parse_query(&searcher, &exact_search_fields(), query) {
            Ok(parsed) => {
                assert(query_alternatives(parsed) == exact_query(query@));
                self.run(&searcher, &parsed, limit)
            },
            Err(e) => Err(engine_error(&e)),
        }
    }

    /// Enhanced search: each token of the query may match the body or the
    /// display name exactly or, where `fuzzy` is set, within a few edits.
    /// A blank query, and a limit of 0, find nothing; a query without
    /// tokens is searched exactly. After any other success the index was
    /// asked the alternatives of the tokens, planned with `fuzzy` and
    /// `prefix` as they were given.
    pub fn search_enhanced(&self, query: &str, limit: usize, fuzzy: bool, prefix: bool) -> (r:
        Result<Vec<SearchResult>, EngineError>)
        ensures
            is_blank(query@) || limit == 0 ==> (r matches Ok(results) && results.len() == 0),
            r matches Ok(results) ==> results.len() <= limit && results.len() <= MAX_HITS
                && forall|i: int|
                0 <= i < results.len() ==> (#[trigger] results@[i]).score is Ranked,
            !is_blank(query@) && limit > 0 && !self.is_open() ==> (r matches Err(e) && is_not_open(
                e,
            )),
            r is Ok && !is_blank(query@) && limit > 0 ==> asked(
                enhanced_query(query@, fuzzy, prefix),
            ),
    {
        if is_blank_query(query) {
            return Ok(Vec::new());
        }
        let tokens = tokenize_query(query);
        let clauses = match plan_enhanced_search(&tokens, fuzzy, prefix) {
            EnhancedPlan::Exact => {
                return self.search(query, limit);
            },
            EnhancedPlan::AnyOf(clauses) => clauses,
        };
        if limit == 0 {
            return Ok(Vec::new());
        }
        let index = match &self.index {
            Some(index) => index,
            None => {
                return Err(not_open());
            },
        };
        let searcher = match open_searcher(index) {
            Ok(s) => s,
            Err(e) => {
                return Err(engine_error(&e));
            },
        };
        match query_of_clauses(&searcher, &clauses) {
            Ok(any) => {
                assert(query_alternatives(any) == enhanced_query(query@, fuzzy, prefix));
                self.run(&searcher, &any, limit)
            },
            Err(e) => Err(engine_error(&e)),
        }
    }

    /// Launcher search: every stored document is scored against the parts
    /// of the lower-case query, and the best `limit` are handed out, best
    /// first. A blank query, and a limit of 0, find nothing.
    pub fn search_launcher(&self, query: &str, limit: usize) -> (r: Result<
        Vec<SearchResult>,
        EngineError,
    >)
        ensures
            is_blank(query@) || limit == 0 ==> (r matches Ok(results) && results.len() == 0),
            !is_blank(query@) && limit > 0 && !self.is_open() ==> (r matches Err(e) && is_not_open(
                e,
            )),
            r matches Ok(results) ==> results.len() <= limit && is_ranked(result_views(results@)),
            r matches Ok(results) ==> (!is_blank(query@) ==> exists|candidates: Seq<CandidateView>|
                result_views(results@) == #[trigger] launcher_ranking(
                    launcher_parts(query@),
                    candidates,
                    limit as int,
                )),
    {
        if is_blank_query(query) {
            let none: Vec<SearchResult> = Vec::new();
            assert(is_ranked(result_views(none@)));
            return Ok(none);
        }
        let parts = split_words(&lowercase_chars(&chars_of(query)));
        if limit == 0 {
            let none: Vec<SearchResult> = Vec::new();
            proof {
                let nothing = Seq::<CandidateView>::empty();
                assert(result_views(none@) =~= launcher_ranking(launcher_parts(query@), nothing, 0));
            }
            return Ok(none);
        }
        match self.live_candidates() {
            Ok(candidates) => {
                let results = rank_candidates(&parts, &candidates, limit);
                assert(result_views(results@) == launcher_ranking(
                    launcher_parts(query@),
                    candidate_views(candidates@),
                    limit as int,
                ));
                Ok(results)
            },
            Err(e) => Err(e),
        }
    }
}

} // verus!
