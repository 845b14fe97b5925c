//! The full-text index. Everything here is a thin, unproved statement about
//! the `tantivy` crate: its types, and one small function for each of its
//! functions that the engine calls. The engine's own logic is verified
//! against these statements and holds nothing of its own here.

use vstd::prelude::*;
use crate::text::string_views;

verus! {

/// Most hits that one search hands out. The index sets aside room for twice
/// as many when a search starts.
pub const MAX_HITS: usize = 1_000_000;

/// How a field of the schema is kept.
#[derive(Debug, Clone, Copy, PartialEq, Eq, Structural)]
pub enum FieldKind {
    /// Stored, and found by its whole text as one exact term.
    Keyword,
    /// Stored, and cut into words that are searched.
    StoredText,
    /// Cut into words that are searched; not stored.
    Text,
    /// Stored unsigned number.
    StoredU64,
    /// Stored signed number.
    StoredI64,
}

/// A field of the schema: its name and how it is kept.
pub struct FieldSpec {
    pub name: Seq<char>,
    pub kind: FieldKind,
}

/// A value read from or written to a field of a document.
#[derive(Debug)]
pub enum FieldValue {
    Text(String),
    U64(u64),
    I64(i64),
    /// A value of a kind that this library never writes.
    Other,
}

/// A field value as a mathematical value.
pub enum StoredValue {
    Text(Seq<char>),
    U64(u64),
    I64(i64),
    Other,
}

impl View for FieldValue {
    type V = StoredValue;

    open spec fn view(&self) -> StoredValue {
        match self {
            FieldValue::Text(s) => StoredValue::Text(s@),
            FieldValue::U64(n) => StoredValue::U64(*n),
            FieldValue::I64(n) => StoredValue::I64(*n),
            FieldValue::Other => StoredValue::Other,
        }
    }
}

/// One field of a document: the number of the field in the schema, and
/// the value.
#[derive(Debug)]
pub struct FieldEntry {
    pub field: u32,
    pub value: FieldValue,
}

/// A field entry as a mathematical value.
pub struct StoredField {
    pub field: u32,
    pub value: StoredValue,
}

impl View for FieldEntry {
    type V = StoredField;

    open spec fn view(&self) -> StoredField {
        StoredField { field: self.field, value: self.value@ }
    }
}

/// The views of a list of field entries.
pub open spec fn field_views(entries: Seq<FieldEntry>) -> Seq<StoredField> {
    entries.map_values(|e: FieldEntry| e@)
}

/// Something asked of a writer.
pub enum WriteOp {
    /// Delete every document that holds `text` as a term of the field
    /// named `field`.
    Delete { field: Seq<char>, text: Seq<char> },
    /// Add a document with these fields.
    Add { fields: Seq<StoredField> },
}

/// One alternative of a search: a term that a document may hold in a field.
#[derive(Debug)]
pub enum QueryClause {
    /// A term within `distance` edits of `text`. Where `transposition` is
    /// set, a swap of two neighbours counts as one edit.
    Fuzzy { field: String, text: String, distance: u8, transposition: bool },
    /// The term `text` itself.
    Exact { field: String, text: String },
}

/// What a query asks for, as a mathematical value.
pub enum ClauseView {
    /// A term of `field` within `distance` edits of `text`.
    Fuzzy { field: Seq<char>, text: Seq<char>, distance: u8, transposition: bool },
    /// The term `text` in `field`.
    Exact { field: Seq<char>, text: Seq<char> },
    /// What the query parser of the index makes of `text`, with `fields`
    /// as the fields that are searched where the text names none.
    Parsed { fields: Seq<Seq<char>>, text: Seq<char> },
}

impl View for QueryClause {
    type V = ClauseView;

    open spec fn view(&self) -> ClauseView {
        match self {
            QueryClause::Fuzzy { field, text, distance, transposition } => ClauseView::Fuzzy {
                field: field@,
                text: text@,
                distance: *distance,
                transposition: *transposition,
            },
            QueryClause::Exact { field, text } => ClauseView::Exact { field: field@, text: text@ },
        }
    }
}

/// The views of a list of query clauses.
pub open spec fn clause_views(clauses: Seq<QueryClause>) -> Seq<ClauseView> {
    clauses.map_values(|c: QueryClause| c@)
}

/// What went wrong in the index, as far as the engine tells errors apart.
#[derive(Debug, Clone, Copy, PartialEq, Eq, Structural)]
pub enum IndexFault {
    Io,
    Corruption,
    Lock,
    Argument,
    Other,
}

#[verifier::external_type_specification]
#[verifier::external_body]
pub struct ExIndex(tantivy::Index);

#[verifier::external_type_specification]
#[verifier::external_body]
pub struct ExSchema(tantivy::schema::Schema);

#[verifier::external_type_specification]
#[verifier::external_body]
pub struct ExSchemaBuilder(tantivy::schema::SchemaBuilder);

#[verifier::external_type_specification]
#[verifier::external_body]
pub struct ExTantivyDocument(tantivy::TantivyDocument);

#[verifier::external_type_specification]
#[verifier::external_body]
pub struct ExTantivyError(tantivy::TantivyError);

#[verifier::external_type_specification]
#[verifier::external_body]
pub struct ExSearcher(tantivy::Searcher);

#[verifier::external_type_specification]
#[verifier::external_body]
pub struct ExSegmentReader(tantivy::SegmentReader);

/// A `tantivy::IndexWriter` for `tantivy::TantivyDocument`s. The verifier
/// does not take the writer's own declaration, so it is held here.
#[verifier::external_body]
pub struct Writer {
    inner: tantivy::IndexWriter<tantivy::TantivyDocument>,
}

/// A boxed `tantivy::query::Query`. The verifier does not take the
/// declaration of a boxed trait object, so it is held here.
#[verifier::external_body]
pub struct Query {
    inner: Box<dyn tantivy::query::Query>,
}

/// A document found by a search, with the bits of the single-precision
/// score that the index gave it.
pub struct Hit {
    pub score_bits: u32,
    pub document: tantivy::TantivyDocument,
}

/// The fields declared to a schema builder so far, in order.
pub uninterp spec fn declared_fields(builder: tantivy::schema::SchemaBuilder) -> Seq<FieldSpec>;

/// The fields of a schema, in the order of their numbers.
pub uninterp spec fn schema_fields(schema: tantivy::schema::Schema) -> Seq<FieldSpec>;

/// The fields of the schema that an index was created or opened with.
pub uninterp spec fn index_fields(index: tantivy::Index) -> Seq<FieldSpec>;

/// What a query asks for: the alternatives of which a document has to
/// match one, in the order in which the query was put together.
pub uninterp spec fn query_alternatives(query: Query) -> Seq<ClauseView>;

/// The alternatives of a list of queries, one list after the other.
pub open spec fn joined_alternatives(queries: Seq<Query>) -> Seq<ClauseView>
    decreases queries.len(),
{
    if queries.len() == 0 {
        Seq::empty()
    } else {
        joined_alternatives(queries.drop_last()) + query_alternatives(queries.last())
    }
}

/// The field values of a document, in the order in which they were added.
pub uninterp spec fn document_fields(document: tantivy::TantivyDocument) -> Seq<StoredField>;

/// What was asked of a writer since it was opened or last committed, in order.
pub uninterp spec fn writer_operations(writer: Writer) -> Seq<WriteOp>;

/// What the commits of a writer have published since it was opened, in
/// the order in which it was asked.
pub uninterp spec fn committed_operations(writer: Writer) -> Seq<WriteOp>;

/// The memory budget, in bytes, that a writer was opened with.
pub uninterp spec fn writer_budget(writer: Writer) -> usize;

/// Whether a schema takes a field of this name: the name is not empty, does
/// not begin with `-`, and is not declared yet.
pub open spec fn can_declare(fields: Seq<FieldSpec>, name: Seq<char>) -> bool {
    &&& name.len() > 0
    &&& name[0] != '-'
    &&& fields.len() < u32::MAX
    &&& forall|i: int| 0 <= i < fields.len() ==> (#[trigger] fields[i]).name != name
}

/// `tantivy::schema::Schema::builder`: a builder without fields.
#[verifier::external_body]
pub(crate) fn new_schema_builder() -> (r: tantivy::schema::SchemaBuilder)
    ensures
        declared_fields(r) == Seq::<FieldSpec>::empty(),
{
    tantivy::schema::Schema::builder()
}

/// `SchemaBuilder::add_text_field` with `STRING | STORED`. The builder
/// panics on a name it refuses or holds already. The new field gets the
/// next number, counting from 0.
#[verifier::external_body]
pub(crate) fn add_keyword_field(builder: &mut tantivy::schema::SchemaBuilder, name: &str) -> (id:
    u32)
    requires
        can_declare(declared_fields(*old(builder)), name@),
    ensures
        id == declared_fields(*old(builder)).len(),
        declared_fields(*final(builder)) == declared_fields(*old(builder)).push(
            FieldSpec { name: name@, kind: FieldKind::Keyword },
        ),
{
    builder.add_text_field(name, tantivy::schema::STRING | tantivy::schema::STORED).field_id()
}

/// `SchemaBuilder::add_text_field` with `TEXT | STORED`; numbered as above.
#[verifier::external_body]
pub(crate) fn add_stored_text_field(builder: &mut tantivy::schema::SchemaBuilder, name: &str) -> (id:
    u32)
    requires
        can_declare(declared_fields(*old(builder)), name@),
    ensures
        id == declared_fields(*old(builder)).len(),
        declared_fields(*final(builder)) == declared_fields(*old(builder)).push(
            FieldSpec { name: name@, kind: FieldKind::StoredText },
        ),
{
    builder.add_text_field(name, tantivy::schema::TEXT | tantivy::schema::STORED).field_id()
}

/// `SchemaBuilder::add_text_field` with `TEXT`; numbered as above.
#[verifier::external_body]
pub(crate) fn add_text_field(builder: &mut tantivy::schema::SchemaBuilder, name: &str) -> (id: u32)
    requires
        can_declare(declared_fields(*old(builder)), name@),
    ensures
        id == declared_fields(*old(builder)).len(),
        declared_fields(*final(builder)) == declared_fields(*old(builder)).push(
            FieldSpec { name: name@, kind: FieldKind::Text },
        ),
{
    builder.add_text_field(name, tantivy::schema::TEXT).field_id()
}

/// `SchemaBuilder::add_u64_field` with `STORED`; numbered as above.
#[verifier::external_body]
pub(crate) fn add_stored_u64_field(builder: &mut tantivy::schema::SchemaBuilder, name: &str) -> (id:
    u32)
    requires
        can_declare(declared_fields(*old(builder)), name@),
    ensures
        id == declared_fields(*old(builder)).len(),
        declared_fields(*final(builder)) == declared_fields(*old(builder)).push(
            FieldSpec { name: name@, kind: FieldKind::StoredU64 },
        ),
{
    builder.add_u64_field(name, tantivy::schema::STORED).field_id()
}

/// `SchemaBuilder::add_i64_field` with `STORED`; numbered as above.
#[verifier::external_body]
pub(crate) fn add_stored_i64_field(builder: &mut tantivy::schema::SchemaBuilder, name: &str) -> (id:
    u32)
    requires
        can_declare(declared_fields(*old(builder)), name@),
    ensures
        id == declared_fields(*old(builder)).len(),
        declared_fields(*final(builder)) == declared_fields(*old(builder)).push(
            FieldSpec { name: name@, kind: FieldKind::StoredI64 },
        ),
{
    builder.add_i64_field(name, tantivy::schema::STORED).field_id()
}

/// `SchemaBuilder::build`: the schema of the declared fields.
#[verifier::external_body]
pub(crate) fn build_schema(builder: tantivy::schema::SchemaBuilder) -> (r: tantivy::schema::Schema)
    ensures
        schema_fields(r) == declared_fields(builder),
{
    builder.build()
}

/// `tantivy::Index::create_in_dir` with a copy of the schema. Whether an
/// index comes back depends on the disk; one that does has the schema it
/// was created with.
#[verifier::external_body]
pub(crate) fn create_index(path: &str, schema: &tantivy::schema::Schema) -> (r: Result<
    tantivy::Index,
    tantivy::TantivyError,
>)
    ensures
        r matches Ok(index) ==> index_fields(index) == schema_fields(*schema),
{
    tantivy::Index::create_in_dir(path, schema.clone())
}

/// `tantivy::Index::open_in_dir`. What comes back depends on the disk.
#[verifier::external_body]
pub(crate) fn open_index(path: &str) -> (r: Result<tantivy::Index, tantivy::TantivyError>) {
    tantivy::Index::open_in_dir(path)
}

/// `Index::schema` compared with `==`: whether the index has this schema.
/// Equal schemas have the same fields.
#[verifier::external_body]
pub(crate) fn has_schema(index: &tantivy::Index, schema: &tantivy::schema::Schema) -> (r: bool)
    ensures
        r ==> index_fields(*index) == schema_fields(*schema),
{
    index.schema() == *schema
}

/// `Index::writer` with a memory budget in bytes. A writer that was just
/// opened has been asked nothing and has published nothing, and its budget
/// is the one it was given.
#[verifier::external_body]
pub(crate) fn open_writer(index: &tantivy::Index, budget: usize) -> (r: Result<
    Writer,
    tantivy::TantivyError,
>)
    ensures
        r matches Ok(w) ==> writer_operations(w) == Seq::<WriteOp>::empty()
            && committed_operations(w) == Seq::<WriteOp>::empty() && writer_budget(w) == budget,
{
    Ok(Writer { inner: index.writer(budget)? })
}

/// `IndexWriter::delete_term` on a text term of the field that
/// `Schema::get_field` finds under `field` in the writer's own index.
/// Without such a field nothing is asked of the writer. Nothing is
/// published before a commit.
#[verifier::external_body]
pub(crate) fn delete_term(writer: &mut Writer, field: &str, text: &str) -> (r: Result<
    (),
    tantivy::TantivyError,
>)
    ensures
        r is Ok ==> writer_operations(*final(writer)) == writer_operations(*old(writer)).push(
            WriteOp::Delete { field: field@, text: text@ },
        ),
        r is Err ==> writer_operations(*final(writer)) == writer_operations(*old(writer)),
        committed_operations(*final(writer)) == committed_operations(*old(writer)),
{
    let field = writer.inner.index().schema().get_field(field)?;
    writer.inner.delete_term(tantivy::Term::from_field_text(field, text));
    Ok(())
}

/// `IndexWriter::add_document`. An error means that the document was not
/// taken. Nothing is published before a commit.
#[verifier::external_body]
pub(crate) fn add_document(writer: &mut Writer, document: tantivy::TantivyDocument) -> (r: Result<
    (),
    tantivy::TantivyError,
>)
    ensures
        r is Ok ==> writer_operations(*final(writer)) == writer_operations(*old(writer)).push(
            WriteOp::Add { fields: document_fields(document) },
        ),
        r is Err ==> writer_operations(*final(writer)) == writer_operations(*old(writer)),
        committed_operations(*final(writer)) == committed_operations(*old(writer)),
{
    writer.inner.add_document(document)?;
    Ok(())
}

/// `IndexWriter::commit`: publishes what was asked of the writer since its
/// last commit. After a commit that succeeded all of it is published and
/// nothing is left to publish.
#[verifier::external_body]
pub(crate) fn commit(writer: &mut Writer) -> (r: Result<(), tantivy::TantivyError>)
    ensures
        r is Ok ==> writer_operations(*final(writer)) == Seq::<WriteOp>::empty()
            && committed_operations(*final(writer)) == committed_operations(*old(writer))
            + writer_operations(*old(writer)),
{
    writer.inner.commit()?;
    Ok(())
}

/// `TantivyDocument::new`: a document without fields.
#[verifier::external_body]
pub(crate) fn new_document() -> (r: tantivy::TantivyDocument)
    ensures
        document_fields(r) == Seq::<StoredField>::empty(),
{
    tantivy::TantivyDocument::new()
}

/// `TantivyDocument::add_text`: one more field value at the end.
#[verifier::external_body]
pub(crate) fn add_text(document: &mut tantivy::TantivyDocument, field: u32, text: &str)
    ensures
        document_fields(*final(document)) == document_fields(*old(document)).push(
            StoredField { field, value: StoredValue::Text(text@) },
        ),
{
    document.add_text(tantivy::schema::Field::from_field_id(field), text);
}

/// `TantivyDocument::add_u64`: one more field value at the end.
#[verifier::external_body]
pub(crate) fn add_u64(document: &mut tantivy::TantivyDocument, field: u32, value: u64)
    ensures
        document_fields(*final(document)) == document_fields(*old(document)).push(
            StoredField { field, value: StoredValue::U64(value) },
        ),
{
    document.add_u64(tantivy::schema::Field::from_field_id(field), value);
}

/// `TantivyDocument::add_i64`: one more field value at the end.
#[verifier::external_body]
pub(crate) fn add_i64(document: &mut tantivy::TantivyDocument, field: u32, value: i64)
    ensures
        document_fields(*final(document)) == document_fields(*old(document)).push(
            StoredField { field, value: StoredValue::I64(value) },
        ),
{
    document.add_i64(tantivy::schema::Field::from_field_id(field), value);
}

/// `TantivyDocument::field_values`, each value copied into a `FieldEntry`:
/// texts and the two kinds of whole number as they are, any other kind as
/// `Other`.
#[verifier::external_body]
pub(crate) fn field_values(document: &tantivy::TantivyDocument) -> (r: Vec<FieldEntry>)
    ensures
        field_views(r@) == document_fields(*document),
{
    document.field_values().iter().map(|entry| FieldEntry {
        field: entry.field.field_id(),
        value: match &entry.value {
            tantivy::schema::OwnedValue::Str(text) => FieldValue::Text(text.clone()),
            tantivy::schema::OwnedValue::U64(number) => FieldValue::U64(*number),
            tantivy::schema::OwnedValue::I64(number) => FieldValue::I64(*number),
            _ => FieldValue::Other,
        },
    }).collect()
}

/// `Index::reader`, then `IndexReader::searcher`: a view of what was
/// committed last. What it holds depends on the disk.
#[verifier::external_body]
pub(crate) fn open_searcher(index: &tantivy::Index) -> (r: Result<
    tantivy::Searcher,
    tantivy::TantivyError,
>) {
    Ok(index.reader()?.searcher())
}

/// `Searcher::num_docs`: how many documents the searcher sees.
#[verifier::external_body]
pub(crate) fn count_documents(searcher: &tantivy::Searcher) -> (r: u64) {
    searcher.num_docs()
}

/// `QueryParser::for_index` with the fields that `Schema::get_field` finds
/// under `fields`, then `QueryParser::parse_query` on `text`: the query
/// that the parser makes of the text with these default fields.
#[verifier::external_body]
pub(crate) fn parse_query(searcher: &tantivy::Searcher, fields: &Vec<String>, text: &str) -> (r:
    Result<Query, tantivy::TantivyError>)
    ensures
        r matches Ok(query) ==> query_alternatives(query) == seq![
            ClauseView::Parsed { fields: string_views(fields@), text: text@ },
        ],
{
    let mut defaults = Vec::new();
    for name in fields.iter() {
        defaults.push(searcher.schema().get_field(name)?);
    }
    let parser = tantivy::query::QueryParser::for_index(searcher.index(), defaults);
    Ok(Query { inner: parser.parse_query(text)? })
}

/// `TermQuery::new` on a text term of the field that `Schema::get_field`
/// finds under `field`: documents that hold `text` as a term of the field.
#[verifier::external_body]
pub(crate) fn exact_term(searcher: &tantivy::Searcher, field: &str, text: &str) -> (r: Result<
    Query,
    tantivy::TantivyError,
>)
    ensures
        r matches Ok(query) ==> query_alternatives(query) == seq![
            ClauseView::Exact { field: field@, text: text@ },
        ],
{
    let term = tantivy::Term::from_field_text(searcher.schema().get_field(field)?, text);
    let basic = tantivy::schema::IndexRecordOption::Basic;
    Ok(Query { inner: Box::new(tantivy::query::TermQuery::new(term, basic)) })
}

/// `FuzzyTermQuery::new` on a text term of the field that
/// `Schema::get_field` finds under `field`: documents that hold a term of
/// the field within `distance` edits of `text`, a swap of two neighbours
/// counting as one edit where `transposition` is set.
#[verifier::external_body]
pub(crate) fn fuzzy_term(
    searcher: &tantivy::Searcher,
    field: &str,
    text: &str,
    distance: u8,
    transposition: bool,
) -> (r: Result<Query, tantivy::TantivyError>)
    ensures
        r matches Ok(query) ==> query_alternatives(query) == seq![
            ClauseView::Fuzzy { field: field@, text: text@, distance, transposition },
        ],
{
    let term = tantivy::Term::from_field_text(searcher.schema().get_field(field)?, text);
    let query = tantivy::query::FuzzyTermQuery::new(term, distance, transposition);
    Ok(Query { inner: Box::new(query) })
}

/// `BooleanQuery::union`: documents that match at least one of the
/// queries. Its alternatives are those of the queries, in their order.
#[verifier::external_body]
pub(crate) fn any_of(queries: Vec<Query>) -> (r: Query)
    ensures
        query_alternatives(r) == joined_alternatives(queries@),
{
    let parts = queries.into_iter().map(|query| query.inner).collect();
    Query { inner: Box::new(tantivy::query::BooleanQuery::union(parts)) }
}

/// `Searcher::search` with `TopDocs::with_limit`, then `Searcher::doc` for
/// each hit: at most `limit` documents, best first. `TopDocs` panics on a
/// limit of 0 and sets aside room for twice the limit.
#[verifier::external_body]
pub(crate) fn run_query(searcher: &tantivy::Searcher, query: &Query, limit: usize) -> (r: Result<
    Vec<Hit>,
    tantivy::TantivyError,
>)
    requires
        0 < limit <= MAX_HITS,
    ensures
        r matches Ok(hits) ==> hits.len() <= limit,
{
    let top = tantivy::collector::TopDocs::with_limit(limit);
    let mut hits = Vec::new();
    for (score, address) in searcher.search(&*query.inner, &top)? {
        hits.push(Hit { score_bits: score.to_bits(), document: searcher.doc(address)? });
    }
    Ok(hits)
}

/// `Searcher::segment_readers`, each reader cloned.
#[verifier::external_body]
pub(crate) fn segment_readers(searcher: &tantivy::Searcher) -> (r: Vec<tantivy::SegmentReader>) {
    searcher.segment_readers().to_vec()
}

/// `SegmentReader::get_store_reader` with room for one block, then
/// `StoreReader::iter` with the segment's own set of live documents: the
/// stored documents of the segment that are not deleted, in the order of
/// the store, each as the store could read it.
#[verifier::external_body]
pub(crate) fn live_documents(segment: &tantivy::SegmentReader) -> (r: Result<
    Vec<Result<tantivy::TantivyDocument, tantivy::TantivyError>>,
    tantivy::TantivyError,
>) {
    let store = segment.get_store_reader(1)?;
    Ok(store.iter::<tantivy::TantivyDocument>(segment.alive_bitset()).collect())
}

/// `TantivyError`'s `Display` text.
#[verifier::external_body]
pub(crate) fn error_message(error: &tantivy::TantivyError) -> (r: String) {
    error.to_string()
}

/// Tells the variants of `TantivyError` apart that the engine reports
/// under a kind of their own.
#[verifier::external_body]
pub(crate) fn fault_of(error: &tantivy::TantivyError) -> (r: IndexFault) {
    match error {
        tantivy::TantivyError::IoError(_) => IndexFault::Io,
        tantivy::TantivyError::DataCorruption(_) => IndexFault::Corruption,
        tantivy::TantivyError::LockFailure(_, _) => IndexFault::Lock,
        tantivy::TantivyError::InvalidArgument(_) => IndexFault::Argument,
        _ => IndexFault::Other,
    }
}

} // verus!
