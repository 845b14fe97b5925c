//! What the enhanced search asks of the index for a tokenized query, and
//! what a stored document tells a search.

use vstd::prelude::*;
use vstd::utf8::encode_utf8;
use crate::index_store::clause_views;
use crate::index_store::field_views;
use crate::index_store::ClauseView;
use crate::index_store::FieldEntry;
use crate::index_store::FieldValue;
use crate::index_store::QueryClause;
use crate::index_store::StoredField;
use crate::index_store::StoredValue;
use crate::ranking::Candidate;
use crate::ranking::CandidateView;
use crate::text::lowercase_of;
use crate::text::string_views;
use crate::text::to_lowercase;

verus! {

/// The number of the field that holds the key of a document.
pub const PATH_FIELD: u32 = 0;

/// The number of the field that holds the display name.
pub const FILE_NAME_FIELD: u32 = 1;

/// The number of the field that holds the body.
pub const CONTENT_FIELD: u32 = 2;

/// The number of the field that holds the category.
pub const EXTENSION_FIELD: u32 = 3;

/// The number of the field that holds the size.
pub const SIZE_FIELD: u32 = 4;

/// The number of the field that holds the modification time.
pub const MODIFIED_TIME_FIELD: u32 = 5;

/// The number of the field that holds the URL.
pub const URL_FIELD: u32 = 6;

/// The number of the field that holds the kind of record.
pub const RECORD_TYPE_FIELD: u32 = 7;

/// The length of a string in bytes of UTF-8.
pub open spec fn byte_len(s: Seq<char>) -> nat {
    encode_utf8(s).len()
}

/// How many edits a fuzzy match of a token allows: one for a token of up
/// to 4 bytes, two for a longer one.
pub open spec fn fuzzy_distance(token: Seq<char>) -> u8 {
    distance_for(byte_len(token))
}

/// How many edits a fuzzy match of a token of `length` bytes allows.
pub open spec fn distance_for(length: nat) -> u8 {
    if length <= 4 {
        1
    } else {
        2
    }
}

/// The alternatives that a token of `length` bytes with the lower-case
/// form `text` adds for one field.
pub open spec fn field_clauses_with(
    field: Seq<char>,
    length: nat,
    text: Seq<char>,
    fuzzy: bool,
    prefix: bool,
) -> Seq<ClauseView> {
    (if fuzzy && length >= 3 {
        seq![
            ClauseView::Fuzzy { field, text, distance: distance_for(length), transposition: true },
        ]
    } else {
        Seq::empty()
    }) + (if prefix && length >= 2 {
        seq![ClauseView::Exact { field, text }]
    } else {
        Seq::empty()
    }) + seq![ClauseView::Exact { field, text }]
}

/// The alternatives that a token adds for one field: a fuzzy term, with a
/// swap of two neighbours counting as one edit, if fuzzy matching is on
/// and the token has at least 3 bytes, the lower-case
/// token as a term once more if prefix matching is on and the token has at
/// least 2 bytes, and always the lower-case token as a term.
pub open spec fn field_clauses(field: Seq<char>, token: Seq<char>, fuzzy: bool, prefix: bool) -> Seq<
    ClauseView,
> {
    field_clauses_with(field, byte_len(token), lowercase_of(token), fuzzy, prefix)
}

/// The alternatives that a token adds: those for the body, then those for
/// the display name.
pub open spec fn token_clauses(token: Seq<char>, fuzzy: bool, prefix: bool) -> Seq<ClauseView> {
    field_clauses("content"@, token, fuzzy, prefix) + field_clauses(
        "file_name"@,
        token,
        fuzzy,
        prefix,
    )
}

/// The alternatives of an enhanced search: those of each token, in order.
pub open spec fn enhanced_clauses(tokens: Seq<Seq<char>>, fuzzy: bool, prefix: bool) -> Seq<
    ClauseView,
>
    decreases tokens.len(),
{
    if tokens.len() == 0 {
        Seq::empty()
    } else {
        enhanced_clauses(tokens.drop_last(), fuzzy, prefix) + token_clauses(
            tokens.last(),
            fuzzy,
            prefix,
        )
    }
}

/// An enhanced search has no alternatives exactly when it has no tokens.
pub proof fn lemma_enhanced_clauses_len(tokens: Seq<Seq<char>>, fuzzy: bool, prefix: bool)
    ensures
        enhanced_clauses(tokens, fuzzy, prefix).len() >= 2 * tokens.len(),
        enhanced_clauses(tokens, fuzzy, prefix).len() <= 6 * tokens.len(),
    decreases tokens.len(),
{
    if tokens.len() > 0 {
        lemma_enhanced_clauses_len(tokens.drop_last(), fuzzy, prefix);
    }
}

/// Appends the alternatives of a token for one field.
pub fn push_field_clauses(
    clauses: &mut Vec<QueryClause>,
    field: &str,
    token: &str,
    fuzzy: bool,
    prefix: bool,
)
    ensures
        clause_views(final(clauses)@) == clause_views(old(clauses)@) + field_clauses(
            field@,
            token@,
            fuzzy,
            prefix,
        ),
{
    let length: usize = token.as_bytes().len();
    assert(length == byte_len(token@));
    let lower = to_lowercase(token);
    push_field_clauses_with(clauses, field, length, lower.as_str(), fuzzy, prefix);
}

/// Appends the alternatives that a token of `length` bytes with the
/// lower-case form `text` adds for one field.
pub fn push_field_clauses_with(
    clauses: &mut Vec<QueryClause>,
    field: &str,
    length: usize,
    text: &str,
    fuzzy: bool,
    prefix: bool,
)
    ensures
        clause_views(final(clauses)@) == clause_views(old(clauses)@) + field_clauses_with(
            field@,
            length as nat,
            text@,
            fuzzy,
            prefix,
        ),
{
    let ghost before = clause_views(clauses@);
    if fuzzy && length >= 3 {
        let distance: u8 = if length <= 4 {
            1
        } else {
            2
        };
        clauses.push(
            QueryClause::Fuzzy {
                field: field.to_owned(),
                text: text.to_owned(),
                distance,
                transposition: true,
            },
        );
    }
    if prefix && length >= 2 {
        clauses.push(QueryClause::Exact { field: field.to_owned(), text: text.to_owned() });
    }
    clauses.push(QueryClause::Exact { field: field.to_owned(), text: text.to_owned() });
    assert(clause_views(clauses@) =~= before + field_clauses_with(
        field@,
        length as nat,
        text@,
        fuzzy,
        prefix,
    ));
}

/// The alternatives of an enhanced search for the tokens of a query.
pub fn plan_enhanced(tokens: &Vec<String>, fuzzy: bool, prefix: bool) -> (r: Vec<QueryClause>)
    ensures
        clause_views(r@) == enhanced_clauses(string_views(tokens@), fuzzy, prefix),
        r.len() == 0 <==> tokens.len() == 0,
{
    let mut clauses: Vec<QueryClause> = Vec::new();
    let ghost all = string_views(tokens@);
    let mut i: usize = 0;
    proof {
        assert(all.take(0) =~= Seq::<Seq<char>>::empty());
        assert(clause_views(clauses@) =~= Seq::<ClauseView>::empty());
    }
    while i < tokens.len()
        invariant
            i <= tokens.len(),
            all == string_views(tokens@),
            clause_views(clauses@) == enhanced_clauses(all.take(i as int), fuzzy, prefix),
        decreases tokens.len() - i,
    {
        proof {
            assert(all.take(i + 1).drop_last() =~= all.take(i as int));
            assert(all.take(i + 1).last() == tokens@[i as int]@);
        }
        let ghost before = clause_views(clauses@);
        push_field_clauses(&mut clauses, "content", tokens[i].as_str(), fuzzy, prefix);
        push_field_clauses(&mut clauses, "file_name", tokens[i].as_str(), fuzzy, prefix);
        assert(clause_views(clauses@) =~= before + token_clauses(tokens@[i as int]@, fuzzy, prefix));
        i = i + 1;
    }
    proof {
        assert(all.take(all.len() as int) =~= all);
        lemma_enhanced_clauses_len(all, fuzzy, prefix);
    }
    clauses
}

/// How an enhanced search is run.
#[derive(Debug)]
pub enum EnhancedPlan {
    /// As an exact search of the query as it is: it has no token.
    Exact,
    /// As a search for a document that matches one of these alternatives.
    AnyOf(Vec<QueryClause>),
}

/// How an enhanced search is run, as mathematical values.
pub enum EnhancedPlanView {
    Exact,
    AnyOf(Seq<ClauseView>),
}

impl View for EnhancedPlan {
    type V = EnhancedPlanView;

    open spec fn view(&self) -> EnhancedPlanView {
        match self {
            EnhancedPlan::Exact => EnhancedPlanView::Exact,
            EnhancedPlan::AnyOf(clauses) => EnhancedPlanView::AnyOf(clause_views(clauses@)),
        }
    }
}

/// How an enhanced search is run for the tokens of a query: without a
/// token no alternative can be built and the query is searched exactly;
/// else the search is for the alternatives of the tokens.
pub open spec fn enhanced_plan(tokens: Seq<Seq<char>>, fuzzy: bool, prefix: bool) -> EnhancedPlanView {
    if tokens.len() == 0 {
        EnhancedPlanView::Exact
    } else {
        EnhancedPlanView::AnyOf(enhanced_clauses(tokens, fuzzy, prefix))
    }
}

/// Decides how an enhanced search is run for the tokens of a query.
pub fn plan_enhanced_search(tokens: &Vec<String>, fuzzy: bool, prefix: bool) -> (r: EnhancedPlan)
    ensures
        r@ == enhanced_plan(string_views(tokens@), fuzzy, prefix),
{
    if tokens.len() == 0 {
        EnhancedPlan::Exact
    } else {
        EnhancedPlan::AnyOf(plan_enhanced(tokens, fuzzy, prefix))
    }
}

/// The alternative that looks a document up by its key: the key as a
/// term of the `path` field.
pub fn key_lookup(path: &str) -> (r: QueryClause)
    ensures
        r@ == (ClauseView::Exact { field: "path"@, text: path@ }),
{
    QueryClause::Exact { field: "path".to_owned(), text: path.to_owned() }
}

/// The fields that an exact search looks in where the query names none:
/// the body and the display name.
pub fn exact_search_fields() -> (r: Vec<String>)
    ensures
        string_views(r@) == seq!["content"@, "file_name"@],
{
    let mut fields: Vec<String> = Vec::new();
    fields.push("content".to_owned());
    fields.push("file_name".to_owned());
    assert(string_views(fields@) =~= seq!["content"@, "file_name"@]);
    fields
}

/// The text that a document holds last under `field`, or `default` when
/// it holds none.
pub open spec fn last_text(fields: Seq<StoredField>, field: u32, default: Seq<char>) -> Seq<char>
    decreases fields.len(),
{
    if fields.len() == 0 {
        default
    } else {
        match fields.last().value {
            StoredValue::Text(text) if fields.last().field == field => text,
            _ => last_text(fields.drop_last(), field, default),
        }
    }
}

/// The signed number that a document holds first under `field`.
pub open spec fn first_i64(fields: Seq<StoredField>, field: u32) -> Option<i64>
    decreases fields.len(),
{
    if fields.len() == 0 {
        None
    } else {
        match fields[0].value {
            StoredValue::I64(number) if fields[0].field == field => Some(number),
            _ => first_i64(fields.drop_first(), field),
        }
    }
}

/// What the stored fields of a document tell a search. A document without
/// a kind of record counts as a file.
pub open spec fn candidate_of(fields: Seq<StoredField>) -> CandidateView {
    CandidateView {
        path: last_text(fields, PATH_FIELD, Seq::empty()),
        file_name: last_text(fields, FILE_NAME_FIELD, Seq::empty()),
        record_type: last_text(fields, RECORD_TYPE_FIELD, "file"@),
    }
}

/// The text that a document holds last under `field`, or `default`.
pub fn text_of(fields: &Vec<FieldEntry>, field: u32, default: &str) -> (r: String)
    ensures
        r@ == last_text(field_views(fields@), field, default@),
{
    let ghost all = field_views(fields@);
    let mut at: usize = fields.len();
    assert(all.take(all.len() as int) =~= all);
    while at > 0
        invariant
            at <= fields.len(),
            all == field_views(fields@),
            last_text(all, field, default@) == last_text(all.take(at as int), field, default@),
        decreases at,
    {
        proof {
            assert(all.take(at as int).last() == fields@[at - 1]@);
            assert(all.take(at as int).drop_last() =~= all.take(at - 1));
        }
        if fields[at - 1].field == field {
            match &fields[at - 1].value {
                FieldValue::Text(text) => {
                    return text.clone();
                },
                _ => {},
            }
        }
        at = at - 1;
    }
    assert(all.take(0) =~= Seq::<StoredField>::empty());
    default.to_owned()
}

/// The signed number that a document holds first under `field`.
pub fn number_of(fields: &Vec<FieldEntry>, field: u32) -> (r: Option<i64>)
    ensures
        r == first_i64(field_views(fields@), field),
{
    let ghost all = field_views(fields@);
    let mut at: usize = 0;
    assert(all.skip(0) =~= all);
    while at < fields.len()
        invariant
            at <= fields.len(),
            all == field_views(fields@),
            first_i64(all, field) == first_i64(all.skip(at as int), field),
        decreases fields.len() - at,
    {
        proof {
            assert(all.skip(at as int)[0] == fields@[at as int]@);
            assert(all.skip(at as int).drop_first() =~= all.skip(at + 1));
        }
        if fields[at].field == field {
            match &fields[at].value {
                FieldValue::I64(number) => {
                    return Some(*number);
                },
                _ => {},
            }
        }
        at = at + 1;
    }
    assert(all.skip(all.len() as int) =~= Seq::<StoredField>::empty());
    None
}

/// What the stored fields of a document tell a search.
pub fn candidate_from_fields(fields: &Vec<FieldEntry>) -> (r: Candidate)
    ensures
        r@ == candidate_of(field_views(fields@)),
{
    proof {
        reveal_strlit("");
        assert(""@ =~= Seq::<char>::empty());
    }
    Candidate {
        path: text_of(fields, PATH_FIELD, ""),
        file_name: text_of(fields, FILE_NAME_FIELD, ""),
        record_type: text_of(fields, RECORD_TYPE_FIELD, "file"),
    }
}

} // verus!
