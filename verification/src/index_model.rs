//! What the indexer asks of a writer, as plain values, and what those
//! requests do to the documents of an index.

use vstd::prelude::*;
use crate::document::browser_document;
use crate::document::document_of_file;
use crate::document::document_of_record;
use crate::document::file_document;
use crate::document::is_eligible;
use crate::document::is_indexable_file;
use crate::document::is_stale;
use crate::document::needs_update;
use crate::document::BrowserData;
use crate::document::BrowserDataView;
use crate::document::Document;
use crate::document::DocumentView;
use crate::document::FileEntry;
use crate::document::FileEntryView;
use crate::text::chars_of;
use crate::text::occurs_at;
use crate::text::starts_with;
use crate::text::string_views;

verus! {

/// A request to a writer.
#[derive(Debug)]
pub enum PlannedOp {
    /// Delete the documents with this key.
    Delete { key: String },
    /// Add this document.
    Add { document: Document },
}

/// A request as mathematical values.
pub enum OpView {
    Delete { key: Seq<char> },
    Add { document: DocumentView },
}

impl View for PlannedOp {
    type V = OpView;

    open spec fn view(&self) -> OpView {
        match self {
            PlannedOp::Delete { key } => OpView::Delete { key: key@ },
            PlannedOp::Add { document } => OpView::Add { document: document@ },
        }
    }
}

/// The views of a list of requests.
pub open spec fn op_views(ops: Seq<PlannedOp>) -> Seq<OpView> {
    ops.map_values(|op: PlannedOp| op@)
}

/// The views of a list of file entries.
pub open spec fn entry_views(entries: Seq<FileEntry>) -> Seq<FileEntryView> {
    entries.map_values(|e: FileEntry| e@)
}

/// The views of a list of browser records.
pub open spec fn record_views(records: Seq<BrowserData>) -> Seq<BrowserDataView> {
    records.map_values(|r: BrowserData| r@)
}

/// What holds of every document but those with the key `key`.
pub open spec fn has_other_key(key: Seq<char>) -> spec_fn(DocumentView) -> bool {
    |d: DocumentView| d.key != key
}

/// What holds of the documents with the key `key`.
pub open spec fn has_key(key: Seq<char>) -> spec_fn(DocumentView) -> bool {
    |d: DocumentView| d.key == key
}

/// What holds of every document whose key does not begin with `prefix`.
pub open spec fn is_outside(prefix: Seq<char>) -> spec_fn(DocumentView) -> bool {
    |d: DocumentView| !occurs_at(d.key, prefix, 0)
}

/// The documents of an index after one request, committed: a deletion
/// takes out every document with the key, an addition puts the document
/// behind the others.
pub open spec fn apply_op(docs: Seq<DocumentView>, op: OpView) -> Seq<DocumentView> {
    match op {
        OpView::Delete { key } => docs.filter(has_other_key(key)),
        OpView::Add { document } => docs.push(document),
    }
}

/// The documents of an index after a list of requests, in order, committed.
pub open spec fn apply_ops(docs: Seq<DocumentView>, ops: Seq<OpView>) -> Seq<DocumentView>
    decreases ops.len(),
{
    if ops.len() == 0 {
        docs
    } else {
        apply_op(apply_ops(docs, ops.drop_last()), ops.last())
    }
}

/// No two documents have the same key.
pub open spec fn unique_keys(docs: Seq<DocumentView>) -> bool {
    forall|i: int, j: int|
        0 <= i < j < docs.len() ==> (#[trigger] docs[i]).key != (#[trigger] docs[j]).key
}

/// How many documents have the key `key`.
pub open spec fn count_key(docs: Seq<DocumentView>, key: Seq<char>) -> nat {
    docs.filter(has_key(key)).len()
}

/// The first document with the key `key`, if there is one.
pub open spec fn lookup(docs: Seq<DocumentView>, key: Seq<char>) -> Option<DocumentView>
    decreases docs.len(),
{
    if docs.len() == 0 {
        None
    } else if docs[0].key == key {
        Some(docs[0])
    } else {
        lookup(docs.drop_first(), key)
    }
}

/// The modification time that the index holds for `key`: that of the first
/// document with the key, if there is one.
pub open spec fn indexed_mtime(docs: Seq<DocumentView>, key: Seq<char>) -> Option<i64> {
    match lookup(docs, key) {
        Some(document) => Some(document.mtime),
        None => None,
    }
}

/// Replacing a document: delete by its key, then add it.
pub open spec fn upsert_ops(document: DocumentView) -> Seq<OpView> {
    seq![OpView::Delete { key: document.key }, OpView::Add { document }]
}

/// What indexing one file asks: nothing of a file that is not eligible,
/// else the replacement of its document.
pub open spec fn file_ops(file: FileEntryView) -> Seq<OpView> {
    if is_eligible(file) {
        upsert_ops(file_document(file))
    } else {
        Seq::empty()
    }
}

/// The modification time that is known to be indexed for the entry at
/// `i`: none where the list of known times ends before it.
pub open spec fn known(indexed: Seq<Option<i64>>, i: int) -> Option<i64> {
    if 0 <= i < indexed.len() {
        indexed[i]
    } else {
        None
    }
}

/// What a folder scan asks, given for each entry the modification time
/// that the index holds for it: the replacement of the document of each
/// eligible file that is stale, in the order of the entries.
pub open spec fn folder_ops(entries: Seq<FileEntryView>, indexed: Seq<Option<i64>>) -> Seq<OpView>
    decreases entries.len(),
{
    if entries.len() == 0 {
        Seq::empty()
    } else {
        let last = entries.len() - 1;
        let before = folder_ops(entries.drop_last(), indexed);
        if is_eligible(entries[last]) && is_stale(entries[last].mtime, known(indexed, last)) {
            before + upsert_ops(file_document(entries[last]))
        } else {
            before
        }
    }
}

/// No entry is an eligible file.
pub open spec fn none_eligible(entries: Seq<FileEntryView>) -> bool {
    forall|i: int| 0 <= i < entries.len() ==> !is_eligible(#[trigger] entries[i])
}

/// How many documents a folder scan replaces.
pub open spec fn folder_updates(entries: Seq<FileEntryView>, indexed: Seq<Option<i64>>) -> nat
    decreases entries.len(),
{
    if entries.len() == 0 {
        0
    } else {
        let last = entries.len() - 1;
        folder_updates(entries.drop_last(), indexed) + if is_eligible(entries[last]) && is_stale(
            entries[last].mtime,
            known(indexed, last),
        ) {
            1nat
        } else {
            0nat
        }
    }
}

/// A scan of entries of which none is an eligible file asks nothing,
/// whatever the index holds.
pub proof fn lemma_scan_of_none_eligible(entries: Seq<FileEntryView>, indexed: Seq<Option<i64>>)
    requires
        none_eligible(entries),
    ensures
        folder_ops(entries, indexed) == Seq::<OpView>::empty(),
        folder_updates(entries, indexed) == 0,
    decreases entries.len(),
{
    if entries.len() > 0 {
        let earlier = entries.drop_last();
        assert forall|i: int| 0 <= i < earlier.len() implies !is_eligible(#[trigger] earlier[i]) by {
            assert(earlier[i] == entries[i]);
        }
        lemma_scan_of_none_eligible(earlier, indexed);
        assert(!is_eligible(entries[entries.len() - 1]));
    }
}

/// What taking in browser records asks: the replacement of the document
/// of each record that has a title, in the order of the records.
pub open spec fn browser_ops(records: Seq<BrowserDataView>) -> Seq<OpView>
    decreases records.len(),
{
    if records.len() == 0 {
        Seq::empty()
    } else if records.last().title.len() > 0 {
        browser_ops(records.drop_last()) + upsert_ops(browser_document(records.last()))
    } else {
        browser_ops(records.drop_last())
    }
}

/// What removing a folder asks, given the keys of the documents of the
/// index: the deletion of each key that begins with the folder's path.
pub open spec fn delete_folder_ops(keys: Seq<Seq<char>>, prefix: Seq<char>) -> Seq<OpView>
    decreases keys.len(),
{
    if keys.len() == 0 {
        Seq::empty()
    } else if occurs_at(keys.last(), prefix, 0) {
        delete_folder_ops(keys.drop_last(), prefix).push(OpView::Delete { key: keys.last() })
    } else {
        delete_folder_ops(keys.drop_last(), prefix)
    }
}

/// Whether a scan replaces the document of a file, given the modification
/// time that the index holds for its path.
pub fn wants_update(file: &FileEntry, indexed: Option<i64>) -> (r: bool)
    ensures
        r == (is_eligible(file@) && is_stale(file@.mtime, indexed)),
{
    is_indexable_file(file) && needs_update(file.mtime, indexed)
}

/// The requests that replace a document.
pub fn plan_upsert(document: Document) -> (r: Vec<PlannedOp>)
    ensures
        op_views(r@) == upsert_ops(document@),
{
    let mut plan: Vec<PlannedOp> = Vec::new();
    plan.push(PlannedOp::Delete { key: document.key.clone() });
    plan.push(PlannedOp::Add { document });
    assert(op_views(plan@) =~= upsert_ops(document@));
    plan
}

/// Appends the requests that replace a document to a plan.
pub fn push_upsert(plan: &mut Vec<PlannedOp>, document: Document)
    ensures
        op_views(final(plan)@) == op_views(old(plan)@) + upsert_ops(document@),
        final(plan).len() == old(plan).len() + 2,
{
    plan.push(PlannedOp::Delete { key: document.key.clone() });
    plan.push(PlannedOp::Add { document });
    assert(op_views(plan@) =~= op_views(old(plan)@) + upsert_ops(document@));
}

/// The requests of removing the document of a key: one deletion.
pub fn plan_delete(path: &str) -> (r: Vec<PlannedOp>)
    ensures
        op_views(r@) == seq![OpView::Delete { key: path@ }],
{
    let mut plan: Vec<PlannedOp> = Vec::new();
    plan.push(PlannedOp::Delete { key: path.to_owned() });
    assert(op_views(plan@) =~= seq![OpView::Delete { key: path@ }]);
    plan
}

/// The requests of indexing one file.
pub fn plan_file(file: &FileEntry) -> (r: Vec<PlannedOp>)
    ensures
        op_views(r@) == file_ops(file@),
{
    if is_indexable_file(file) {
        plan_upsert(document_of_file(file))
    } else {
        let plan: Vec<PlannedOp> = Vec::new();
        assert(op_views(plan@) =~= Seq::<OpView>::empty());
        plan
    }
}

/// The requests of a folder scan. `indexed` holds, for each entry, the
/// modification time that the index holds for its path; an entry beyond
/// its end counts as not indexed.
pub fn plan_folder(entries: &Vec<FileEntry>, indexed: &Vec<Option<i64>>) -> (r: Vec<PlannedOp>)
    ensures
        op_views(r@) == folder_ops(entry_views(entries@), indexed@),
        r.len() == 2 * folder_updates(entry_views(entries@), indexed@),
{
    let mut plan: Vec<PlannedOp> = Vec::new();
    let ghost all = entry_views(entries@);
    let mut i: usize = 0;
    proof {
        assert(all.take(0) =~= Seq::<FileEntryView>::empty());
        assert(op_views(plan@) =~= Seq::<OpView>::empty());
    }
    while i < entries.len()
        invariant
            i <= entries.len(),
            all == entry_views(entries@),
            op_views(plan@) == folder_ops(all.take(i as int), indexed@),
            plan.len() == 2 * folder_updates(all.take(i as int), indexed@),
        decreases entries.len() - i,
    {
        proof {
            assert(all.take(i + 1).drop_last() =~= all.take(i as int));
            assert(all.take(i + 1)[i as int] == entries@[i as int]@);
        }
        let time: Option<i64> = if i < indexed.len() {
            indexed[i]
        } else {
            None
        };
        if wants_update(&entries[i], time) {
            push_upsert(&mut plan, document_of_file(&entries[i]));
        }
        i = i + 1;
    }
    assert(all.take(all.len() as int) =~= all);
    plan
}

/// The requests of taking in browser records.
pub fn plan_browser(records: &Vec<BrowserData>) -> (r: Vec<PlannedOp>)
    ensures
        op_views(r@) == browser_ops(record_views(records@)),
{
    let mut plan: Vec<PlannedOp> = Vec::new();
    let ghost all = record_views(records@);
    let mut i: usize = 0;
    proof {
        assert(all.take(0) =~= Seq::<BrowserDataView>::empty());
        assert(op_views(plan@) =~= Seq::<OpView>::empty());
    }
    while i < records.len()
        invariant
            i <= records.len(),
            all == record_views(records@),
            op_views(plan@) == browser_ops(all.take(i as int)),
        decreases records.len() - i,
    {
        proof {
            assert(all.take(i + 1).drop_last() =~= all.take(i as int));
            assert(all.take(i + 1).last() == records@[i as int]@);
        }
        if records[i].title.as_str().unicode_len() > 0 {
            push_upsert(&mut plan, document_of_record(&records[i]));
        }
        i = i + 1;
    }
    assert(all.take(all.len() as int) =~= all);
    plan
}

/// The requests of removing a folder. `keys` holds the keys of the
/// documents of the index.
pub fn plan_delete_folder(keys: &Vec<String>, folder: &str) -> (r: Vec<PlannedOp>)
    ensures
        op_views(r@) == delete_folder_ops(string_views(keys@), folder@),
{
    let mut plan: Vec<PlannedOp> = Vec::new();
    let prefix = chars_of(folder);
    let ghost all = string_views(keys@);
    let mut i: usize = 0;
    proof {
        assert(all.take(0) =~= Seq::<Seq<char>>::empty());
        assert(op_views(plan@) =~= Seq::<OpView>::empty());
    }
    while i < keys.len()
        invariant
            i <= keys.len(),
            all == string_views(keys@),
            prefix@ == folder@,
            op_views(plan@) == delete_folder_ops(all.take(i as int), folder@),
        decreases keys.len() - i,
    {
        proof {
            assert(all.take(i + 1).drop_last() =~= all.take(i as int));
            assert(all.take(i + 1).last() == keys@[i as int]@);
        }
        if starts_with(&chars_of(keys[i].as_str()), &prefix) {
            let ghost before = op_views(plan@);
            plan.push(PlannedOp::Delete { key: keys[i].clone() });
            assert(op_views(plan@) =~= before.push(OpView::Delete { key: keys@[i as int]@ }));
        }
        i = i + 1;
    }
    assert(all.take(all.len() as int) =~= all);
    plan
}

} // verus!
