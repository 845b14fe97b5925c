//! What the requests of the indexer do to the documents of an index: the
//! laws of replacing, deleting and scanning, over the model of
//! `index_model`.

use vstd::prelude::*;
use crate::document::file_document;
use crate::document::is_eligible;
use crate::document::is_stale;
use crate::document::DocumentView;
use crate::document::FileEntryView;
use crate::index_model::apply_op;
use crate::index_model::apply_ops;
use crate::index_model::count_key;
use crate::index_model::delete_folder_ops;
use crate::index_model::file_ops;
use crate::index_model::folder_ops;
use crate::index_model::folder_updates;
use crate::index_model::has_other_key;
use crate::index_model::indexed_mtime;
use crate::index_model::is_outside;
use crate::index_model::known;
use crate::index_model::lookup;
use crate::index_model::unique_keys;
use crate::index_model::upsert_ops;
use crate::index_model::OpView;
use crate::text::occurs_at;

verus! {

/// A call on the index that concerns one path.
pub enum Call {
    /// `index_file` on what was found at the path.
    Index { file: FileEntryView },
    /// `delete_file` on the path.
    Delete,
}

/// What a call on the path `path` asks of the index.
pub open spec fn call_ops(call: Call, path: Seq<char>) -> Seq<OpView> {
    match call {
        Call::Index { file } => file_ops(file),
        Call::Delete => seq![OpView::Delete { key: path }],
    }
}

/// The documents of an index after a list of calls on one path, each
/// committed before the next.
pub open spec fn after_calls(docs: Seq<DocumentView>, calls: Seq<Call>, path: Seq<char>) -> Seq<
    DocumentView,
>
    decreases calls.len(),
{
    if calls.len() == 0 {
        docs
    } else {
        apply_ops(after_calls(docs, calls.drop_last(), path), call_ops(calls.last(), path))
    }
}

/// The keys of the documents of an index, in order.
pub open spec fn keys_of(docs: Seq<DocumentView>) -> Seq<Seq<char>> {
    docs.map_values(|d: DocumentView| d.key)
}

/// Two predicates that agree on the members of a sequence filter it alike.
pub proof fn lemma_filter_agree<A>(s: Seq<A>, p: spec_fn(A) -> bool, q: spec_fn(A) -> bool)
    requires
        forall|i: int| 0 <= i < s.len() ==> p(#[trigger] s[i]) == q(s[i]),
    ensures
        s.filter(p) == s.filter(q),
    decreases s.len(),
{
    reveal(Seq::filter);
    if s.len() > 0 {
        assert forall|i: int| 0 <= i < s.drop_last().len() implies p(#[trigger] s.drop_last()[i])
            == q(s.drop_last()[i]) by {
            assert(s.drop_last()[i] == s[i]);
        }
        lemma_filter_agree(s.drop_last(), p, q);
        assert(p(s[s.len() - 1]) == q(s[s.len() - 1]));
    }
}

/// A predicate that holds of every member of a sequence filters nothing out.
pub proof fn lemma_filter_all<A>(s: Seq<A>, p: spec_fn(A) -> bool)
    requires
        forall|i: int| 0 <= i < s.len() ==> p(#[trigger] s[i]),
    ensures
        s.filter(p) == s,
    decreases s.len(),
{
    reveal(Seq::filter);
    if s.len() > 0 {
        assert forall|i: int| 0 <= i < s.drop_last().len() implies p(#[trigger] s.drop_last()[i]) by {
            assert(s.drop_last()[i] == s[i]);
        }
        lemma_filter_all(s.drop_last(), p);
        assert(p(s[s.len() - 1]));
        assert(s.drop_last().push(s.last()) =~= s);
    }
}

/// Filtering twice is filtering by both predicates at once.
pub proof fn lemma_filter_twice<A>(
    s: Seq<A>,
    p: spec_fn(A) -> bool,
    q: spec_fn(A) -> bool,
    both: spec_fn(A) -> bool,
)
    requires
        forall|i: int| 0 <= i < s.len() ==> both(#[trigger] s[i]) == (p(s[i]) && q(s[i])),
    ensures
        s.filter(p).filter(q) == s.filter(both),
    decreases s.len(),
{
    reveal(Seq::filter);
    if s.len() > 0 {
        let rest = s.drop_last();
        assert forall|i: int| 0 <= i < rest.len() implies both(#[trigger] rest[i]) == (p(rest[i])
            && q(rest[i])) by {
            assert(rest[i] == s[i]);
        }
        lemma_filter_twice(rest, p, q, both);
        assert(both(s[s.len() - 1]) == (p(s[s.len() - 1]) && q(s[s.len() - 1])));
        if p(s.last()) {
            assert(rest.filter(p).push(s.last()).drop_last() =~= rest.filter(p));
        }
    }
}

/// Requests asked one list after the other do what the joined list does.
pub proof fn lemma_apply_ops_joined(docs: Seq<DocumentView>, a: Seq<OpView>, b: Seq<OpView>)
    ensures
        apply_ops(docs, a + b) == apply_ops(apply_ops(docs, a), b),
    decreases b.len(),
{
    if b.len() == 0 {
        assert(a + b =~= a);
    } else {
        assert((a + b).drop_last() =~= a + b.drop_last());
        assert((a + b).last() == b.last());
        lemma_apply_ops_joined(docs, a, b.drop_last());
    }
}

/// What one request does.
pub proof fn lemma_apply_one(docs: Seq<DocumentView>, op: OpView)
    ensures
        apply_ops(docs, seq![op]) == apply_op(docs, op),
{
    assert(seq![op].drop_last() =~= Seq::<OpView>::empty());
    assert(apply_ops(docs, seq![op].drop_last()) == docs);
}

/// What replacing a document does: the documents with its key go, and it
/// comes last.
pub proof fn lemma_upsert(docs: Seq<DocumentView>, document: DocumentView)
    ensures
        apply_ops(docs, upsert_ops(document)) == docs.filter(has_other_key(document.key)).push(
            document,
        ),
{
    let ops = upsert_ops(document);
    assert(ops.drop_last() =~= seq![ops[0]]);
    lemma_apply_one(docs, ops[0]);
}

/// The first document with a key in a list that grew by one at its end.
pub proof fn lemma_lookup_push(docs: Seq<DocumentView>, document: DocumentView, key: Seq<char>)
    ensures
        lookup(docs.push(document), key) == match lookup(docs, key) {
            Some(found) => Some(found),
            None => if document.key == key {
                Some(document)
            } else {
                None
            },
        },
    decreases docs.len(),
{
    let grown = docs.push(document);
    if docs.len() > 0 {
        assert(grown[0] == docs[0]);
        assert(grown.drop_first() =~= docs.drop_first().push(document));
        lemma_lookup_push(docs.drop_first(), document, key);
    } else {
        assert(grown[0] == document);
        assert(grown.drop_first() =~= Seq::<DocumentView>::empty());
        assert(lookup(grown.drop_first(), key) is None);
    }
}

/// The first document with a key after the documents with another key, or
/// with the same, were taken out.
pub proof fn lemma_lookup_filter(docs: Seq<DocumentView>, gone: Seq<char>, key: Seq<char>)
    ensures
        lookup(docs.filter(has_other_key(gone)), key) == if key == gone {
            None
        } else {
            lookup(docs, key)
        },
    decreases docs.len(),
{
    reveal(Seq::filter);
    if docs.len() > 0 {
        let rest = docs.drop_last();
        lemma_lookup_filter(rest, gone, key);
        assert(docs =~= rest.push(docs.last()));
        lemma_lookup_push(rest, docs.last(), key);
        if docs.last().key != gone {
            lemma_lookup_push(rest.filter(has_other_key(gone)), docs.last(), key);
        }
    }
}

/// The members of a filtered list of documents, by index.
pub proof fn lemma_filter_member(docs: Seq<DocumentView>, pred: spec_fn(DocumentView) -> bool, i: int)
    requires
        0 <= i < docs.filter(pred).len(),
    ensures
        pred(docs.filter(pred)[i]),
        docs.contains(docs.filter(pred)[i]),
{
    docs.lemma_filter_pred(pred, i);
    assert(docs.filter(pred).contains(docs.filter(pred)[i]));
    docs.lemma_filter_contains_rev(pred, docs.filter(pred)[i]);
}

/// Filtering keeps keys unique.
pub proof fn lemma_filter_unique(docs: Seq<DocumentView>, pred: spec_fn(DocumentView) -> bool)
    requires
        unique_keys(docs),
    ensures
        unique_keys(docs.filter(pred)),
    decreases docs.len(),
{
    reveal(Seq::filter);
    if docs.len() > 0 {
        let rest = docs.drop_last();
        assert forall|i: int, j: int| 0 <= i < j < rest.len() implies (#[trigger] rest[i]).key != (
        #[trigger] rest[j]).key by {
            assert(rest[i] == docs[i] && rest[j] == docs[j]);
        }
        lemma_filter_unique(rest, pred);
        let kept = rest.filter(pred);
        let out = docs.filter(pred);
        assert forall|i: int, j: int| 0 <= i < j < out.len() implies (#[trigger] out[i]).key != (
        #[trigger] out[j]).key by {
            if j < kept.len() {
                assert(out[i] == kept[i] && out[j] == kept[j]);
            } else {
                assert(out[i] == kept[i]);
                lemma_filter_member(rest, pred, i);
                let a = choose|a: int| 0 <= a < rest.len() && rest[a] == kept[i];
                assert(docs[a] == kept[i]);
                assert(out[j] == docs[docs.len() - 1]);
            }
        }
    }
}

/// Replacing a document keeps keys unique, whatever the index held.
pub proof fn lemma_upsert_unique(docs: Seq<DocumentView>, document: DocumentView)
    requires
        unique_keys(docs),
    ensures
        unique_keys(apply_ops(docs, upsert_ops(document))),
{
    lemma_upsert(docs, document);
    let kept = docs.filter(has_other_key(document.key));
    lemma_filter_unique(docs, has_other_key(document.key));
    let out = kept.push(document);
    assert forall|i: int, j: int| 0 <= i < j < out.len() implies (#[trigger] out[i]).key != (
    #[trigger] out[j]).key by {
        assert(out[i] == kept[i]);
        if j < kept.len() {
            assert(out[j] == kept[j]);
        } else {
            lemma_filter_member(docs, has_other_key(document.key), i);
        }
    }
}

/// With unique keys a key has one document if it has a first one, else none.
pub proof fn lemma_count_unique(docs: Seq<DocumentView>, key: Seq<char>)
    requires
        unique_keys(docs),
    ensures
        count_key(docs, key) == if lookup(docs, key) is Some {
            1nat
        } else {
            0nat
        },
    decreases docs.len(),
{
    reveal(Seq::filter);
    if docs.len() > 0 {
        let rest = docs.drop_last();
        assert forall|i: int, j: int| 0 <= i < j < rest.len() implies (#[trigger] rest[i]).key != (
        #[trigger] rest[j]).key by {
            assert(rest[i] == docs[i] && rest[j] == docs[j]);
        }
        lemma_count_unique(rest, key);
        assert(docs =~= rest.push(docs.last()));
        lemma_lookup_push(rest, docs.last(), key);
        if docs.last().key == key && lookup(rest, key) is Some {
            lemma_lookup_found(rest, key);
            let i = choose|i: int| 0 <= i < rest.len() && rest[i].key == key;
            assert(docs[i].key == docs[docs.len() - 1].key);
        }
    }
}

/// A first document with a key is a document with that key.
pub proof fn lemma_lookup_found(docs: Seq<DocumentView>, key: Seq<char>)
    ensures
        lookup(docs, key) matches Some(found) ==> found.key == key && exists|i: int|
            0 <= i < docs.len() && (#[trigger] docs[i]).key == key && docs[i] == found,
        lookup(docs, key) is None ==> forall|i: int|
            0 <= i < docs.len() ==> (#[trigger] docs[i]).key != key,
    decreases docs.len(),
{
    if docs.len() > 0 {
        if docs[0].key == key {
            assert(docs[0].key == key && docs[0] == lookup(docs, key)->0);
        } else {
            lemma_lookup_found(docs.drop_first(), key);
            if let Some(found) = lookup(docs.drop_first(), key) {
                let i = choose|i: int|
                    0 <= i < docs.drop_first().len() && (#[trigger] docs.drop_first()[i]).key == key
                        && docs.drop_first()[i] == found;
                assert(docs[i + 1].key == key && docs[i + 1] == found);
            } else {
                assert forall|i: int| 0 <= i < docs.len() implies (#[trigger] docs[i]).key
                    != key by {
                    if i > 0 {
                        assert(docs.drop_first()[i - 1] == docs[i]);
                    }
                }
            }
        }
    }
}

/// What one call on a path does to the documents with that path, in an
/// index with unique keys: a deletion leaves none, indexing an eligible
/// file leaves exactly its document, and indexing anything else leaves the
/// index as it was. Keys stay unique.
pub proof fn lemma_call(docs: Seq<DocumentView>, call: Call, path: Seq<char>)
    requires
        unique_keys(docs),
        call matches Call::Index { file } ==> file.path == path,
    ensures
        unique_keys(apply_ops(docs, call_ops(call, path))),
        call is Delete ==> lookup(apply_ops(docs, call_ops(call, path)), path) is None,
        call matches Call::Index { file } ==> (if is_eligible(file) {
            lookup(apply_ops(docs, call_ops(call, path)), path) == Some(file_document(file))
        } else {
            apply_ops(docs, call_ops(call, path)) == docs
        }),
{
    match call {
        Call::Delete => {
            lemma_apply_one(docs, OpView::Delete { key: path });
            lemma_filter_unique(docs, has_other_key(path));
            lemma_lookup_filter(docs, path, path);
        },
        Call::Index { file } => {
            if is_eligible(file) {
                let document = file_document(file);
                lemma_upsert(docs, document);
                lemma_upsert_unique(docs, document);
                lemma_lookup_filter(docs, path, path);
                lemma_lookup_push(docs.filter(has_other_key(path)), document, path);
            } else {
                assert(call_ops(call, path) =~= Seq::<OpView>::empty());
            }
        },
    }
}

/// After any calls of `index_file` and `delete_file` on one path, an index
/// that had unique keys still has them, so it holds at most one document
/// for the path. It holds none after a deletion, exactly one after the
/// indexing of an eligible file, and what it held before after the
/// indexing of anything else.
pub proof fn lemma_calls_on_one_path(docs: Seq<DocumentView>, calls: Seq<Call>, path: Seq<char>)
    requires
        unique_keys(docs),
        forall|i: int|
            0 <= i < calls.len() ==> ((#[trigger] calls[i]) matches Call::Index { file }
                ==> file.path == path),
    ensures
        unique_keys(after_calls(docs, calls, path)),
        count_key(after_calls(docs, calls, path), path) <= 1,
        calls.len() > 0 && calls.last() is Delete ==> count_key(
            after_calls(docs, calls, path),
            path,
        ) == 0,
        calls.len() > 0 ==> (calls.last() matches Call::Index { file } ==> (if is_eligible(file) {
            count_key(after_calls(docs, calls, path), path) == 1 && lookup(
                after_calls(docs, calls, path),
                path,
            ) == Some(file_document(file))
        } else {
            after_calls(docs, calls, path) == after_calls(docs, calls.drop_last(), path)
        })),
    decreases calls.len(),
{
    if calls.len() > 0 {
        let earlier = calls.drop_last();
        assert forall|i: int| 0 <= i < earlier.len() implies ((#[trigger] earlier[i]) matches Call::Index {
            file,
        } ==> file.path == path) by {
            assert(earlier[i] == calls[i]);
        }
        lemma_calls_on_one_path(docs, earlier, path);
        assert(calls.last() == calls[calls.len() - 1]);
        lemma_call(after_calls(docs, earlier, path), calls.last(), path);
    }
    lemma_count_unique(after_calls(docs, calls, path), path);
}

/// What holds of every document that a removal of the folder `prefix`
/// leaves, when the keys `keys` are known to the removal.
pub open spec fn survives(keys: Seq<Seq<char>>, prefix: Seq<char>) -> spec_fn(DocumentView) -> bool {
    |d: DocumentView| !(keys.contains(d.key) && occurs_at(d.key, prefix, 0))
}

/// The removal of a folder takes out the documents whose key is known to
/// it and begins with the folder's path.
pub proof fn lemma_delete_known_keys(docs: Seq<DocumentView>, keys: Seq<Seq<char>>, prefix: Seq<char>)
    ensures
        apply_ops(docs, delete_folder_ops(keys, prefix)) == docs.filter(survives(keys, prefix)),
    decreases keys.len(),
{
    if keys.len() == 0 {
        lemma_filter_all(docs, survives(keys, prefix));
    } else {
        let rest = keys.drop_last();
        let key = keys.last();
        lemma_delete_known_keys(docs, rest, prefix);
        assert forall|k: Seq<char>| keys.contains(k) == (rest.contains(k) || k == key) by {
            if keys.contains(k) {
                let i = choose|i: int| 0 <= i < keys.len() && keys[i] == k;
                if i < rest.len() {
                    assert(rest[i] == k);
                }
            }
            if rest.contains(k) {
                let i = choose|i: int| 0 <= i < rest.len() && rest[i] == k;
                assert(keys[i] == k);
            }
            if k == key {
                assert(keys[keys.len() - 1] == k);
            }
        }
        if occurs_at(key, prefix, 0) {
            assert(delete_folder_ops(keys, prefix).drop_last() =~= delete_folder_ops(rest, prefix));
            lemma_filter_twice(
                docs,
                survives(rest, prefix),
                has_other_key(key),
                survives(keys, prefix),
            );
        } else {
            lemma_filter_agree(docs, survives(rest, prefix), survives(keys, prefix));
        }
    }
}

/// `delete_folder` removes every document whose key begins with the
/// folder's path, and no other: with the keys of all documents known to
/// it, what stays are the documents outside the folder, in their order.
pub proof fn lemma_delete_folder(docs: Seq<DocumentView>, prefix: Seq<char>)
    ensures
        apply_ops(docs, delete_folder_ops(keys_of(docs), prefix)) == docs.filter(is_outside(prefix)),
{
    lemma_delete_known_keys(docs, keys_of(docs), prefix);
    assert forall|i: int| 0 <= i < docs.len() implies survives(keys_of(docs), prefix)(
        #[trigger] docs[i],
    ) == is_outside(prefix)(docs[i]) by {
        assert(keys_of(docs)[i] == docs[i].key);
        assert(keys_of(docs).contains(docs[i].key));
    }
    lemma_filter_agree(docs, survives(keys_of(docs), prefix), is_outside(prefix));
}

/// No two entries have the same path.
pub open spec fn distinct_paths(entries: Seq<FileEntryView>) -> bool {
    forall|i: int, j: int|
        0 <= i < j < entries.len() ==> (#[trigger] entries[i]).path != (#[trigger] entries[j]).path
}

/// Whether a scan replaces the document of an entry, given the
/// modification time that the index holds for it.
pub open spec fn is_replaced(entry: FileEntryView, indexed: Option<i64>) -> bool {
    is_eligible(entry) && is_stale(entry.mtime, indexed)
}

/// The document that a scan writes for the key `key`, if it writes one.
pub open spec fn replacement(
    entries: Seq<FileEntryView>,
    indexed: Seq<Option<i64>>,
    key: Seq<char>,
) -> Option<DocumentView>
    decreases entries.len(),
{
    if entries.len() == 0 {
        None
    } else {
        let last = entries.len() - 1;
        if is_replaced(entries[last], known(indexed, last)) && entries[last].path == key {
            Some(file_document(entries[last]))
        } else {
            replacement(entries.drop_last(), indexed, key)
        }
    }
}

/// The modification times that an index holds for the paths of a list of
/// entries.
pub open spec fn lookups(docs: Seq<DocumentView>, entries: Seq<FileEntryView>) -> Seq<Option<i64>> {
    Seq::new(entries.len(), |i: int| indexed_mtime(docs, entries[i].path))
}

/// The documents of an index after `index_folder` on a tree with these
/// entries.
pub open spec fn scanned(docs: Seq<DocumentView>, entries: Seq<FileEntryView>) -> Seq<DocumentView> {
    apply_ops(docs, folder_ops(entries, lookups(docs, entries)))
}

/// A list of documents is as long as its documents with a key and its
/// documents without it together.
pub proof fn lemma_filter_partition(docs: Seq<DocumentView>, key: Seq<char>)
    ensures
        docs.filter(has_other_key(key)).len() + count_key(docs, key) == docs.len(),
    decreases docs.len(),
{
    reveal(Seq::filter);
    if docs.len() > 0 {
        lemma_filter_partition(docs.drop_last(), key);
    }
}

/// The document that a scan writes for a key belongs to an entry with
/// that path whose document the scan replaces.
pub proof fn lemma_replacement_source(
    entries: Seq<FileEntryView>,
    indexed: Seq<Option<i64>>,
    key: Seq<char>,
)
    ensures
        replacement(entries, indexed, key) matches Some(document) ==> exists|k: int|
            0 <= k < entries.len() && (#[trigger] entries[k]).path == key && is_replaced(
                entries[k],
                known(indexed, k),
            ) && document == file_document(entries[k]),
    decreases entries.len(),
{
    if entries.len() > 0 {
        let last = entries.len() - 1;
        if is_replaced(entries[last], known(indexed, last)) && entries[last].path == key {
            assert(entries[last].path == key);
        } else {
            lemma_replacement_source(entries.drop_last(), indexed, key);
            if let Some(document) = replacement(entries.drop_last(), indexed, key) {
                let k = choose|k: int|
                    0 <= k < entries.drop_last().len() && (#[trigger] entries.drop_last()[k]).path
                        == key && is_replaced(entries.drop_last()[k], known(indexed, k)) && document
                        == file_document(entries.drop_last()[k]);
                assert(entries[k] == entries.drop_last()[k]);
            }
        }
    }
}

/// Among entries with distinct paths, what a scan writes for the path of
/// an entry is the document of that entry if the scan replaces it, and
/// nothing otherwise.
pub proof fn lemma_replacement_of(
    entries: Seq<FileEntryView>,
    indexed: Seq<Option<i64>>,
    i: int,
)
    requires
        distinct_paths(entries),
        0 <= i < entries.len(),
    ensures
        replacement(entries, indexed, entries[i].path) == if is_replaced(
            entries[i],
            known(indexed, i),
        ) {
            Some(file_document(entries[i]))
        } else {
            None
        },
    decreases entries.len(),
{
    let last = entries.len() - 1;
    let earlier = entries.drop_last();
    assert forall|a: int, b: int| 0 <= a < b < earlier.len() implies (#[trigger] earlier[a]).path
        != (#[trigger] earlier[b]).path by {
        assert(earlier[a] == entries[a] && earlier[b] == entries[b]);
    }
    if i == last {
        if !is_replaced(entries[last], known(indexed, last)) {
            lemma_replacement_source(earlier, indexed, entries[i].path);
            if let Some(document) = replacement(earlier, indexed, entries[i].path) {
                let k = choose|k: int|
                    0 <= k < earlier.len() && (#[trigger] earlier[k]).path == entries[i].path
                        && is_replaced(earlier[k], known(indexed, k)) && document == file_document(
                        earlier[k],
                    );
                assert(entries[k] == earlier[k]);
                assert(entries[k].path != entries[last].path);
            }
        }
    } else {
        assert(entries[i].path != entries[last].path);
        assert(earlier[i] == entries[i]);
        lemma_replacement_of(earlier, indexed, i);
    }
}

/// What a scan does to the first document of each key: it is the document
/// that the scan writes for the key, if it writes one, and the document
/// that the index held before, if it does not. Keys stay unique.
pub proof fn lemma_folder_effect(
    docs: Seq<DocumentView>,
    entries: Seq<FileEntryView>,
    indexed: Seq<Option<i64>>,
)
    requires
        unique_keys(docs),
    ensures
        unique_keys(apply_ops(docs, folder_ops(entries, indexed))),
        forall|key: Seq<char>| #[trigger]
            lookup(apply_ops(docs, folder_ops(entries, indexed)), key) == (match replacement(
                entries,
                indexed,
                key,
            ) {
                Some(document) => Some(document),
                None => lookup(docs, key),
            }),
    decreases entries.len(),
{
    if entries.len() > 0 {
        let last = entries.len() - 1;
        let earlier = entries.drop_last();
        lemma_folder_effect(docs, earlier, indexed);
        let before = apply_ops(docs, folder_ops(earlier, indexed));
        if is_replaced(entries[last], known(indexed, last)) {
            let document = file_document(entries[last]);
            lemma_apply_ops_joined(docs, folder_ops(earlier, indexed), upsert_ops(document));
            lemma_upsert(before, document);
            lemma_upsert_unique(before, document);
            let after = apply_ops(docs, folder_ops(entries, indexed));
            assert forall|key: Seq<char>| #[trigger]
                lookup(after, key) == (match replacement(entries, indexed, key) {
                    Some(d) => Some(d),
                    None => lookup(docs, key),
                }) by {
                lemma_lookup_filter(before, document.key, key);
                lemma_lookup_push(before.filter(has_other_key(document.key)), document, key);
                assert(lookup(before, key) == (match replacement(earlier, indexed, key) {
                    Some(d) => Some(d),
                    None => lookup(docs, key),
                }));
            }
        }
    }
}

/// A scan that replaces only documents of keys that the index holds
/// leaves as many documents as there were.
pub proof fn lemma_folder_len(
    docs: Seq<DocumentView>,
    entries: Seq<FileEntryView>,
    indexed: Seq<Option<i64>>,
)
    requires
        unique_keys(docs),
        forall|i: int|
            0 <= i < entries.len() && is_replaced(
                #[trigger] entries[i],
                known(indexed, i),
            ) ==> lookup(
                docs,
                entries[i].path,
            ) is Some,
    ensures
        apply_ops(docs, folder_ops(entries, indexed)).len() == docs.len(),
    decreases entries.len(),
{
    if entries.len() > 0 {
        let last = entries.len() - 1;
        let earlier = entries.drop_last();
        assert forall|i: int|
            0 <= i < earlier.len() && is_replaced(
                #[trigger] earlier[i],
                known(indexed, i),
            ) implies lookup(
            docs,
            earlier[i].path,
        ) is Some by {
            assert(earlier[i] == entries[i]);
        }
        lemma_folder_len(docs, earlier, indexed);
        lemma_folder_effect(docs, earlier, indexed);
        let before = apply_ops(docs, folder_ops(earlier, indexed));
        if is_replaced(entries[last], known(indexed, last)) {
            let document = file_document(entries[last]);
            lemma_apply_ops_joined(docs, folder_ops(earlier, indexed), upsert_ops(document));
            lemma_upsert(before, document);
            assert(lookup(before, document.key) is Some);
            lemma_count_unique(before, document.key);
            lemma_filter_partition(before, document.key);
        }
    }
}

/// Scanning an unchanged tree a second time changes nothing: the index
/// holds the same document for every key, with the same modification
/// time, and as many documents as after the first scan.
pub proof fn lemma_second_scan_changes_nothing(docs: Seq<DocumentView>, entries: Seq<FileEntryView>)
    requires
        unique_keys(docs),
        distinct_paths(entries),
    ensures
        unique_keys(scanned(scanned(docs, entries), entries)),
        scanned(scanned(docs, entries), entries).len() == scanned(docs, entries).len(),
        forall|key: Seq<char>| #[trigger]
            lookup(scanned(scanned(docs, entries), entries), key) == lookup(
                scanned(docs, entries),
                key,
            ),
        forall|key: Seq<char>| #[trigger]
            indexed_mtime(scanned(scanned(docs, entries), entries), key) == indexed_mtime(
                scanned(docs, entries),
                key,
            ),
{
    let first = lookups(docs, entries);
    let once = scanned(docs, entries);
    let second = lookups(once, entries);
    let twice = scanned(once, entries);
    lemma_folder_effect(docs, entries, first);
    lemma_folder_effect(once, entries, second);
    assert forall|i: int| 0 <= i < entries.len() && is_replaced(
        #[trigger] entries[i],
        second[i],
    ) implies lookup(once, entries[i].path) == Some(file_document(entries[i])) by {
        lemma_replacement_of(entries, first, i);
        let key = entries[i].path;
        assert(lookup(once, key) == (match replacement(entries, first, key) {
            Some(d) => Some(d),
            None => lookup(docs, key),
        }));
    }
    assert forall|key: Seq<char>| #[trigger] lookup(twice, key) == lookup(once, key) by {
        lemma_replacement_source(entries, second, key);
        assert(lookup(twice, key) == (match replacement(entries, second, key) {
            Some(d) => Some(d),
            None => lookup(once, key),
        }));
    }
    lemma_folder_len(once, entries, second);
    assert forall|key: Seq<char>| #[trigger] indexed_mtime(twice, key) == indexed_mtime(
        once,
        key,
    ) by {
        assert(lookup(twice, key) == lookup(once, key));
    }
}

/// A scan that finds no eligible file stale asks nothing and replaces
/// nothing.
pub proof fn lemma_scan_of_none_replaced(entries: Seq<FileEntryView>, indexed: Seq<Option<i64>>)
    requires
        forall|i: int|
            0 <= i < entries.len() ==> !is_replaced(#[trigger] entries[i], known(indexed, i)),
    ensures
        folder_ops(entries, indexed) == Seq::<OpView>::empty(),
        folder_updates(entries, indexed) == 0,
    decreases entries.len(),
{
    if entries.len() > 0 {
        let earlier = entries.drop_last();
        assert forall|i: int| 0 <= i < earlier.len() implies !is_replaced(
            #[trigger] earlier[i],
            known(indexed, i),
        ) by {
            assert(earlier[i] == entries[i]);
        }
        lemma_scan_of_none_replaced(earlier, indexed);
        assert(!is_replaced(entries[entries.len() - 1], known(indexed, entries.len() - 1)));
    }
}

/// Scanning an unchanged tree a second time asks nothing of the index and
/// replaces no document, where the file system told the modification time
/// of every eligible file.
pub proof fn lemma_second_scan_asks_nothing(docs: Seq<DocumentView>, entries: Seq<FileEntryView>)
    requires
        unique_keys(docs),
        distinct_paths(entries),
        forall|i: int|
            0 <= i < entries.len() && is_eligible(#[trigger] entries[i]) ==> entries[i].mtime
                is Some,
    ensures
        folder_ops(entries, lookups(scanned(docs, entries), entries)) == Seq::<OpView>::empty(),
        folder_updates(entries, lookups(scanned(docs, entries), entries)) == 0,
        scanned(scanned(docs, entries), entries) == scanned(docs, entries),
{
    let first = lookups(docs, entries);
    let once = scanned(docs, entries);
    let second = lookups(once, entries);
    lemma_folder_effect(docs, entries, first);
    assert forall|i: int| 0 <= i < entries.len() implies !is_replaced(
        #[trigger] entries[i],
        known(second, i),
    ) by {
        if is_eligible(entries[i]) {
            lemma_replacement_of(entries, first, i);
            let key = entries[i].path;
            assert(lookup(once, key) == (match replacement(entries, first, key) {
                Some(d) => Some(d),
                None => lookup(docs, key),
            }));
            assert(known(first, i) == indexed_mtime(docs, key));
            assert(known(second, i) == indexed_mtime(once, key));
        }
    }
    lemma_scan_of_none_replaced(entries, second);
}

/// Scanning a tree in which one file was modified since the index was
/// brought in step with it replaces the document of that file and leaves
/// every other document as it was.
///
/// The index is in step with the file when it holds the document of the
/// file as it was before; the file is modified when its modification time
/// has advanced.
pub proof fn lemma_scan_after_modification(
    docs: Seq<DocumentView>,
    entries: Seq<FileEntryView>,
    at: int,
    modified: FileEntryView,
)
    requires
        unique_keys(docs),
        distinct_paths(entries),
        0 <= at < entries.len(),
        is_eligible(entries[at]),
        lookup(scanned(docs, entries), entries[at].path) == Some(file_document(entries[at])),
        modified.path == entries[at].path,
        modified.is_file,
        entries[at].mtime matches Some(before) && modified.mtime matches Some(after) && after
            > before,
    ensures
        unique_keys(scanned(scanned(docs, entries), entries.update(at, modified))),
        lookup(
            scanned(scanned(docs, entries), entries.update(at, modified)),
            modified.path,
        ) == Some(file_document(modified)),
        forall|key: Seq<char>|
            key != modified.path ==> #[trigger] lookup(
                scanned(scanned(docs, entries), entries.update(at, modified)),
                key,
            ) == lookup(scanned(docs, entries), key),
        scanned(scanned(docs, entries), entries.update(at, modified)).len() == scanned(
            docs,
            entries,
        ).len(),
{
    let first = lookups(docs, entries);
    let once = scanned(docs, entries);
    let changed = entries.update(at, modified);
    let second = lookups(once, changed);
    let after = scanned(once, changed);
    lemma_folder_effect(docs, entries, first);
    lemma_folder_effect(once, changed, second);
    assert forall|a: int, b: int| 0 <= a < b < changed.len() implies (#[trigger] changed[a]).path
        != (#[trigger] changed[b]).path by {
        assert(entries[a].path != entries[b].path);
    }
    assert(is_replaced(changed[at], second[at]));
    lemma_replacement_of(changed, second, at);
    assert forall|i: int| 0 <= i < changed.len() && is_replaced(
        #[trigger] changed[i],
        second[i],
    ) implies lookup(once, changed[i].path) is Some && (i != at ==> lookup(once, changed[i].path)
        == Some(file_document(changed[i]))) by {
        if i != at {
            lemma_replacement_of(entries, first, i);
            let key = entries[i].path;
            assert(changed[i] == entries[i]);
            assert(lookup(once, key) == (match replacement(entries, first, key) {
                Some(d) => Some(d),
                None => lookup(docs, key),
            }));
        }
    }
    assert forall|key: Seq<char>| key != modified.path implies #[trigger] lookup(after, key)
        == lookup(once, key) by {
        lemma_replacement_source(changed, second, key);
        assert(lookup(after, key) == (match replacement(changed, second, key) {
            Some(d) => Some(d),
            None => lookup(once, key),
        }));
    }
    assert(lookup(after, modified.path) == (match replacement(changed, second, modified.path) {
        Some(d) => Some(d),
        None => lookup(once, modified.path),
    }));
    lemma_folder_len(once, changed, second);
}

/// A scan that finds exactly one eligible file stale asks for the
/// replacement of its document, and for nothing else.
pub proof fn lemma_scan_of_one_replaced(
    entries: Seq<FileEntryView>,
    indexed: Seq<Option<i64>>,
    at: int,
)
    requires
        0 <= at < entries.len(),
        is_replaced(entries[at], known(indexed, at)),
        forall|i: int|
            0 <= i < entries.len() && i != at ==> !is_replaced(
                #[trigger] entries[i],
                known(indexed, i),
            ),
    ensures
        folder_ops(entries, indexed) == upsert_ops(file_document(entries[at])),
        folder_updates(entries, indexed) == 1,
    decreases entries.len(),
{
    let last = entries.len() - 1;
    let earlier = entries.drop_last();
    if at == last {
        assert forall|i: int| 0 <= i < earlier.len() implies !is_replaced(
            #[trigger] earlier[i],
            known(indexed, i),
        ) by {
            assert(earlier[i] == entries[i]);
        }
        lemma_scan_of_none_replaced(earlier, indexed);
        assert(Seq::<OpView>::empty() + upsert_ops(file_document(entries[last])) =~= upsert_ops(
            file_document(entries[last]),
        ));
    } else {
        assert(earlier[at] == entries[at]);
        assert forall|i: int| 0 <= i < earlier.len() && i != at implies !is_replaced(
            #[trigger] earlier[i],
            known(indexed, i),
        ) by {
            assert(earlier[i] == entries[i]);
        }
        lemma_scan_of_one_replaced(earlier, indexed, at);
        assert(!is_replaced(entries[last], known(indexed, last)));
    }
}

/// Scanning a tree in which one file was modified since the index was
/// brought in step with it asks for the replacement of the document of
/// that file and for nothing else, where the file system told the
/// modification time of every eligible file.
pub proof fn lemma_scan_after_modification_asks_once(
    docs: Seq<DocumentView>,
    entries: Seq<FileEntryView>,
    at: int,
    modified: FileEntryView,
)
    requires
        unique_keys(docs),
        distinct_paths(entries),
        0 <= at < entries.len(),
        is_eligible(entries[at]),
        lookup(scanned(docs, entries), entries[at].path) == Some(file_document(entries[at])),
        modified.path == entries[at].path,
        modified.is_file,
        entries[at].mtime matches Some(before) && modified.mtime matches Some(after) && after
            > before,
        forall|i: int|
            0 <= i < entries.len() && is_eligible(#[trigger] entries[i]) ==> entries[i].mtime
                is Some,
    ensures
        folder_ops(
            entries.update(at, modified),
            lookups(scanned(docs, entries), entries.update(at, modified)),
        ) == upsert_ops(file_document(modified)),
        folder_updates(
            entries.update(at, modified),
            lookups(scanned(docs, entries), entries.update(at, modified)),
        ) == 1,
{
    let first = lookups(docs, entries);
    let once = scanned(docs, entries);
    let changed = entries.update(at, modified);
    let second = lookups(once, changed);
    lemma_folder_effect(docs, entries, first);
    assert(known(second, at) == indexed_mtime(once, modified.path));
    assert(is_replaced(changed[at], known(second, at)));
    assert forall|i: int| 0 <= i < changed.len() && i != at implies !is_replaced(
        #[trigger] changed[i],
        known(second, i),
    ) by {
        assert(changed[i] == entries[i]);
        if is_eligible(entries[i]) {
            lemma_replacement_of(entries, first, i);
            let key = entries[i].path;
            assert(lookup(once, key) == (match replacement(entries, first, key) {
                Some(d) => Some(d),
                None => lookup(docs, key),
            }));
            assert(known(first, i) == indexed_mtime(docs, key));
            assert(known(second, i) == indexed_mtime(once, key));
        }
    }
    lemma_scan_of_one_replaced(changed, second, at);
}

} // verus!
