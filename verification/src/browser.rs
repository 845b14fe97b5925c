//! What is taken from a browser: the bookmarks of its bookmark tree and the
//! visited pages of its history, each with a title.

use vstd::prelude::*;
use crate::document::BrowserData;
use crate::document::BrowserDataView;
use crate::index_model::record_views;
use crate::text::chars_of;
use crate::text::equals_literal;
use crate::text::occurs_at;
use crate::text::starts_with;

verus! {

/// A node of a browser's bookmark tree, as far as the walk reads it.
#[derive(Debug)]
pub struct BookmarkNode {
    /// The type of the node, if it names one.
    pub kind: Option<String>,
    /// The URL of the node, if it has one.
    pub url: Option<String>,
    /// The name of the node, if it has one.
    pub name: Option<String>,
    /// The nodes listed as its children, in order.
    pub children: Vec<BookmarkNode>,
    /// The nodes that it holds as named members, in order.
    pub members: Vec<BookmarkNode>,
}

/// A visited page of a browser's history.
#[derive(Debug)]
pub struct HistoryRow {
    pub url: String,
    pub title: String,
}

/// The views of a list of history rows, each as a record of `source`.
pub open spec fn history_of(rows: Seq<HistoryRow>, source: Seq<char>) -> Seq<BrowserDataView>
    decreases rows.len(),
{
    if rows.len() == 0 {
        Seq::empty()
    } else if rows.last().title@.len() > 0 {
        history_of(rows.drop_last(), source).push(
            BrowserDataView {
                url: rows.last().url@,
                title: rows.last().title@,
                source,
                data_type: "History"@,
            },
        )
    } else {
        history_of(rows.drop_last(), source)
    }
}

/// The bookmark that a node is itself: a node of type `url` with a URL and
/// a name that is not empty.
pub open spec fn own_bookmark(node: BookmarkNode, source: Seq<char>) -> Seq<BrowserDataView> {
    match (node.kind, node.url, node.name) {
        (Some(kind), Some(url), Some(name)) if kind@ == "url"@ && name@.len() > 0 => seq![
            BrowserDataView { url: url@, title: name@, source, data_type: "Bookmark"@ },
        ],
        _ => Seq::empty(),
    }
}

/// The bookmarks of a list of nodes: for each node in order, the node
/// itself, then what is below its children, then what is below its members.
pub open spec fn bookmarks_in(nodes: Seq<BookmarkNode>, source: Seq<char>) -> Seq<BrowserDataView>
    decreases nodes,
{
    if nodes.len() == 0 {
        Seq::empty()
    } else {
        bookmarks_in(nodes.drop_last(), source) + bookmarks_of(nodes.last(), source)
    }
}

/// The bookmarks of a node and of everything below it.
pub open spec fn bookmarks_of(node: BookmarkNode, source: Seq<char>) -> Seq<BrowserDataView>
    decreases node,
{
    own_bookmark(node, source) + bookmarks_in(node.children@, source) + bookmarks_in(
        node.members@,
        source,
    )
}

/// Whether a directory of a browser's data holds a profile: it is named
/// `Default`, or its name begins with `Profile `.
pub open spec fn is_profile_name(name: Seq<char>) -> bool {
    name == "Default"@ || occurs_at(name, "Profile "@, 0)
}

/// The label of a profile of a browser: the browser, then the profile in
/// round brackets.
pub open spec fn source_label(browser: Seq<char>, profile: Seq<char>) -> Seq<char> {
    browser + " ("@ + profile + ")"@
}

/// Whether a directory of a browser's data holds a profile.
pub fn is_profile_dir(name: &str) -> (r: bool)
    ensures
        r == is_profile_name(name@),
{
    let chars = chars_of(name);
    equals_literal(&chars, "Default") || starts_with(&chars, &chars_of("Profile "))
}

/// The label of a profile of a browser.
pub fn source_name(browser: &str, profile: &str) -> (r: String)
    ensures
        r@ == source_label(browser@, profile@),
{
    let mut label = browser.to_owned();
    label.append(" (");
    label.append(profile);
    label.append(")");
    label
}

/// The records of the rows of a history that have a title, in order.
pub fn history_records(rows: &Vec<HistoryRow>, source: &str) -> (r: Vec<BrowserData>)
    ensures
        record_views(r@) == history_of(rows@, source@),
{
    let mut results: Vec<BrowserData> = Vec::new();
    let mut i: usize = 0;
    proof {
        assert(rows@.take(0) =~= Seq::<HistoryRow>::empty());
        assert(record_views(results@) =~= Seq::<BrowserDataView>::empty());
    }
    while i < rows.len()
        invariant
            i <= rows.len(),
            record_views(results@) == history_of(rows@.take(i as int), source@),
        decreases rows.len() - i,
    {
        proof {
            assert(rows@.take(i + 1).drop_last() =~= rows@.take(i as int));
            assert(rows@.take(i + 1).last() == rows@[i as int]);
        }
        if rows[i].title.as_str().unicode_len() > 0 {
            let ghost before = record_views(results@);
            let record = BrowserData {
                url: rows[i].url.clone(),
                title: rows[i].title.clone(),
                source: source.to_owned(),
                data_type: "History".to_owned(),
            };
            results.push(record);
            assert(record_views(results@) =~= before.push(record@));
        }
        i = i + 1;
    }
    assert(rows@.take(rows.len() as int) =~= rows@);
    results
}

/// Appends the bookmarks of a list of nodes to `results`.
pub fn process_bookmark_nodes(nodes: &Vec<BookmarkNode>, source: &str, results: &mut Vec<BrowserData>)
    ensures
        record_views(final(results)@) == record_views(old(results)@) + bookmarks_in(
            nodes@,
            source@,
        ),
    decreases nodes,
{
    let ghost start = record_views(results@);
    let mut i: usize = 0;
    proof {
        assert(nodes@.take(0) =~= Seq::<BookmarkNode>::empty());
        assert(start + bookmarks_in(nodes@.take(0), source@) =~= start);
    }
    while i < nodes.len()
        invariant
            i <= nodes.len(),
            record_views(results@) == start + bookmarks_in(nodes@.take(i as int), source@),
        decreases nodes.len() - i,
    {
        proof {
            assert(nodes@.take(i + 1).drop_last() =~= nodes@.take(i as int));
            assert(nodes@.take(i + 1).last() == nodes@[i as int]);
        }
        let ghost before = record_views(results@);
        process_bookmark_node(&nodes[i], source, results);
        assert(record_views(results@) =~= start + bookmarks_in(nodes@.take(i + 1), source@));
        i = i + 1;
    }
    assert(nodes@.take(nodes.len() as int) =~= nodes@);
}

/// Appends the bookmarks of a node and of everything below it to `results`.
pub fn process_bookmark_node(node: &BookmarkNode, source: &str, results: &mut Vec<BrowserData>)
    ensures
        record_views(final(results)@) == record_views(old(results)@) + bookmarks_of(
            *node,
            source@,
        ),
    decreases node,
{
    let ghost start = record_views(results@);
    match (&node.kind, &node.url, &node.name) {
        (Some(kind), Some(url), Some(name)) => {
            if equals_literal(&chars_of(kind.as_str()), "url") && name.as_str().unicode_len() > 0 {
                let record = BrowserData {
                    url: url.clone(),
                    title: name.clone(),
                    source: source.to_owned(),
                    data_type: "Bookmark".to_owned(),
                };
                results.push(record);
                assert(record_views(results@) =~= start + own_bookmark(*node, source@));
            }
        },
        _ => {},
    }
    assert(record_views(results@) =~= start + own_bookmark(*node, source@));
    process_bookmark_nodes(&node.children, source, results);
    process_bookmark_nodes(&node.members, source, results);
    assert(record_views(results@) =~= start + bookmarks_of(*node, source@));
}

} // verus!
