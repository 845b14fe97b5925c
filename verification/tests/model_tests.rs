use worksentry::browser::{
    history_records, is_profile_dir, process_bookmark_node, source_name, BookmarkNode, HistoryRow,
};
use worksentry::document::{
    document_of_file, document_with_category, document_of_record, is_indexable_file, needs_update, should_read_content,
    BrowserData, FileEntry,
};
use worksentry::extensions::{
    is_filename_only_indexable, is_indexable_ext, is_indexable_path, is_text_indexable,
};
use worksentry::index_model::{
    plan_browser, plan_delete, plan_delete_folder, plan_file, plan_folder, wants_update,
    PlannedOp,
};
use worksentry::index_store::{FieldEntry, FieldValue, QueryClause};
use worksentry::path_utils::{get_extension, get_file_name};
use worksentry::query_plan::{
    candidate_from_fields, exact_search_fields, key_lookup, number_of, plan_enhanced,
    plan_enhanced_search, push_field_clauses_with, text_of, EnhancedPlan,
};
use worksentry::ranking::{
    rank_candidates, score_candidate, score_candidate_with, Candidate, Score, SearchResult,
};
use worksentry::tantivy_engine::TantivyEngine;

fn entry(path: &str, size: u64, mtime: Option<i64>, content: Option<&str>) -> FileEntry {
    FileEntry {
        path: path.to_string(),
        is_file: true,
        size,
        mtime,
        content: content.map(|c| c.to_string()),
    }
}

fn kinds(plan: &[PlannedOp]) -> Vec<String> {
    plan.iter()
        .map(|op| match op {
            PlannedOp::Delete { key } => format!("delete {}", key),
            PlannedOp::Add { document } => format!("add {}", document.key),
        })
        .collect()
}

#[test]
fn test_search_result_structure() {
    let result = SearchResult {
        path: "/test/path.txt".to_string(),
        file_name: "path.txt".to_string(),
        score: Score::Launcher(1_000_000),
        record_type: "file".to_string(),
    };

    assert_eq!(result.path, "/test/path.txt");
    assert_eq!(result.file_name, "path.txt");
    assert!(matches!(result.score, Score::Launcher(points) if points >= 0));
}

#[test]
fn test_extension_classes() {
    for ext in ["txt", "md", "rs", "svelte", "pm", "TXT", "Json"] {
        assert!(is_text_indexable(ext), "{}", ext);
        assert!(!is_filename_only_indexable(ext), "{}", ext);
        assert!(is_indexable_ext(ext), "{}", ext);
    }
    for ext in ["pdf", "epub", "7z", "torrent", "PNG", "Mp3"] {
        assert!(!is_text_indexable(ext), "{}", ext);
        assert!(is_filename_only_indexable(ext), "{}", ext);
        assert!(is_indexable_ext(ext), "{}", ext);
    }
    for ext in ["dll", "lnk", "", "txt ", ".txt", "tx"] {
        assert!(!is_indexable_ext(ext), "{:?}", ext);
    }
    assert!(is_indexable_path("/docs/Report.PDF"));
    assert!(is_indexable_path("C:\\docs\\notes.md"));
    assert!(!is_indexable_path("/docs/.txt"));
    assert!(!is_indexable_path("/docs.txt/readme"));
    assert!(!is_indexable_path("/docs/archive.tar.unknown"));
}

#[test]
fn test_path_edges() {
    assert_eq!(get_file_name("/home/user/dir/"), "dir");
    assert_eq!(get_file_name("/home/user/dir/."), "dir");
    assert_eq!(get_file_name("/home/user/.."), "");
    assert_eq!(get_file_name("."), "");
    assert_eq!(get_file_name("/"), "");
    assert_eq!(get_file_name("a\\b/c.txt"), "c.txt");
    assert_eq!(get_extension(".bashrc"), "");
    assert_eq!(get_extension("name."), "");
    assert_eq!(get_extension("/a.b/c"), "");
    assert_eq!(get_extension("/a.b/c.D"), "D");
    assert_eq!(get_extension("dir.d/"), "d");
}

#[test]
fn test_document_of_a_text_file() {
    let document = document_of_file(&entry("/docs/Notes.TXT", 5, Some(42), Some("hello")));
    assert_eq!(document.key, "/docs/Notes.TXT");
    assert_eq!(document.display_name, "Notes.TXT");
    assert_eq!(document.body, "hello");
    assert_eq!(document.category, "txt");
    assert_eq!(document.size, 5);
    assert_eq!(document.mtime, 42);
    assert_eq!(document.url, "");
    assert_eq!(document.record_kind, "file");
}

#[test]
fn test_document_bodies() {
    let unread = document_of_file(&entry("/docs/a.txt", 5, None, None));
    assert_eq!(unread.body, "");
    assert_eq!(unread.mtime, 0);
    let large = document_of_file(&entry("/docs/a.txt", 1_048_577, Some(1), Some("text")));
    assert_eq!(large.body, "");
    let at_limit = document_of_file(&entry("/docs/a.txt", 1_048_576, Some(1), Some("text")));
    assert_eq!(at_limit.body, "text");
    let binary = document_of_file(&entry("/docs/Book.EPUB", 9, Some(1), Some("bytes")));
    assert_eq!(binary.body, "Book.EPUB");
    assert_eq!(binary.category, "epub");

    assert!(should_read_content("/docs/a.txt", 1_048_576));
    assert!(!should_read_content("/docs/a.txt", 1_048_577));
    assert!(!should_read_content("/docs/a.epub", 10));
    assert!(!should_read_content("/docs/a", 10));
}

#[test]
fn test_document_of_a_browser_record() {
    let record = BrowserData {
        url: "https://example.org".to_string(),
        title: "Example".to_string(),
        source: "Edge (Profile 1)".to_string(),
        data_type: "bookmark".to_string(),
    };
    let document = document_of_record(&record);
    assert_eq!(document.key, "https://example.org");
    assert_eq!(document.display_name, "Example");
    assert_eq!(document.body, "https://example.org");
    assert_eq!(document.category, "Edge (Profile 1)");
    assert_eq!(document.size, 0);
    assert_eq!(document.mtime, 0);
    assert_eq!(document.url, "https://example.org");
    assert_eq!(document.record_kind, "bookmark");
}

#[test]
fn test_needs_update() {
    assert!(needs_update(Some(10), None));
    assert!(needs_update(Some(11), Some(10)));
    assert!(!needs_update(Some(10), Some(10)));
    assert!(!needs_update(Some(9), Some(10)));
    assert!(needs_update(None, Some(10)));
    assert!(needs_update(None, None));

    let file = entry("/docs/a.txt", 1, Some(10), None);
    assert!(wants_update(&file, Some(9)));
    assert!(!wants_update(&file, Some(10)));
    assert!(!wants_update(&entry("/docs/a.dll", 1, Some(10), None), None));
    let mut directory = entry("/docs/b.txt", 0, Some(10), None);
    directory.is_file = false;
    assert!(!is_indexable_file(&directory));
    assert!(!wants_update(&directory, None));
}

#[test]
fn test_plans() {
    let file = entry("/docs/a.txt", 1, Some(10), Some("a"));
    assert_eq!(kinds(&plan_file(&file)), vec!["delete /docs/a.txt", "add /docs/a.txt"]);
    assert!(plan_file(&entry("/docs/a.dll", 1, Some(10), None)).is_empty());

    let entries = vec![
        entry("/docs/new.txt", 1, Some(10), Some("n")),
        entry("/docs/same.txt", 1, Some(10), Some("s")),
        entry("/docs/skip.dll", 1, Some(10), None),
        entry("/docs/newer.md", 1, Some(11), Some("m")),
    ];
    let indexed = vec![None, Some(10), None, Some(10)];
    // A list of known times that ends early: the rest counts as not indexed.
    assert_eq!(plan_folder(&entries, &vec![None]).len(), 6);
    assert_eq!(
        kinds(&plan_folder(&entries, &indexed)),
        vec![
            "delete /docs/new.txt",
            "add /docs/new.txt",
            "delete /docs/newer.md",
            "add /docs/newer.md"
        ]
    );

    let keys: Vec<String> =
        ["/docs/a.txt", "/other/b.txt", "/docs", "/doc", "/docs2/c.txt"].map(String::from).to_vec();
    assert_eq!(
        kinds(&plan_delete_folder(&keys, "/docs")),
        vec!["delete /docs/a.txt", "delete /docs", "delete /docs2/c.txt"]
    );
    assert_eq!(plan_delete_folder(&keys, "").len(), 5);

    let record = |url: &str, title: &str| BrowserData {
        url: url.to_string(),
        title: title.to_string(),
        source: "Chrome (Default)".to_string(),
        data_type: "history".to_string(),
    };
    let records = vec![record("u1", "One"), record("u2", ""), record("u3", "Three")];
    assert_eq!(kinds(&plan_browser(&records)), vec!["delete u1", "add u1", "delete u3", "add u3"]);
}

fn clause(c: &QueryClause) -> String {
    match c {
        QueryClause::Fuzzy { field, text, distance, transposition } => {
            assert!(*transposition);
            format!("{}~{}:{}", field, distance, text)
        }
        QueryClause::Exact { field, text } => format!("{}:{}", field, text),
    }
}

#[test]
fn test_enhanced_clauses() {
    let tokens = |words: &[&str]| words.iter().map(|w| w.to_string()).collect::<Vec<String>>();
    let plan = |words: &[&str], fuzzy: bool, prefix: bool| -> Vec<String> {
        plan_enhanced(&tokens(words), fuzzy, prefix).iter().map(clause).collect()
    };
    assert!(plan(&[], true, true).is_empty());
    assert_eq!(plan(&["Hello"], false, false), vec!["content:hello", "file_name:hello"]);
    assert_eq!(
        plan(&["Hello"], true, true),
        vec![
            "content~2:hello",
            "content:hello",
            "content:hello",
            "file_name~2:hello",
            "file_name:hello",
            "file_name:hello"
        ]
    );
    // Up to four bytes: one edit. Under three bytes: no fuzzy term.
    assert_eq!(plan(&["abcd"], true, false)[0], "content~1:abcd");
    assert_eq!(plan(&["abc"], true, false)[0], "content~1:abc");
    assert_eq!(plan(&["ab"], true, false), vec!["content:ab", "file_name:ab"]);
    assert_eq!(plan(&["ab"], false, true).len(), 4);
    assert_eq!(plan(&["a"], true, true), vec!["content:a", "file_name:a"]);
    // Lengths count bytes: one ideograph has three.
    assert_eq!(plan(&["编"], true, false)[0], "content~1:编");
    assert_eq!(plan(&["编程"], true, false)[0], "content~2:编程");
    assert_eq!(plan(&["a", "b"], false, false).len(), 4);
}

#[test]
fn test_stored_fields() {
    let text = |field: u32, value: &str| FieldEntry { field, value: FieldValue::Text(value.to_string()) };
    let fields = vec![
        text(0, "/docs/a.txt"),
        text(1, "a.txt"),
        FieldEntry { field: 5, value: FieldValue::U64(7) },
        FieldEntry { field: 5, value: FieldValue::I64(-3) },
        FieldEntry { field: 5, value: FieldValue::I64(9) },
        FieldEntry { field: 1, value: FieldValue::Other },
        text(1, "renamed.txt"),
    ];
    assert_eq!(text_of(&fields, 0, ""), "/docs/a.txt");
    assert_eq!(text_of(&fields, 1, ""), "renamed.txt");
    assert_eq!(text_of(&fields, 7, "file"), "file");
    assert_eq!(number_of(&fields, 5), Some(-3));
    assert_eq!(number_of(&fields, 4), None);
    let candidate = candidate_from_fields(&fields);
    assert_eq!(candidate.path, "/docs/a.txt");
    assert_eq!(candidate.file_name, "renamed.txt");
    assert_eq!(candidate.record_type, "file");
    let empty = candidate_from_fields(&Vec::new());
    assert_eq!(empty.path, "");
    assert_eq!(empty.file_name, "");
    assert_eq!(empty.record_type, "file");
}

fn candidate(name: &str) -> Candidate {
    Candidate {
        path: format!("/x/{}", name),
        file_name: name.to_string(),
        record_type: "file".to_string(),
    }
}

#[test]
fn test_ranking_is_stable_and_cut() {
    let parts: Vec<Vec<char>> = vec!["ab".chars().collect()];
    let candidates = vec![
        candidate("zzab"),
        candidate(""),
        candidate("ab.md"),
        candidate("nothing"),
        candidate("AB.md"),
        candidate("ab.exe"),
    ];
    let ranked = rank_candidates(&parts, &candidates, 10);
    let names: Vec<&str> = ranked.iter().map(|r| r.file_name.as_str()).collect();
    assert_eq!(names, vec!["ab.exe", "ab.md", "AB.md", "zzab"]);
    assert_eq!(ranked[1].score, ranked[2].score);
    assert_eq!(ranked[1].path, "/x/ab.md");

    let best: Vec<String> =
        rank_candidates(&parts, &candidates, 2).into_iter().map(|r| r.file_name).collect();
    assert_eq!(best, vec!["ab.exe", "ab.md"]);
    assert!(rank_candidates(&parts, &candidates, 0).is_empty());
    assert!(rank_candidates(&Vec::new(), &candidates, 10).is_empty());
}

#[test]
fn test_index_path() {
    let path = |dir: &str| TantivyEngine::new(dir).unwrap().get_index_path().clone();
    assert_eq!(path("/home/u/.local/share"), "/home/u/.local/share/worksentry/index");
    assert_eq!(path("/data/"), "/data/worksentry/index");
    assert_eq!(path("C:\\Users\\u\\AppData\\"), "C:\\Users\\u\\AppData\\worksentry/index");
    assert_eq!(path(""), "worksentry/index");
    assert!(!TantivyEngine::new("/data").unwrap().has_index());
}

fn node(kind: &str, url: Option<&str>, name: Option<&str>) -> BookmarkNode {
    BookmarkNode {
        kind: if kind.is_empty() { None } else { Some(kind.to_string()) },
        url: url.map(|u| u.to_string()),
        name: name.map(|n| n.to_string()),
        children: Vec::new(),
        members: Vec::new(),
    }
}

#[test]
fn test_bookmark_walk() {
    let mut folder = node("folder", None, Some("Reading"));
    folder.children = vec![
        node("url", Some("u1"), Some("One")),
        node("url", Some("u2"), Some("")),
        node("url", Some("u3"), None),
        node("url", None, Some("No address")),
        node("URL", Some("u4"), Some("Wrong type")),
    ];
    let mut nested = node("folder", None, Some("Nested"));
    nested.children = vec![node("url", Some("u5"), Some("Five"))];
    folder.children.push(nested);

    let mut bar = node("url", Some("u6"), Some("Bar itself"));
    bar.children = vec![folder];
    let mut roots = node("", None, None);
    roots.members = vec![bar, node("url", Some("u7"), Some("Seven"))];

    let mut results = vec![BrowserData {
        url: "u0".to_string(),
        title: "Zero".to_string(),
        source: "before".to_string(),
        data_type: "History".to_string(),
    }];
    process_bookmark_node(&roots, "Chrome (Default)", &mut results);
    let found: Vec<(&str, &str)> =
        results.iter().map(|r| (r.url.as_str(), r.title.as_str())).collect();
    assert_eq!(
        found,
        vec![("u0", "Zero"), ("u6", "Bar itself"), ("u1", "One"), ("u5", "Five"), ("u7", "Seven")]
    );
    assert!(results[1..].iter().all(|r| r.source == "Chrome (Default)"));
    assert!(results[1..].iter().all(|r| r.data_type == "Bookmark"));
}

#[test]
fn test_history_and_profiles() {
    let row = |url: &str, title: &str| HistoryRow { url: url.to_string(), title: title.to_string() };
    let records = history_records(&vec![row("a", "A"), row("b", ""), row("c", "C")], "Edge (Profile 2)");
    let found: Vec<(&str, &str)> =
        records.iter().map(|r| (r.url.as_str(), r.title.as_str())).collect();
    assert_eq!(found, vec![("a", "A"), ("c", "C")]);
    assert!(records.iter().all(|r| r.source == "Edge (Profile 2)" && r.data_type == "History"));

    assert!(is_profile_dir("Default"));
    assert!(is_profile_dir("Profile 1"));
    assert!(is_profile_dir("Profile "));
    assert!(!is_profile_dir("Profile"));
    assert!(!is_profile_dir("default"));
    assert!(!is_profile_dir("Guest Profile 1"));
    assert!(!is_profile_dir(""));
    assert_eq!(source_name("Chrome", "Default"), "Chrome (Default)");
    assert_eq!(source_name("", ""), " ()");
}

#[test]
fn test_plan_delete() {
    assert_eq!(kinds(&plan_delete("/docs/a.txt")), vec!["delete /docs/a.txt"]);
    assert_eq!(kinds(&plan_delete("")), vec!["delete "]);
}

#[test]
fn test_lookup_and_default_fields() {
    assert_eq!(clause(&key_lookup("/docs/A b.txt")), "path:/docs/A b.txt");
    assert_eq!(exact_search_fields(), vec!["content", "file_name"]);
}

#[test]
fn test_enhanced_search_plan() {
    let tokens = |words: &[&str]| words.iter().map(|w| w.to_string()).collect::<Vec<String>>();
    assert!(matches!(plan_enhanced_search(&tokens(&[]), true, true), EnhancedPlan::Exact));
    assert!(matches!(plan_enhanced_search(&tokens(&[]), false, false), EnhancedPlan::Exact));
    match plan_enhanced_search(&tokens(&["Ab"]), true, true) {
        EnhancedPlan::AnyOf(clauses) => {
            let found: Vec<String> = clauses.iter().map(clause).collect();
            assert_eq!(found, vec!["content:ab", "content:ab", "file_name:ab", "file_name:ab"]);
        }
        EnhancedPlan::Exact => panic!("a query with a token is not searched exactly"),
    }
}

#[test]
fn test_document_for_a_given_category() {
    let file = entry("/docs/Notes.TXT", 5, Some(42), Some("hello"));
    let text: Vec<char> = "txt".chars().collect();
    let document = document_with_category(&file, &text);
    assert_eq!(document.body, "hello");
    assert_eq!(document.category, "txt");
    // The category decides, not the path: a category that is not text
    // gives the name for a body.
    let upper: Vec<char> = "TXT".chars().collect();
    let document = document_with_category(&file, &upper);
    assert_eq!(document.body, "Notes.TXT");
    assert_eq!(document.category, "TXT");
    assert_eq!(document.key, "/docs/Notes.TXT");
}

#[test]
fn test_clauses_for_a_given_lower_case_form() {
    let mut clauses = Vec::new();
    push_field_clauses_with(&mut clauses, "content", 5, "straße", true, true);
    let found: Vec<String> = clauses.iter().map(clause).collect();
    assert_eq!(found, vec!["content~2:straße", "content:straße", "content:straße"]);
    push_field_clauses_with(&mut clauses, "file_name", 2, "AB", true, false);
    assert_eq!(clauses.len(), 4);
    assert_eq!(clause(&clauses[3]), "file_name:AB");
}

#[test]
fn test_candidate_for_given_forms() {
    let parts: Vec<Vec<char>> = vec!["ab".chars().collect()];
    let one = candidate("AB.md");
    let lower: Vec<char> = "ab.md".chars().collect();
    let flags = vec![true, true, false, true, true];
    let ext: Option<Vec<char>> = Some("md".chars().collect());
    let with = score_candidate_with(&parts, &one, &lower, &flags, &ext).unwrap();
    let plain = score_candidate(&parts, &one).unwrap();
    assert_eq!(with.score, plain.score);
    assert_eq!(with.file_name, "AB.md");
    assert_eq!(with.path, "/x/AB.md");
    // A form that the query does not match, and a candidate without a name.
    let other: Vec<char> = "xy.md".chars().collect();
    assert!(score_candidate_with(&parts, &one, &other, &flags, &ext).is_none());
    assert!(score_candidate_with(&parts, &candidate(""), &lower, &flags, &ext).is_none());
}
