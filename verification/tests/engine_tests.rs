use worksentry::document::{BrowserData, FileEntry};
use worksentry::ranking::Score;
use worksentry::index_model::PlannedOp;
use worksentry::index_store::Hit;
use worksentry::ranking::Candidate;
use worksentry::tantivy_engine::{
    apply_plan, error_kind, error_of_fault, keys_of_candidates, mtime_of_first_hit,
    opening_outcome, push_candidates, ErrorKind, Opened, TantivyEngine,
};
use worksentry::index_store::IndexFault;

fn create_test_engine() -> (tempfile::TempDir, TantivyEngine) {
    let dir = tempfile::tempdir().unwrap();
    let path = dir.path().to_str().unwrap().to_string();
    let mut engine = TantivyEngine::new_with_path(path).unwrap();
    assert_eq!(engine.attach(false).unwrap(), Opened::Ready);
    (dir, engine)
}

fn file(path: &str, content: &str, mtime: i64) -> FileEntry {
    FileEntry {
        path: path.to_string(),
        is_file: true,
        size: content.len() as u64,
        mtime: Some(mtime),
        content: Some(content.to_string()),
    }
}

fn rank(score: Score) -> f32 {
    match score {
        Score::Ranked(bits) => f32::from_bits(bits),
        Score::Launcher(points) => points as f32 / 1_000_000.0,
    }
}

#[test]
fn test_engine_creation() {
    let (_dir, engine) = create_test_engine();
    assert!(std::path::Path::new(engine.get_index_path()).is_absolute());
    let (_dir2, engine2) = create_test_engine();
    assert_ne!(engine.get_index_path(), engine2.get_index_path());
}

#[test]
fn test_is_indexable_ext() {
    let (_dir, engine) = create_test_engine();
    assert!(engine.is_indexable_ext("txt"));
    assert!(engine.is_indexable_ext("md"));
    assert!(engine.is_indexable_ext("json"));
    assert!(engine.is_indexable_ext("rs"));
    assert!(engine.is_indexable_ext("RS"));

    assert!(engine.is_indexable_ext("exe"));
    assert!(engine.is_indexable_ext("pdf"));
    assert!(engine.is_indexable_ext("epub"));
    assert!(engine.is_indexable_ext("zip"));

    assert!(!engine.is_indexable_ext("dll"));
    assert!(!engine.is_indexable_ext("lib"));
    assert!(!engine.is_indexable_ext("o"));
}

#[test]
fn test_is_text_indexable() {
    let (_dir, engine) = create_test_engine();
    assert!(engine.is_text_indexable("txt"));
    assert!(engine.is_text_indexable("rs"));
    assert!(engine.is_text_indexable("py"));

    assert!(!engine.is_text_indexable("exe"));
    assert!(!engine.is_text_indexable("epub"));
    assert!(!engine.is_text_indexable("pdf"));
}

#[test]
fn test_index_folder_creates_index() {
    let (_dir, engine) = create_test_engine();
    let entries = vec![file("/docs/test.txt", "hello world test content", 100)];
    let result = engine.index_folder(true, &entries);
    assert!(result.is_ok(), "Indexing should succeed, got: {:?}", result);
    assert!(std::path::Path::new(engine.get_index_path()).exists());
}

#[test]
fn test_index_folder_invalid_path() {
    let (_dir, mut engine) = create_test_engine();
    let folder = std::path::Path::new("/nonexistent/path/12345");
    let is_dir = folder.exists() && folder.is_dir();
    assert!(!is_dir);
    // What is no folder is passed over, whatever is handed in with it.
    let result = engine.index_folder(is_dir, &vec![file("/nonexistent/a.txt", "alpha", 1)]);
    assert!(result.is_ok());
    assert_eq!(engine.get_document_count().unwrap(), 0);
    // The index is not even asked for.
    engine.clear_index();
    assert!(engine.index_folder(is_dir, &Vec::new()).is_ok());
    assert!(engine.index_folder(true, &Vec::new()).is_err());
}

#[test]
fn test_no_duplicates_on_reindex() {
    let (_dir, engine) = create_test_engine();
    let entries = vec![file("/docs/test.txt", "hello world unique content", 100)];

    engine.index_folder(true, &entries).unwrap();
    engine.index_folder(true, &entries).unwrap();

    let count = engine.get_document_count().unwrap();
    assert_eq!(count, 1, "Should have exactly 1 document, not duplicates");
}

#[test]
fn test_incremental_indexing() {
    let (_dir, engine) = create_test_engine();
    engine.index_folder(true, &vec![file("/docs/test.txt", "original content", 100)]).unwrap();

    let results = engine.search("original", 10).unwrap();
    assert_eq!(results.len(), 1);

    engine.index_folder(true, &vec![file("/docs/test.txt", "modified content", 102)]).unwrap();

    let results = engine.search("modified", 10).unwrap();
    assert_eq!(results.len(), 1);

    let results = engine.search("original", 10).unwrap();
    assert_eq!(results.len(), 0);
    assert_eq!(engine.get_document_count().unwrap(), 1);
}

#[test]
fn test_unchanged_file_is_not_indexed_again() {
    let (_dir, engine) = create_test_engine();
    engine.index_folder(true, &vec![file("/docs/test.txt", "original content", 100)]).unwrap();
    // Same modification time: the new contents must not reach the index.
    engine.index_folder(true, &vec![file("/docs/test.txt", "modified content", 100)]).unwrap();
    assert_eq!(engine.search("original", 10).unwrap().len(), 1);
    assert_eq!(engine.search("modified", 10).unwrap().len(), 0);
    assert_eq!(engine.get_indexed_mtime("/docs/test.txt").unwrap(), Some(100));
    assert_eq!(engine.get_indexed_mtime("/docs/other.txt").unwrap(), None);
}

#[test]
fn test_search_after_index() {
    let (_dir, engine) = create_test_engine();
    let entries = vec![file("/docs/test.txt", "hello world unique search term 12345", 100)];
    engine.index_folder(true, &entries).unwrap();

    let results = engine.search("unique search term", 10);
    assert!(results.is_ok());
    let results = results.unwrap();
    assert!(!results.is_empty(), "Expected at least one search result");
    assert_eq!(results.len(), 1);
    assert_eq!(results[0].file_name, "test.txt");
    assert_eq!(results[0].path, "/docs/test.txt");
    assert_eq!(results[0].record_type, "file");
    assert!(rank(results[0].score) > 0.0);
}

#[test]
fn test_search_returns_empty_for_no_match() {
    let (_dir, engine) = create_test_engine();
    engine.index_folder(true, &vec![file("/docs/test.txt", "some content here", 100)]).unwrap();

    let results = engine.search("nonexistent term xyz 999", 10);
    assert!(results.is_ok());
    let results = results.unwrap();
    assert!(results.is_empty(), "Expected no results for non-matching query");
}

#[test]
fn test_search_empty_query() {
    let (_dir, engine) = create_test_engine();
    let results = engine.search("", 10);
    assert!(results.is_ok());
    assert!(results.unwrap().is_empty());
    assert!(engine.search("   \t", 10).unwrap().is_empty());
}

#[test]
fn test_search_respects_limit() {
    let (_dir, engine) = create_test_engine();
    let entries = vec![
        file("/docs/a.txt", "shared words here", 1),
        file("/docs/b.txt", "shared words there", 1),
        file("/docs/c.txt", "shared words everywhere", 1),
    ];
    engine.index_folder(true, &entries).unwrap();
    assert_eq!(engine.search("shared", 10).unwrap().len(), 3);
    assert_eq!(engine.search("shared", 2).unwrap().len(), 2);
    assert_eq!(engine.search("shared", 0).unwrap().len(), 0);
}

#[test]
fn test_delete_file() {
    let (_dir, engine) = create_test_engine();
    engine.index_folder(true, &vec![file("/docs/test.txt", "content to delete", 100)]).unwrap();

    assert_eq!(engine.get_document_count().unwrap(), 1);

    engine.delete_file("/docs/test.txt").unwrap();

    assert_eq!(engine.get_document_count().unwrap(), 0);
}

#[test]
fn test_delete_folder_takes_only_what_is_below() {
    let (_dir, engine) = create_test_engine();
    let entries = vec![
        file("/docs/a.txt", "alpha", 1),
        file("/docs/sub/b.txt", "beta", 1),
        file("/other/c.txt", "gamma", 1),
    ];
    engine.index_folder(true, &entries).unwrap();
    assert_eq!(engine.get_document_count().unwrap(), 3);
    assert_eq!(engine.delete_folder("/docs").unwrap(), 2);
    assert_eq!(engine.get_document_count().unwrap(), 1);
    assert_eq!(engine.search("gamma", 10).unwrap().len(), 1);
    assert_eq!(engine.search("alpha", 10).unwrap().len(), 0);
    assert_eq!(engine.delete_folder("/nothing").unwrap(), 0);
    assert_eq!(engine.get_document_count().unwrap(), 1);
}

#[test]
fn test_index_stats() {
    let (_dir, engine) = create_test_engine();
    engine.index_folder(true, &vec![file("/docs/test.txt", "test content", 100)]).unwrap();

    let stats = engine.get_index_stats(4096).unwrap();
    assert_eq!(stats.document_count, 1);
    assert!(stats.size_bytes > 0);
    assert_eq!(stats.size_bytes, 4096);
    assert_eq!(&stats.index_path, engine.get_index_path());
}

#[test]
fn test_clear_index() {
    let (_dir, mut engine) = create_test_engine();
    engine.index_folder(true, &vec![file("/docs/test.txt", "content", 100)]).unwrap();
    assert!(engine.has_index());

    engine.clear_index();
    assert!(!engine.has_index());
    assert!(engine.get_document_count().is_err());
}

#[test]
fn test_attach_opens_what_was_committed() {
    let (_dir, mut engine) = create_test_engine();
    engine.index_folder(true, &vec![file("/docs/test.txt", "content", 100)]).unwrap();
    engine.clear_index();
    assert_eq!(engine.attach(true).unwrap(), Opened::Ready);
    assert_eq!(engine.get_document_count().unwrap(), 1);
}

#[test]
fn test_attach_refuses_a_directory_without_index() {
    let dir = tempfile::tempdir().unwrap();
    let path = dir.path().to_str().unwrap().to_string();
    let mut engine = TantivyEngine::new_with_path(path).unwrap();
    assert_eq!(engine.attach(true).unwrap(), Opened::Recreate);
    assert!(!engine.has_index());
    assert!(engine.index_folder(true, &Vec::new()).is_err());
    assert!(engine.delete_file("/docs/a.txt").is_err());
}

#[test]
fn test_search_case_insensitive() {
    let (_dir, engine) = create_test_engine();
    engine.index_folder(true, &vec![file("/docs/test.txt", "HELLO WORLD", 100)]).unwrap();

    let results = engine.search("hello", 10);
    assert!(results.is_ok());
    let results = results.unwrap();
    assert_eq!(results.len(), 1);
}

#[test]
fn test_fuzzy_search() {
    let (_dir, engine) = create_test_engine();
    engine
        .index_folder(true, &vec![file("/docs/test.txt", "This is about programming language", 100)])
        .unwrap();

    let results = engine.search_enhanced("programing", 10, true, false);
    assert!(results.is_ok());
    let results = results.unwrap();
    assert!(
        !results.is_empty(),
        "Fuzzy search should find 'programming' when searching 'programing'"
    );
    // Without fuzzy matching the misspelt word finds nothing.
    assert!(engine.search_enhanced("programing", 10, false, false).unwrap().is_empty());
    assert_eq!(engine.search_enhanced("PROGRAMMING", 10, false, true).unwrap().len(), 1);
}

#[test]
fn test_chinese_contains_detection() {
    assert!(TantivyEngine::contains_chinese("你好"));
    assert!(TantivyEngine::contains_chinese("Hello 世界"));
    assert!(!TantivyEngine::contains_chinese("Hello World"));
    assert!(!TantivyEngine::contains_chinese("123 abc"));
}

#[test]
fn test_tokenize_chinese() {
    let (_dir, engine) = create_test_engine();

    let tokens = engine.tokenize_query("我爱编程");
    assert!(!tokens.is_empty(), "Chinese text should produce tokens");

    let tokens = engine.tokenize_query("hello world");
    assert_eq!(tokens.len(), 2);
    assert!(tokens.contains(&"hello".to_string()));
    assert!(tokens.contains(&"world".to_string()));
}

#[test]
fn test_search_chinese_content() {
    let (_dir, engine) = create_test_engine();
    engine.index_folder(true, &vec![file("/docs/chinese.txt", "这是一个关于编程的文档", 100)]).unwrap();

    let results = engine.search_enhanced("编程", 10, false, false);
    assert!(results.is_ok());
}

#[test]
fn test_enhanced_search_empty_query() {
    let (_dir, engine) = create_test_engine();
    let results = engine.search_enhanced("", 10, true, true);
    assert!(results.is_ok());
    assert!(results.unwrap().is_empty());
}

#[test]
fn test_launcher_search() {
    let (_dir, engine) = create_test_engine();
    let entry = FileEntry {
        path: "/books/7 Rules of Power双语.epub".to_string(),
        is_file: true,
        size: 5,
        mtime: Some(100),
        content: None,
    };
    engine.index_folder(true, &vec![entry]).unwrap();

    let results = engine.search_launcher("7r", 10);
    assert!(results.is_ok());
    let results = results.unwrap();
    assert!(
        !results.is_empty(),
        "Launcher search '7r' should find '7 Rules of Power双语.epub'"
    );
    assert!(results[0].file_name.contains("7 Rules"));
    assert!(results[0].file_name.starts_with("7 Rules"));
    assert!(engine.search_launcher("xyz", 10).unwrap().is_empty());
    assert!(engine.search_launcher("  ", 10).unwrap().is_empty());
}

#[test]
fn test_search_launcher_chinese_epub() {
    let (_dir, engine) = create_test_engine();
    let entry = FileEntry {
        path: "/books/氛围.epub".to_string(),
        is_file: true,
        size: 0,
        mtime: Some(100),
        content: None,
    };
    assert!(engine.index_file(&entry).unwrap());

    let results = engine.search_launcher("氛围", 10).unwrap();
    assert!(!results.is_empty(), "Should find 氛围.epub");
    assert_eq!(results[0].file_name, "氛围.epub");
    assert!(results[0].path.contains("氛围.epub"));

    let results = engine.search_launcher("epub", 10).unwrap();
    assert!(!results.is_empty(), "Should find by extension");
}

#[test]
fn test_launcher_search_ranks_and_limits() {
    let (_dir, engine) = create_test_engine();
    let entries = vec![
        file("/a/my_vibe_notes.txt", "x", 1),
        file("/a/vibe_coding.txt", "x", 1),
        file("/a/vibrant.txt", "x", 1),
        file("/a/vibe.exe", "x", 1),
    ];
    engine.index_folder(true, &entries).unwrap();
    let results = engine.search_launcher("vibe", 10).unwrap();
    let names: Vec<&str> = results.iter().map(|r| r.file_name.as_str()).collect();
    assert_eq!(names, vec!["vibe.exe", "vibe_coding.txt", "my_vibe_notes.txt"]);
    for pair in results.windows(2) {
        assert!(rank(pair[0].score) >= rank(pair[1].score));
    }
    let best = engine.search_launcher("VIBE", 1).unwrap();
    assert_eq!(best.len(), 1);
    assert_eq!(best[0].file_name, "vibe.exe");
    assert!(engine.search_launcher("vibe", 0).unwrap().is_empty());
}

#[test]
fn test_index_file_skips_what_is_not_eligible() {
    let (_dir, engine) = create_test_engine();
    let mut directory = file("/docs/folder.txt", "", 1);
    directory.is_file = false;
    assert!(!engine.index_file(&directory).unwrap());
    assert!(!engine.index_file(&file("/docs/library.dll", "x", 1)).unwrap());
    assert!(!engine.index_file(&file("/docs/noextension", "x", 1)).unwrap());
    assert_eq!(engine.get_document_count().unwrap(), 0);
    assert!(engine.index_file(&file("/docs/notes.MD", "remember the milk", 1)).unwrap());
    assert_eq!(engine.get_document_count().unwrap(), 1);
    assert_eq!(engine.search("milk", 10).unwrap().len(), 1);
}

#[test]
fn test_index_then_delete_then_index() {
    let (_dir, engine) = create_test_engine();
    let entry = file("/docs/p.txt", "first", 1);
    assert!(engine.index_file(&entry).unwrap());
    assert!(engine.index_file(&entry).unwrap());
    assert_eq!(engine.get_document_count().unwrap(), 1);
    engine.delete_file("/docs/p.txt").unwrap();
    assert_eq!(engine.get_document_count().unwrap(), 0);
    engine.delete_file("/docs/p.txt").unwrap();
    assert_eq!(engine.get_document_count().unwrap(), 0);
    assert!(engine.index_file(&entry).unwrap());
    assert_eq!(engine.get_document_count().unwrap(), 1);
}

#[test]
fn test_large_and_binary_files_keep_only_their_name() {
    let (_dir, engine) = create_test_engine();
    let mut large = file("/docs/large.txt", "needle in a haystack", 1);
    large.size = 1_048_577;
    let at_limit = FileEntry { size: 1_048_576, ..file("/docs/limit.txt", "needle at the limit", 1) };
    let binary = file("/docs/holiday.png", "needle bytes", 1);
    engine.index_folder(true, &vec![large, at_limit, binary]).unwrap();
    assert_eq!(engine.get_document_count().unwrap(), 3);
    let found = engine.search("needle", 10).unwrap();
    let mut names: Vec<&str> = found.iter().map(|r| r.file_name.as_str()).collect();
    names.sort();
    assert_eq!(names, vec!["limit.txt"]);
    // A file above the limit and a file indexed by name are found by name.
    assert_eq!(engine.search("holiday", 10).unwrap().len(), 1);
    assert_eq!(engine.search("large", 10).unwrap().len(), 1);
}

#[test]
fn test_browser_records() {
    let (_dir, engine) = create_test_engine();
    let record = |url: &str, title: &str, kind: &str| BrowserData {
        url: url.to_string(),
        title: title.to_string(),
        source: "Chrome (Default)".to_string(),
        data_type: kind.to_string(),
    };
    let data = vec![
        record("https://example.org/rust", "Rust book", "bookmark"),
        record("https://example.org/empty", "", "history"),
        record("https://example.org/rust", "Rust book, second edition", "history"),
    ];
    engine.index_browser_data(data).unwrap();
    assert_eq!(engine.get_document_count().unwrap(), 1);
    let results = engine.search_launcher("rust", 10).unwrap();
    assert_eq!(results.len(), 1);
    assert_eq!(results[0].path, "https://example.org/rust");
    assert_eq!(results[0].file_name, "Rust book, second edition");
    assert_eq!(results[0].record_type, "history");
}

#[test]
fn test_writer_takes_several_files_before_one_commit() {
    let (_dir, engine) = create_test_engine();
    let mut writer = engine.writer().unwrap();
    assert!(engine.index_single_file(&mut writer, &file("/docs/a.txt", "alpha", 1)).unwrap());
    assert!(engine.index_single_file(&mut writer, &file("/docs/a.txt", "alpha again", 2)).unwrap());
    let entries = vec![file("/docs/b.txt", "beta", 1), file("/docs/c.dll", "gamma", 1)];
    assert_eq!(engine.index_folder_with_writer(&mut writer, &entries).unwrap(), 1);
    // Nothing is seen before the commit.
    assert_eq!(engine.get_document_count().unwrap(), 0);
    engine.commit(&mut writer).unwrap();
    assert_eq!(engine.get_document_count().unwrap(), 2);
    assert_eq!(engine.get_indexed_mtime("/docs/a.txt").unwrap(), Some(2));
    assert_eq!(engine.search("again", 10).unwrap().len(), 1);
}

#[test]
fn test_planned_folder_scan() {
    let (_dir, engine) = create_test_engine();
    let entries = vec![
        file("/docs/a.txt", "alpha", 5),
        file("/docs/b.txt", "beta", 5),
        file("/docs/c.dll", "gamma", 5),
    ];
    let indexed = engine.indexed_mtimes(&entries);
    assert_eq!(indexed, vec![None, None, None]);
    assert_eq!(engine.index_folder_as_planned(&entries, &indexed).unwrap(), 2);
    let indexed = engine.indexed_mtimes(&entries);
    assert_eq!(indexed, vec![Some(5), Some(5), None]);
    assert_eq!(engine.index_folder_as_planned(&entries, &indexed).unwrap(), 0);
    assert_eq!(engine.get_document_count().unwrap(), 2);
}

#[test]
fn test_live_candidates_leave_out_what_was_deleted() {
    let (_dir, engine) = create_test_engine();
    let entries = vec![
        file("/docs/a.txt", "alpha", 5),
        file("/docs/b.txt", "beta", 5),
        file("/docs/c.txt", "gamma", 5),
    ];
    engine.index_folder(true, &entries).unwrap();
    engine.delete_file("/docs/a.txt").unwrap();
    let mut names: Vec<String> =
        engine.live_candidates().unwrap().into_iter().map(|c| c.file_name).collect();
    names.sort();
    assert_eq!(names, vec!["b.txt", "c.txt"]);
    let found = engine.search_launcher("txt", 10).unwrap();
    assert_eq!(found.len(), 2);
}

#[test]
fn test_enhanced_search_without_tokens_is_searched_as_it_is() {
    let (_dir, engine) = create_test_engine();
    engine.index_folder(true, &vec![file("/docs/a.txt", "alpha", 5)]).unwrap();
    // No letter or digit: no token, so the query goes to the parser as it is.
    let exact = engine.search("...", 10).map(|r| r.len()).map_err(|e| e.message);
    let enhanced = engine.search_enhanced("...", 10, true, true).map(|r| r.len()).map_err(|e| e.message);
    assert_eq!(exact, enhanced);
}

#[test]
fn test_counts_and_figures_as_the_interface_gets_them() {
    let (_dir, mut engine) = create_test_engine();
    engine.index_folder(true, &vec![file("/docs/a.txt", "alpha", 5)]).unwrap();
    assert_eq!(worksentry::commands::get_document_count(&engine), Ok(1));
    let stats = worksentry::commands::get_index_stats(&engine, 77).unwrap();
    assert_eq!((stats.document_count, stats.size_bytes), (1, 77));
    engine.clear_index();
    assert_eq!(
        worksentry::commands::get_document_count(&engine),
        Err("the index is not open".to_string())
    );
    assert!(worksentry::commands::get_index_stats(&engine, 77).is_err());
}

#[test]
fn test_error_kinds() {
    assert_eq!(error_kind(IndexFault::Io), ErrorKind::Io);
    assert_eq!(error_kind(IndexFault::Corruption), ErrorKind::IndexCorruption);
    assert_eq!(error_kind(IndexFault::Lock), ErrorKind::Locked);
    assert_eq!(error_kind(IndexFault::Argument), ErrorKind::InvalidInput);
    assert_eq!(error_kind(IndexFault::Other), ErrorKind::Internal);

    let (_dir, mut engine) = create_test_engine();
    engine.clear_index();
    let error = engine.search("anything", 10).unwrap_err();
    assert_eq!(error.kind, ErrorKind::Internal);
    assert_eq!(error.to_message(), "the index is not open");
    // A query that the parser refuses is reported, not passed over.
    engine.attach(true).unwrap();
    assert!(engine.search("title:(", 10).is_err());
}

#[test]
fn test_one_writer_at_a_time() {
    let (_dir, engine) = create_test_engine();
    let writer = engine.writer().unwrap();
    let second = engine.writer();
    assert!(second.is_err());
    assert_eq!(second.err().unwrap().kind, ErrorKind::Locked);
    drop(writer);
    assert!(engine.writer().is_ok());
}

fn stored(path: &str, name: &str, mtime: i64) -> tantivy::TantivyDocument {
    let field = tantivy::schema::Field::from_field_id;
    let mut document = tantivy::TantivyDocument::new();
    document.add_text(field(0), path);
    document.add_text(field(1), name);
    document.add_u64(field(4), 7);
    document.add_i64(field(5), mtime);
    document
}

#[test]
fn test_error_of_fault() {
    let error = error_of_fault(IndexFault::Lock, "busy".to_string());
    assert_eq!(error.kind, ErrorKind::Locked);
    assert_eq!(error.message, "busy");
    let error = error_of_fault(IndexFault::Other, String::new());
    assert_eq!(error.kind, ErrorKind::Internal);
    assert_eq!(error.to_message(), "");
}

#[test]
fn test_mtime_of_first_hit() {
    assert_eq!(mtime_of_first_hit(&Vec::new()), None);
    let hits = vec![
        Hit { score_bits: 0, document: stored("/a", "a", 11) },
        Hit { score_bits: 0, document: stored("/b", "b", 22) },
    ];
    assert_eq!(mtime_of_first_hit(&hits), Some(11));
    let bare = vec![Hit { score_bits: 0, document: tantivy::TantivyDocument::new() }];
    assert_eq!(mtime_of_first_hit(&bare), None);
}

#[test]
fn test_candidates_of_what_the_store_could_read() {
    let mut found = vec![Candidate {
        path: "/first".to_string(),
        file_name: "first".to_string(),
        record_type: "file".to_string(),
    }];
    let unread = tantivy::TantivyError::InternalError("unread".to_string());
    let documents =
        vec![Ok(stored("/a", "a.txt", 1)), Err(unread), Ok(stored("/b", "b.txt", 2))];
    push_candidates(&documents, &mut found);
    let names: Vec<&str> = found.iter().map(|c| c.file_name.as_str()).collect();
    assert_eq!(names, vec!["first", "a.txt", "b.txt"]);
    assert!(found.iter().all(|c| c.record_type == "file"));
    assert_eq!(keys_of_candidates(&found), vec!["/first", "/a", "/b"]);
    assert!(keys_of_candidates(&Vec::new()).is_empty());
}

#[test]
fn test_plans_through_a_writer() {
    let (_dir, engine) = create_test_engine();
    let mut writer = engine.writer().unwrap();
    assert!(apply_plan(&mut writer, &Vec::new()).is_ok());
    let skipped = vec![file("/docs/a.dll", "x", 1), file("/docs/noextension", "y", 1)];
    assert_eq!(engine.index_folder_with_writer(&mut writer, &skipped).unwrap(), 0);
    let plan = vec![
        PlannedOp::Delete { key: "/docs/a.txt".to_string() },
        PlannedOp::Add {
            document: worksentry::document::document_of_file(&file("/docs/a.txt", "alpha", 3)),
        },
    ];
    assert!(apply_plan(&mut writer, &plan).is_ok());
    assert_eq!(engine.get_document_count().unwrap(), 0);
    engine.commit(&mut writer).unwrap();
    assert_eq!(engine.get_document_count().unwrap(), 1);
    assert_eq!(engine.get_indexed_mtime("/docs/a.txt").unwrap(), Some(3));
    // A commit with nothing asked changes nothing.
    engine.commit(&mut writer).unwrap();
    assert_eq!(engine.get_document_count().unwrap(), 1);
}

#[test]
fn test_engine_without_index_says_so() {
    let (_dir, mut engine) = create_test_engine();
    engine.clear_index();
    let text = "the index is not open";
    assert_eq!(engine.writer().err().unwrap().message, text);
    assert_eq!(engine.commit_plan(&Vec::new()).unwrap_err().message, text);
    assert_eq!(engine.get_indexed_mtime("/a").unwrap_err().message, text);
    assert_eq!(engine.index_folder(true, &Vec::new()).unwrap_err().message, text);
    assert_eq!(engine.indexed_mtimes(&vec![file("/docs/a.txt", "a", 1)]), vec![None]);
    let planned = engine.index_folder_as_planned(&Vec::new(), &Vec::new());
    assert_eq!(planned.unwrap_err().message, text);
    assert_eq!(engine.index_browser_data(Vec::new()).unwrap_err().message, text);
    assert_eq!(engine.delete_file("/a").unwrap_err().message, text);
    assert_eq!(engine.delete_folder("/a").unwrap_err().message, text);
    assert_eq!(engine.live_candidates().unwrap_err().message, text);
    assert_eq!(engine.get_document_count().unwrap_err().message, text);
    assert_eq!(engine.get_index_stats(1).unwrap_err().message, text);
    let indexed = engine.index_file(&file("/docs/a.txt", "a", 1));
    assert_eq!(indexed.unwrap_err().kind, ErrorKind::Internal);
    assert_eq!(engine.search_launcher("a", 5).unwrap_err().message, text);
    assert_eq!(engine.search_enhanced("a", 5, true, true).unwrap_err().message, text);
}

#[test]
fn test_opening_outcome() {
    // A directory that was just made: a new index is ready, a failure is an error.
    assert_eq!(opening_outcome(false, true, false), Some(Opened::Ready));
    assert_eq!(opening_outcome(false, true, true), Some(Opened::Ready));
    assert_eq!(opening_outcome(false, false, false), None);
    assert_eq!(opening_outcome(false, false, true), None);
    // A directory that was there: only an index of the engine's schema is ready.
    assert_eq!(opening_outcome(true, true, true), Some(Opened::Ready));
    assert_eq!(opening_outcome(true, true, false), Some(Opened::Recreate));
    assert_eq!(opening_outcome(true, false, false), Some(Opened::Recreate));
    assert_eq!(opening_outcome(true, false, true), Some(Opened::Recreate));
}

#[test]
fn test_attach_refuses_an_index_of_another_schema() {
    let dir = tempfile::tempdir().unwrap();
    let mut builder = tantivy::schema::Schema::builder();
    builder.add_text_field("title", tantivy::schema::TEXT);
    tantivy::Index::create_in_dir(dir.path(), builder.build()).unwrap();
    let path = dir.path().to_str().unwrap().to_string();
    let mut engine = TantivyEngine::new_with_path(path).unwrap();
    assert_eq!(engine.attach(true).unwrap(), Opened::Recreate);
    assert!(!engine.has_index());
    // In a directory that holds an index none can be created.
    assert!(engine.attach(false).is_err());
}

#[test]
fn test_lookups_skip_what_is_not_eligible() {
    let (_dir, engine) = create_test_engine();
    let entries = vec![file("/docs/a.txt", "alpha", 5), file("/docs/b.dll", "beta", 5)];
    engine.index_folder(true, &entries).unwrap();
    // Even a document that the index holds is not looked up for a file
    // that is not eligible.
    engine.index_file(&file("/docs/c.md", "gamma", 9)).unwrap();
    let mut directory = file("/docs/c.md", "gamma", 9);
    directory.is_file = false;
    let asked = vec![file("/docs/a.txt", "alpha", 5), file("/docs/b.dll", "beta", 5), directory];
    assert_eq!(engine.indexed_mtimes(&asked), vec![Some(5), None, None]);
}

#[test]
fn test_exact_search_looks_in_body_and_name() {
    let (_dir, engine) = create_test_engine();
    let entries = vec![file("/docs/alpha.txt", "beta", 5), file("/docs/gamma.md", "delta", 5)];
    engine.index_folder(true, &entries).unwrap();
    let names = |query: &str| -> Vec<String> {
        engine.search(query, 10).unwrap().into_iter().map(|r| r.file_name).collect()
    };
    assert_eq!(names("beta"), vec!["alpha.txt"]);
    assert_eq!(names("alpha"), vec!["alpha.txt"]);
    assert_eq!(names("gamma"), vec!["gamma.md"]);
    // The words of the name are searched, the key is not.
    assert_eq!(names("md"), vec!["gamma.md"]);
    assert!(names("docs").is_empty());
}

#[test]
fn test_fuzzy_search_counts_a_swap_as_one_edit() {
    let (_dir, engine) = create_test_engine();
    engine.index_folder(true, &vec![file("/docs/a.txt", "reading list", 5)]).unwrap();
    // Four bytes allow one edit, and "lsit" is one swap away from "list".
    assert_eq!(engine.search_enhanced("lsit", 10, true, false).unwrap().len(), 1);
    assert_eq!(engine.search_enhanced("lsit", 10, false, false).unwrap().len(), 0);
}
