//! The document model: what is indexed for a file and for a browser record,
//! and when a file on disk is newer than its document.

use vstd::prelude::*;
use crate::extensions::has_recognized_extension;
use crate::extensions::in_text_class;
use crate::extensions::is_indexable_path;
use crate::extensions::lowercase_chars;
use crate::extensions::text_class;
use crate::path_utils::extension_of_name;
use crate::path_utils::extension_of_name_chars;
use crate::path_utils::file_name_chars;
use crate::path_utils::file_name_of;
use crate::path_utils::or_empty;
use crate::text::chars_of;
use crate::text::lowercase_of;
use crate::text::string_of;

verus! {

/// Files above this size, in bytes, are indexed without their contents.
pub const MAX_CONTENT_BYTES: u64 = 1_048_576;

/// One record of the index.
#[derive(Debug)]
pub struct Document {
    /// Unique identity: the path of a file, the URL of a browser record.
    pub key: String,
    /// File name or page title.
    pub display_name: String,
    /// Searched, never stored: the text of a file, or the name again.
    pub body: String,
    /// Lower-case extension of a file, or the browser a record came from.
    pub category: String,
    /// Size in bytes; 0 for a browser record.
    pub size: u64,
    /// Seconds since the epoch at which a file was last modified; 0 for a
    /// browser record.
    pub mtime: i64,
    /// The URL of a browser record; empty for a file.
    pub url: String,
    /// `file`, or the kind of the browser record.
    pub record_kind: String,
}

/// A document as mathematical values.
pub struct DocumentView {
    pub key: Seq<char>,
    pub display_name: Seq<char>,
    pub body: Seq<char>,
    pub category: Seq<char>,
    pub size: u64,
    pub mtime: i64,
    pub url: Seq<char>,
    pub record_kind: Seq<char>,
}

impl View for Document {
    type V = DocumentView;

    open spec fn view(&self) -> DocumentView {
        DocumentView {
            key: self.key@,
            display_name: self.display_name@,
            body: self.body@,
            category: self.category@,
            size: self.size,
            mtime: self.mtime,
            url: self.url@,
            record_kind: self.record_kind@,
        }
    }
}

/// What was found at a path on disk.
#[derive(Debug)]
pub struct FileEntry {
    pub path: String,
    /// Whether the path is a regular file.
    pub is_file: bool,
    /// Size in bytes.
    pub size: u64,
    /// Seconds since the epoch at which the file was last modified, if the
    /// file system told.
    pub mtime: Option<i64>,
    /// The contents, if they were read and are valid UTF-8.
    pub content: Option<String>,
}

/// A file entry as mathematical values.
pub struct FileEntryView {
    pub path: Seq<char>,
    pub is_file: bool,
    pub size: u64,
    pub mtime: Option<i64>,
    pub content: Option<Seq<char>>,
}

impl View for FileEntry {
    type V = FileEntryView;

    open spec fn view(&self) -> FileEntryView {
        FileEntryView {
            path: self.path@,
            is_file: self.is_file,
            size: self.size,
            mtime: self.mtime,
            content: match self.content {
                Some(text) => Some(text@),
                None => None,
            },
        }
    }
}

/// A page that a browser remembers: a bookmark or an entry of its history.
#[derive(Debug)]
pub struct BrowserData {
    pub url: String,
    pub title: String,
    /// The browser and profile the record came from.
    pub source: String,
    /// The kind of record: bookmark or history.
    pub data_type: String,
}

/// A browser record as mathematical values.
pub struct BrowserDataView {
    pub url: Seq<char>,
    pub title: Seq<char>,
    pub source: Seq<char>,
    pub data_type: Seq<char>,
}

impl View for BrowserData {
    type V = BrowserDataView;

    open spec fn view(&self) -> BrowserDataView {
        BrowserDataView {
            url: self.url@,
            title: self.title@,
            source: self.source@,
            data_type: self.data_type@,
        }
    }
}

/// The category of a file: the lower-case form of its extension, empty
/// when it has none.
pub open spec fn category_of(path: Seq<char>) -> Seq<char> {
    match file_name_of(path) {
        Some(name) => lowercase_of(or_empty(extension_of_name(name))),
        None => lowercase_of(Seq::empty()),
    }
}

/// Whether a file is indexed at all: it is a regular file and its
/// extension is recognized.
pub open spec fn is_eligible(file: FileEntryView) -> bool {
    file.is_file && has_recognized_extension(file.path)
}

/// Whether the contents of a file go into its document: its category is in
/// the text class and it is not above the size limit.
pub open spec fn wants_content(path: Seq<char>, size: u64) -> bool {
    text_class(category_of(path)) && size <= MAX_CONTENT_BYTES
}

/// The body of the document of a file: its contents where they are wanted
/// and were read, nothing where they are wanted and were not read or the
/// file is too large, and the file name for a file that is indexed by name.
pub open spec fn file_body(file: FileEntryView) -> Seq<char> {
    file_body_with(file, category_of(file.path))
}

/// The body of the document of a file of the category `category`.
pub open spec fn file_body_with(file: FileEntryView, category: Seq<char>) -> Seq<char> {
    if text_class(category) {
        if file.size <= MAX_CONTENT_BYTES {
            match file.content {
                Some(text) => text,
                None => Seq::empty(),
            }
        } else {
            Seq::empty()
        }
    } else {
        or_empty(file_name_of(file.path))
    }
}

/// The document of a file.
pub open spec fn file_document(file: FileEntryView) -> DocumentView {
    file_document_with(file, category_of(file.path))
}

/// The document of a file of the category `category`: the lower-case form
/// of its extension.
pub open spec fn file_document_with(file: FileEntryView, category: Seq<char>) -> DocumentView {
    DocumentView {
        key: file.path,
        display_name: or_empty(file_name_of(file.path)),
        body: file_body_with(file, category),
        category,
        size: file.size,
        mtime: match file.mtime {
            Some(t) => t,
            None => 0,
        },
        url: Seq::empty(),
        record_kind: "file"@,
    }
}

/// The document of a browser record.
pub open spec fn browser_document(record: BrowserDataView) -> DocumentView {
    DocumentView {
        key: record.url,
        display_name: record.title,
        body: record.url,
        category: record.source,
        size: 0,
        mtime: 0,
        url: record.url,
        record_kind: record.data_type,
    }
}

/// Whether a file must be indexed anew: it is not indexed yet, or it was
/// modified after it was indexed, or one of the two times is not known.
pub open spec fn is_stale(file_mtime: Option<i64>, indexed_mtime: Option<i64>) -> bool {
    match (file_mtime, indexed_mtime) {
        (Some(f), Some(i)) => f > i,
        _ => true,
    }
}

/// Whether a file must be indexed anew.
pub fn needs_update(file_mtime: Option<i64>, indexed_mtime: Option<i64>) -> (r: bool)
    ensures
        r == is_stale(file_mtime, indexed_mtime),
{
    match (file_mtime, indexed_mtime) {
        (Some(f), Some(i)) => f > i,
        _ => true,
    }
}

/// Whether a file is indexed at all.
pub fn is_indexable_file(file: &FileEntry) -> (r: bool)
    ensures
        r == is_eligible(file@),
{
    file.is_file && is_indexable_path(file.path.as_str())
}

/// Whether the contents of the file at `path`, of `size` bytes, are to be
/// read for its document.
pub fn should_read_content(path: &str, size: u64) -> (r: bool)
    ensures
        r == wants_content(path@, size),
{
    let category = match file_name_chars(&chars_of(path)) {
        Some(name) => match extension_of_name_chars(&name) {
            Some(ext) => lowercase_chars(&ext),
            None => lowercase_chars(&Vec::new()),
        },
        None => lowercase_chars(&Vec::new()),
    };
    in_text_class(&category) && size <= MAX_CONTENT_BYTES
}

/// Builds the document of a file.
pub fn document_of_file(file: &FileEntry) -> (r: Document)
    ensures
        r@ == file_document(file@),
{
    let ext: Vec<char> = match file_name_chars(&chars_of(file.path.as_str())) {
        Some(n) => match extension_of_name_chars(&n) {
            Some(e) => e,
            None => Vec::new(),
        },
        None => Vec::new(),
    };
    document_with_category(file, &lowercase_chars(&ext))
}

/// Builds the document of a file of the category `category`: the
/// lower-case form of its extension.
pub fn document_with_category(file: &FileEntry, category: &Vec<char>) -> (r: Document)
    ensures
        r@ == file_document_with(file@, category@),
{
    let path = chars_of(file.path.as_str());
    let name: Vec<char> = match file_name_chars(&path) {
        Some(n) => n,
        None => Vec::new(),
    };
    let body: String = if in_text_class(category) {
        if file.size <= MAX_CONTENT_BYTES {
            match &file.content {
                Some(text) => text.clone(),
                None => String::new(),
            }
        } else {
            String::new()
        }
    } else {
        string_of(&name)
    };
    Document {
        key: file.path.clone(),
        display_name: string_of(&name),
        body,
        category: string_of(category),
        size: file.size,
        mtime: match file.mtime {
            Some(t) => t,
            None => 0,
        },
        url: String::new(),
        record_kind: "file".to_owned(),
    }
}

/// Builds the document of a browser record.
pub fn document_of_record(record: &BrowserData) -> (r: Document)
    ensures
        r@ == browser_document(record@),
{
    Document {
        key: record.url.clone(),
        display_name: record.title.clone(),
        body: record.url.clone(),
        category: record.source.clone(),
        size: 0,
        mtime: 0,
        url: record.url.clone(),
        record_kind: record.data_type.clone(),
    }
}

} // verus!
