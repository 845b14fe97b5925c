//! The classes of file extension: which files are indexed with their
//! contents, which by name alone, and how an extension moves a launcher score.

use vstd::prelude::*;
use crate::path_utils::extension_chars;
use crate::path_utils::extension_of;
use crate::text::chars_of;
use crate::text::equals_literal;
use crate::text::lowercase_of;
use crate::text::string_of;
use crate::text::to_lowercase;

verus! {

/// Lower-case extensions of files whose contents are read as text.
pub open spec fn text_class(e: Seq<char>) -> bool {
    ||| e == "txt"@
    ||| e == "md"@
    ||| e == "json"@
    ||| e == "rs"@
    ||| e == "py"@
    ||| e == "js"@
    ||| e == "ts"@
    ||| e == "tsx"@
    ||| e == "jsx"@
    ||| e == "html"@
    ||| e == "css"@
    ||| e == "xml"@
    ||| e == "yaml"@
    ||| e == "yml"@
    ||| e == "toml"@
    ||| e == "ini"@
    ||| e == "conf"@
    ||| e == "log"@
    ||| e == "csv"@
    ||| e == "sh"@
    ||| e == "bat"@
    ||| e == "ps1"@
    ||| e == "c"@
    ||| e == "cpp"@
    ||| e == "h"@
    ||| e == "hpp"@
    ||| e == "java"@
    ||| e == "go"@
    ||| e == "rb"@
    ||| e == "php"@
    ||| e == "vue"@
    ||| e == "svelte"@
    ||| e == "sql"@
    ||| e == "r"@
    ||| e == "scala"@
    ||| e == "kt"@
    ||| e == "swift"@
    ||| e == "dart"@
    ||| e == "lua"@
    ||| e == "pl"@
    ||| e == "pm"@
}

/// Lower-case extensions of files that are indexed by their name alone.
pub open spec fn name_only_class(e: Seq<char>) -> bool {
    ||| e == "pdf"@
    ||| e == "doc"@
    ||| e == "docx"@
    ||| e == "xls"@
    ||| e == "xlsx"@
    ||| e == "ppt"@
    ||| e == "pptx"@
    ||| e == "odt"@
    ||| e == "ods"@
    ||| e == "odp"@
    ||| e == "epub"@
    ||| e == "mobi"@
    ||| e == "azw"@
    ||| e == "azw3"@
    ||| e == "fb2"@
    ||| e == "djvu"@
    ||| e == "jpg"@
    ||| e == "jpeg"@
    ||| e == "png"@
    ||| e == "gif"@
    ||| e == "bmp"@
    ||| e == "svg"@
    ||| e == "webp"@
    ||| e == "ico"@
    ||| e == "tiff"@
    ||| e == "mp3"@
    ||| e == "wav"@
    ||| e == "flac"@
    ||| e == "ogg"@
    ||| e == "mp4"@
    ||| e == "mkv"@
    ||| e == "avi"@
    ||| e == "mov"@
    ||| e == "wmv"@
    ||| e == "zip"@
    ||| e == "rar"@
    ||| e == "7z"@
    ||| e == "tar"@
    ||| e == "gz"@
    ||| e == "bz2"@
    ||| e == "exe"@
    ||| e == "msi"@
    ||| e == "dmg"@
    ||| e == "app"@
    ||| e == "apk"@
    ||| e == "iso"@
    ||| e == "torrent"@
}

/// Lower-case extensions of the common plain text formats.
pub open spec fn plain_text_class(e: Seq<char>) -> bool {
    ||| e == "txt"@
    ||| e == "md"@
    ||| e == "json"@
    ||| e == "rs"@
    ||| e == "py"@
    ||| e == "js"@
    ||| e == "ts"@
    ||| e == "html"@
    ||| e == "css"@
    ||| e == "xml"@
    ||| e == "yaml"@
    ||| e == "yml"@
    ||| e == "toml"@
    ||| e == "ini"@
    ||| e == "conf"@
    ||| e == "log"@
    ||| e == "csv"@
}

/// Lower-case extensions of things a launcher starts.
pub open spec fn application_class(e: Seq<char>) -> bool {
    ||| e == "exe"@
    ||| e == "lnk"@
    ||| e == "app"@
    ||| e == "bat"@
    ||| e == "cmd"@
}

/// Lower-case extensions of source and system files.
pub open spec fn source_class(e: Seq<char>) -> bool {
    ||| e == "rs"@
    ||| e == "json"@
    ||| e == "dll"@
    ||| e == "xml"@
    ||| e == "sys"@
    ||| e == "ts"@
    ||| e == "js"@
    ||| e == "css"@
    ||| e == "html"@
}

/// An extension is text-indexable when its lower-case form is in the text class.
pub open spec fn is_text_extension(ext: Seq<char>) -> bool {
    text_class(lowercase_of(ext))
}

/// An extension is name-only when its lower-case form is in the name-only class.
pub open spec fn is_name_only_extension(ext: Seq<char>) -> bool {
    name_only_class(lowercase_of(ext))
}

/// The recognized extensions: only files that carry one are indexed.
pub open spec fn is_recognized_extension(ext: Seq<char>) -> bool {
    is_text_extension(ext) || is_name_only_extension(ext)
}

/// Whether the final component of `path` carries a recognized extension.
pub open spec fn has_recognized_extension(path: Seq<char>) -> bool {
    extension_of(path) matches Some(ext) && is_recognized_extension(ext)
}

/// Whether a lower-case extension is in the text class.
pub fn in_text_class(e: &Vec<char>) -> (r: bool)
    ensures
        r == text_class(e@),
{
    equals_literal(e, "txt")
        || equals_literal(e, "md")
        || equals_literal(e, "json")
        || equals_literal(e, "rs")
        || equals_literal(e, "py")
        || equals_literal(e, "js")
        || equals_literal(e, "ts")
        || equals_literal(e, "tsx")
        || equals_literal(e, "jsx")
        || equals_literal(e, "html")
        || equals_literal(e, "css")
        || equals_literal(e, "xml")
        || equals_literal(e, "yaml")
        || equals_literal(e, "yml")
        || equals_literal(e, "toml")
        || equals_literal(e, "ini")
        || equals_literal(e, "conf")
        || equals_literal(e, "log")
        || equals_literal(e, "csv")
        || equals_literal(e, "sh")
        || equals_literal(e, "bat")
        || equals_literal(e, "ps1")
        || equals_literal(e, "c")
        || equals_literal(e, "cpp")
        || equals_literal(e, "h")
        || equals_literal(e, "hpp")
        || equals_literal(e, "java")
        || equals_literal(e, "go")
        || equals_literal(e, "rb")
        || equals_literal(e, "php")
        || equals_literal(e, "vue")
        || equals_literal(e, "svelte")
        || equals_literal(e, "sql")
        || equals_literal(e, "r")
        || equals_literal(e, "scala")
        || equals_literal(e, "kt")
        || equals_literal(e, "swift")
        || equals_literal(e, "dart")
        || equals_literal(e, "lua")
        || equals_literal(e, "pl")
        || equals_literal(e, "pm")
}

/// Whether a lower-case extension is in the name-only class.
pub fn in_name_only_class(e: &Vec<char>) -> (r: bool)
    ensures
        r == name_only_class(e@),
{
    equals_literal(e, "pdf")
        || equals_literal(e, "doc")
        || equals_literal(e, "docx")
        || equals_literal(e, "xls")
        || equals_literal(e, "xlsx")
        || equals_literal(e, "ppt")
        || equals_literal(e, "pptx")
        || equals_literal(e, "odt")
        || equals_literal(e, "ods")
        || equals_literal(e, "odp")
        || equals_literal(e, "epub")
        || equals_literal(e, "mobi")
        || equals_literal(e, "azw")
        || equals_literal(e, "azw3")
        || equals_literal(e, "fb2")
        || equals_literal(e, "djvu")
        || equals_literal(e, "jpg")
        || equals_literal(e, "jpeg")
        || equals_literal(e, "png")
        || equals_literal(e, "gif")
        || equals_literal(e, "bmp")
        || equals_literal(e, "svg")
        || equals_literal(e, "webp")
        || equals_literal(e, "ico")
        || equals_literal(e, "tiff")
        || equals_literal(e, "mp3")
        || equals_literal(e, "wav")
        || equals_literal(e, "flac")
        || equals_literal(e, "ogg")
        || equals_literal(e, "mp4")
        || equals_literal(e, "mkv")
        || equals_literal(e, "avi")
        || equals_literal(e, "mov")
        || equals_literal(e, "wmv")
        || equals_literal(e, "zip")
        || equals_literal(e, "rar")
        || equals_literal(e, "7z")
        || equals_literal(e, "tar")
        || equals_literal(e, "gz")
        || equals_literal(e, "bz2")
        || equals_literal(e, "exe")
        || equals_literal(e, "msi")
        || equals_literal(e, "dmg")
        || equals_literal(e, "app")
        || equals_literal(e, "apk")
        || equals_literal(e, "iso")
        || equals_literal(e, "torrent")
}

/// Whether a lower-case extension is one of the common plain text formats.
pub fn in_plain_text_class(e: &Vec<char>) -> (r: bool)
    ensures
        r == plain_text_class(e@),
{
    equals_literal(e, "txt")
        || equals_literal(e, "md")
        || equals_literal(e, "json")
        || equals_literal(e, "rs")
        || equals_literal(e, "py")
        || equals_literal(e, "js")
        || equals_literal(e, "ts")
        || equals_literal(e, "html")
        || equals_literal(e, "css")
        || equals_literal(e, "xml")
        || equals_literal(e, "yaml")
        || equals_literal(e, "yml")
        || equals_literal(e, "toml")
        || equals_literal(e, "ini")
        || equals_literal(e, "conf")
        || equals_literal(e, "log")
        || equals_literal(e, "csv")
}

/// Whether a lower-case extension is in the application class.
pub fn in_application_class(e: &Vec<char>) -> (r: bool)
    ensures
        r == application_class(e@),
{
    equals_literal(e, "exe")
        || equals_literal(e, "lnk")
        || equals_literal(e, "app")
        || equals_literal(e, "bat")
        || equals_literal(e, "cmd")
}

/// Whether a lower-case extension is in the source class.
pub fn in_source_class(e: &Vec<char>) -> (r: bool)
    ensures
        r == source_class(e@),
{
    equals_literal(e, "rs")
        || equals_literal(e, "json")
        || equals_literal(e, "dll")
        || equals_literal(e, "xml")
        || equals_literal(e, "sys")
        || equals_literal(e, "ts")
        || equals_literal(e, "js")
        || equals_literal(e, "css")
        || equals_literal(e, "html")
}

/// The lower-case form of a string held as characters.
pub fn lowercase_chars(s: &Vec<char>) -> (r: Vec<char>)
    ensures
        r@ == lowercase_of(s@),
{
    let text = string_of(s);
    let lower = to_lowercase(text.as_str());
    chars_of(lower.as_str())
}

/// Whether files with this extension are indexed with their contents.
pub fn is_text_indexable(ext: &str) -> (r: bool)
    ensures
        r == is_text_extension(ext@),
{
    let lower = to_lowercase(ext);
    in_text_class(&chars_of(lower.as_str()))
}

/// Whether files with this extension are indexed by their name alone.
pub fn is_filename_only_indexable(ext: &str) -> (r: bool)
    ensures
        r == is_name_only_extension(ext@),
{
    let lower = to_lowercase(ext);
    in_name_only_class(&chars_of(lower.as_str()))
}

/// Whether files with this extension are indexed at all.
pub fn is_indexable_ext(ext: &str) -> (r: bool)
    ensures
        r == is_recognized_extension(ext@),
{
    let lower = to_lowercase(ext);
    let e = chars_of(lower.as_str());
    in_text_class(&e) || in_name_only_class(&e)
}

/// Whether the file at `path` is indexed at all, going by its extension.
pub fn is_indexable_path(path: &str) -> (r: bool)
    ensures
        r == has_recognized_extension(path@),
{
    match extension_chars(&chars_of(path)) {
        Some(ext) => {
            let e = lowercase_chars(&ext);
            in_text_class(&e) || in_name_only_class(&e)
        },
        None => false,
    }
}

/// Whether `path` names a file in one of the common plain text formats.
pub fn is_text_file(path: &str) -> (r: bool)
    ensures
        r == (extension_of(path@) matches Some(ext) && plain_text_class(lowercase_of(ext))),
{
    match extension_chars(&chars_of(path)) {
        Some(ext) => in_plain_text_class(&lowercase_chars(&ext)),
        None => false,
    }
}

} // verus!
