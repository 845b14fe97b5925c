//! Paths as plain text: the final component of a path and its extension.
//!
//! Both `/` and `\` separate components, on every platform: a path means
//! the same wherever the index is read, and a name that holds `\` is cut
//! at it even where the file system would take it for part of the name.

use vstd::prelude::*;
use crate::text::chars_of;
use crate::text::slice_of;
use crate::text::string_of;

verus! {

/// Whether `c` separates the components of a path: `/` and `\` both do,
/// on every platform.
pub open spec fn is_separator(c: char) -> bool {
    c == '/' || c == '\\'
}

/// The length of the first `n` characters of `path` once separators and
/// `.` components at their end are left off.
pub open spec fn stem_len(path: Seq<char>, n: int) -> int
    decreases n,
{
    if n <= 0 {
        0
    } else if is_separator(path[n - 1]) {
        stem_len(path, n - 1)
    } else if path[n - 1] == '.' && n >= 2 && is_separator(path[n - 2]) {
        stem_len(path, n - 1)
    } else {
        n
    }
}

/// Where the component that ends before index `n` begins.
pub open spec fn component_start(path: Seq<char>, n: int) -> int
    decreases n,
{
    if n <= 0 {
        0
    } else if is_separator(path[n - 1]) {
        n
    } else {
        component_start(path, n - 1)
    }
}

/// The final component of `path`, unless the path ends in `..`, is `.`, or
/// has no component at all.
pub open spec fn file_name_of(path: Seq<char>) -> Option<Seq<char>> {
    let end = stem_len(path, path.len() as int);
    let name = path.subrange(component_start(path, end), end);
    if name.len() == 0 || name == seq!['.'] || name == seq!['.', '.'] {
        None
    } else {
        Some(name)
    }
}

/// The index of the last `.` among the first `n` characters of `name`, or
/// `-1` when there is none.
pub open spec fn last_dot(name: Seq<char>, n: int) -> int
    decreases n,
{
    if n <= 0 {
        -1
    } else if name[n - 1] == '.' {
        n - 1
    } else {
        last_dot(name, n - 1)
    }
}

/// What follows the last `.` of a file name. A name without a `.`, or whose
/// only `.` is its first character, has no extension.
pub open spec fn extension_of_name(name: Seq<char>) -> Option<Seq<char>> {
    let dot = last_dot(name, name.len() as int);
    if dot <= 0 {
        None
    } else {
        Some(name.subrange(dot + 1, name.len() as int))
    }
}

/// The extension of the final component of `path`.
pub open spec fn extension_of(path: Seq<char>) -> Option<Seq<char>> {
    match file_name_of(path) {
        Some(name) => extension_of_name(name),
        None => None,
    }
}

/// The text that `get_file_name` and `get_extension` give for a missing part.
pub open spec fn or_empty(part: Option<Seq<char>>) -> Seq<char> {
    match part {
        Some(s) => s,
        None => Seq::empty(),
    }
}

/// The final component of a path held as characters.
pub fn file_name_chars(path: &Vec<char>) -> (r: Option<Vec<char>>)
    ensures
        match file_name_of(path@) {
            Some(name) => r matches Some(v) && v@ == name,
            None => r is None,
        },
{
    let mut end: usize = path.len();
    while end > 0 && (path[end - 1] == '/' || path[end - 1] == '\\' || (path[end - 1] == '.' && end
        >= 2 && (path[end - 2] == '/' || path[end - 2] == '\\')))
        invariant
            end <= path.len(),
            stem_len(path@, path.len() as int) == stem_len(path@, end as int),
        decreases end,
    {
        end = end - 1;
    }
    let mut start: usize = end;
    while start > 0 && !(path[start - 1] == '/' || path[start - 1] == '\\')
        invariant
            start <= end <= path.len(),
            component_start(path@, end as int) == component_start(path@, start as int),
        decreases start,
    {
        start = start - 1;
    }
    let name = slice_of(path, start, end);
    let dots = name.len() == 1 && name[0] == '.' || name.len() == 2 && name[0] == '.' && name[1]
        == '.';
    proof {
        if name.len() == 1 && name[0] == '.' {
            assert(name@ =~= seq!['.']);
        }
        if name.len() == 2 && name[0] == '.' && name[1] == '.' {
            assert(name@ =~= seq!['.', '.']);
        }
        if name@ == seq!['.'] {
            assert(name@.len() == 1 && name@[0] == '.');
        }
        if name@ == seq!['.', '.'] {
            assert(name@.len() == 2 && name@[0] == '.' && name@[1] == '.');
        }
    }
    if name.len() == 0 || dots {
        None
    } else {
        Some(name)
    }
}

/// The extension of a file name held as characters.
pub fn extension_of_name_chars(name: &Vec<char>) -> (r: Option<Vec<char>>)
    ensures
        match extension_of_name(name@) {
            Some(ext) => r matches Some(v) && v@ == ext,
            None => r is None,
        },
{
    let mut n: usize = name.len();
    while n > 0 && name[n - 1] != '.'
        invariant
            n <= name.len(),
            last_dot(name@, name.len() as int) == last_dot(name@, n as int),
        decreases n,
    {
        n = n - 1;
    }
    if n <= 1 {
        None
    } else {
        Some(slice_of(name, n, name.len()))
    }
}

/// The extension of the final component of a path held as characters.
pub fn extension_chars(path: &Vec<char>) -> (r: Option<Vec<char>>)
    ensures
        match extension_of(path@) {
            Some(ext) => r matches Some(v) && v@ == ext,
            None => r is None,
        },
{
    match file_name_chars(path) {
        Some(name) => extension_of_name_chars(&name),
        None => None,
    }
}

/// The path as text, unchanged.
pub fn normalize_path(path: &str) -> (r: String)
    ensures
        r@ == path@,
{
    path.to_owned()
}

/// The final component of `path`, or the empty string when it has none.
/// Both `/` and `\` end a component, on every platform.
pub fn get_file_name(path: &str) -> (r: String)
    ensures
        r@ == or_empty(file_name_of(path@)),
{
    let chars = chars_of(path);
    match file_name_chars(&chars) {
        Some(name) => string_of(&name),
        None => String::new(),
    }
}

/// The extension of the final component of `path`, or the empty string when
/// it has none. Both `/` and `\` end a component, on every platform.
pub fn get_extension(path: &str) -> (r: String)
    ensures
        r@ == or_empty(extension_of(path@)),
{
    let chars = chars_of(path);
    match extension_chars(&chars) {
        Some(ext) => string_of(&ext),
        None => String::new(),
    }
}

} // verus!
