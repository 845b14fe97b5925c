//! The persisted settings: which folders are indexed, which key opens the
//! search window, whether browser records are searched.

use vstd::prelude::*;
use crate::text::string_views;

verus! {

/// The key combination that brings up the search window.
#[derive(Debug)]
pub struct HotkeyConfig {
    pub modifiers: Vec<String>,
    pub key: String,
}

/// The settings of the application.
#[derive(Debug)]
pub struct Config {
    pub indexed_folders: Vec<String>,
    pub hotkey: HotkeyConfig,
    pub enable_browser_search: bool,
}

/// Which browsers were found on the machine.
#[derive(Debug)]
pub struct BrowserStatus {
    pub installed_browsers: Vec<String>,
}

/// What a settings value holds, as mathematical values.
pub struct ConfigView {
    pub indexed_folders: Seq<Seq<char>>,
    pub modifiers: Seq<Seq<char>>,
    pub key: Seq<char>,
    pub enable_browser_search: bool,
}

impl View for Config {
    type V = ConfigView;

    open spec fn view(&self) -> ConfigView {
        ConfigView {
            indexed_folders: string_views(self.indexed_folders@),
            modifiers: string_views(self.hotkey.modifiers@),
            key: self.hotkey.key@,
            enable_browser_search: self.enable_browser_search,
        }
    }
}

/// What holds of every string but `path`.
pub open spec fn other_than(path: Seq<char>) -> spec_fn(Seq<char>) -> bool {
    |p: Seq<char>| p != path
}

/// The members of `folders` other than `path`, in order.
pub open spec fn without(folders: Seq<Seq<char>>, path: Seq<char>) -> Seq<Seq<char>> {
    folders.filter(other_than(path))
}

/// A copy of a list of strings.
pub fn clone_strings(v: &Vec<String>) -> (r: Vec<String>)
    ensures
        string_views(r@) == string_views(v@),
{
    let mut out: Vec<String> = Vec::new();
    let mut i: usize = 0;
    while i < v.len()
        invariant
            i <= v.len(),
            out.len() == i,
            forall|k: int| 0 <= k < i ==> out@[k]@ == v@[k]@,
        decreases v.len() - i,
    {
        out.push(v[i].clone());
        i = i + 1;
    }
    assert(string_views(out@) =~= string_views(v@));
    out
}

/// Whether `path` is a member of `folders`.
pub fn holds_folder(folders: &Vec<String>, path: &String) -> (r: bool)
    ensures
        r == string_views(folders@).contains(path@),
{
    let mut i: usize = 0;
    while i < folders.len()
        invariant
            i <= folders.len(),
            forall|k: int| 0 <= k < i ==> string_views(folders@)[k] != path@,
        decreases folders.len() - i,
    {
        if folders[i] == *path {
            assert(string_views(folders@)[i as int] == path@);
            return true;
        }
        i = i + 1;
    }
    false
}

/// The members of `folders` other than `folder`, as a list of strings.
pub fn folders_without(folders: &Vec<String>, folder: &str) -> (r: Vec<String>)
    ensures
        string_views(r@) == without(string_views(folders@), folder@),
{
    let mut kept: Vec<String> = Vec::new();
    let mut i: usize = 0;
    let ghost all = string_views(folders@);
    let target = folder.to_owned();
    proof {
        reveal(Seq::filter);
        assert(all.take(0) =~= Seq::<Seq<char>>::empty());
        assert(string_views(kept@) =~= Seq::<Seq<char>>::empty());
    }
    while i < folders.len()
        invariant
            i <= folders.len(),
            all == string_views(folders@),
            target@ == folder@,
            string_views(kept@) == without(all.take(i as int), folder@),
        decreases folders.len() - i,
    {
        proof {
            reveal(Seq::filter);
            assert(all.take(i + 1).drop_last() =~= all.take(i as int));
            assert(all.take(i + 1).last() == folders@[i as int]@);
        }
        if folders[i] != target {
            let ghost before = string_views(kept@);
            kept.push(folders[i].clone());
            assert(string_views(kept@) =~= before.push(folders@[i as int]@));
        }
        i = i + 1;
    }
    assert(all.take(all.len() as int) =~= all);
    kept
}

/// Browser search is off unless the settings file turns it on.
pub fn default_browser_search() -> (r: bool)
    ensures
        !r,
{
    false
}

impl Default for Config {
    /// No folder, `Alt` + `Space`, browser search off.
    fn default() -> (r: Self)
        ensures
            r@.indexed_folders == Seq::<Seq<char>>::empty(),
            r@.modifiers == seq!["Alt"@],
            r@.key == "Space"@,
            !r@.enable_browser_search,
    {
        let mut modifiers: Vec<String> = Vec::new();
        modifiers.push("Alt".to_owned());
        let r = Config {
            indexed_folders: Vec::new(),
            hotkey: HotkeyConfig { modifiers, key: "Space".to_owned() },
            enable_browser_search: default_browser_search(),
        };
        assert(r@.indexed_folders =~= Seq::<Seq<char>>::empty());
        assert(r@.modifiers =~= seq!["Alt"@]);
        r
    }
}

/// A copy of the settings.
pub fn get_config(config: &Config) -> (r: Config)
    ensures
        r@ == config@,
{
    Config {
        indexed_folders: clone_strings(&config.indexed_folders),
        hotkey: HotkeyConfig {
            modifiers: clone_strings(&config.hotkey.modifiers),
            key: config.hotkey.key.clone(),
        },
        enable_browser_search: config.enable_browser_search,
    }
}

/// Binds the search window to another key combination.
pub fn set_hotkey(config: &mut Config, modifiers: Vec<String>, key: String)
    ensures
        final(config)@ == (ConfigView {
            modifiers: string_views(modifiers@),
            key: key@,
            ..old(config)@
        }),
{
    config.hotkey = HotkeyConfig { modifiers, key };
}

/// Turns the search of browser records on or off.
pub fn set_browser_enabled(config: &mut Config, enabled: bool)
    ensures
        final(config)@ == (ConfigView { enable_browser_search: enabled, ..old(config)@ }),
{
    config.enable_browser_search = enabled;
}

/// The names of the browsers found, Chrome before Edge.
pub open spec fn installed_browsers(chrome: bool, edge: bool) -> Seq<Seq<char>> {
    (if chrome {
        seq!["Google Chrome"@]
    } else {
        Seq::empty()
    }) + (if edge {
        seq!["Microsoft Edge"@]
    } else {
        Seq::empty()
    })
}

/// Reports which browsers are installed, given whether the data directory
/// of each was found.
pub fn get_browser_status(chrome: bool, edge: bool) -> (r: BrowserStatus)
    ensures
        string_views(r.installed_browsers@) == installed_browsers(chrome, edge),
{
    let mut browsers: Vec<String> = Vec::new();
    if chrome {
        browsers.push("Google Chrome".to_owned());
    }
    if edge {
        browsers.push("Microsoft Edge".to_owned());
    }
    assert(string_views(browsers@) =~= installed_browsers(chrome, edge));
    BrowserStatus { installed_browsers: browsers }
}

/// The message for a path that is no folder.
pub open spec fn invalid_folder_message() -> Seq<char> {
    "Invalid folder path"@
}

/// Adds a folder to the indexed folders.
///
/// `is_dir` says whether the path was found to be a directory. A path that
/// is none is refused. A folder that is listed already is not listed twice;
/// the result says whether the list grew.
pub fn add_indexed_folder(config: &mut Config, path: String, is_dir: bool) -> (r: Result<
    bool,
    String,
>)
    ensures
        !is_dir ==> (r matches Err(message) && message@ == invalid_folder_message()
            && final(config)@ == old(config)@),
        is_dir ==> (r matches Ok(added) && added == !old(config)@.indexed_folders.contains(path@)
            && final(config)@ == (ConfigView {
            indexed_folders: if added {
                old(config)@.indexed_folders.push(path@)
            } else {
                old(config)@.indexed_folders
            },
            ..old(config)@
        })),
{
    if !is_dir {
        return Err("Invalid folder path".to_owned());
    }
    if holds_folder(&config.indexed_folders, &path) {
        Ok(false)
    } else {
        config.indexed_folders.push(path);
        assert(string_views(config.indexed_folders@) =~= old(config)@.indexed_folders.push(path@));
        Ok(true)
    }
}

/// Takes a folder off the indexed folders, wherever it is listed.
pub fn remove_indexed_folder(config: &mut Config, path: &String)
    ensures
        final(config)@ == (ConfigView {
            indexed_folders: without(old(config)@.indexed_folders, path@),
            ..old(config)@
        }),
{
    config.indexed_folders = folders_without(&config.indexed_folders, path.as_str());
}

/// The indexed folders, in the order in which they were added.
pub fn get_indexed_folders(config: &Config) -> (r: Vec<String>)
    ensures
        string_views(r@) == config@.indexed_folders,
{
    clone_strings(&config.indexed_folders)
}

} // verus!
