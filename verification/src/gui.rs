//! The logic behind the graphical front end: the recently opened vaults, the
//! open vault and its unsaved-changes flag, path display, and the errors,
//! messages and prompts that the window shows.

use vstd::prelude::*;


pub mod error;
pub mod message;
pub mod prompt;
pub mod state;
pub mod timer;
pub mod vault;

verus! {

/// Name for the final component of the path `path` as `Path::file_name`
/// gives it, as text; `None` where the path ends in `..` or is a root or
/// empty.
pub uninterp spec fn spec_path_file_name(path: Seq<char>) -> Option<Seq<char>>;

/// Name for the components of the path `path` as `Path::components` gives
/// them, each as text.
pub uninterp spec fn spec_path_components(path: Seq<char>) -> Seq<Seq<char>>;

/// Name for the text of the path built by pushing each of `parts` in turn
/// onto an empty `PathBuf`.
pub uninterp spec fn spec_path_join(parts: Seq<Seq<char>>) -> Seq<char>;

/// `std::path::Path::file_name`, as text. A path made from a `&str` has a
/// final component that is valid UTF-8, so `to_str` keeps it whole.
#[verifier::external_body]
fn path_file_name(path: &str) -> (name: Option<String>)
    ensures
        name.deep_view() == spec_path_file_name(path@),
{
    std::path::Path::new(path).file_name().and_then(|f| f.to_str()).map(|f| f.to_string())
}

/// `std::path::Path::components`, each component as text.
#[verifier::external_body]
fn path_components(path: &str) -> (parts: Vec<String>)
    ensures
        parts.deep_view() == spec_path_components(path@),
{
    std::path::Path::new(path).components().map(|c| c.as_os_str().to_string_lossy().into_owned()).collect()
}

/// Collects `parts` into a `std::path::PathBuf` and displays it.
#[verifier::external_body]
fn path_join(parts: &Vec<String>) -> (path: String)
    ensures
        path@ == spec_path_join(parts.deep_view()),
{
    parts.iter().collect::<std::path::PathBuf>().display().to_string()
}

/// The text shown for a vault file: its final path component, or the whole
/// path where it has none.
pub open spec fn file_name_of(path: Seq<char>) -> Seq<char> {
    match spec_path_file_name(path) {
        Some(name) => name,
        None => path,
    }
}

/// The file name of `path`: its final component, or the whole path where it
/// has none.
pub fn get_file_name(path: &str) -> (name: String)
    ensures
        name@ == file_name_of(path@),
{
    match path_file_name(path) {
        Some(file) => file,
        None => path.to_owned(),
    }
}

/// The last `back_count` components of `path`, joined again; the whole path
/// where it has no more than that.
pub fn get_file_path_back_count(path: &str, back_count: usize) -> (shown: String)
    ensures
        spec_path_components(path@).len() <= back_count ==> shown@ == path@,
        spec_path_components(path@).len() > back_count ==> shown@ == spec_path_join(
            spec_path_components(path@).skip(spec_path_components(path@).len() - back_count),
        ),
{
    let parts = path_components(path);
    let ghost all = spec_path_components(path@);
    assert(parts@.len() == all.len());
    if parts.len() <= back_count {
        return path.to_owned();
    }
    let start = parts.len() - back_count;
    let mut tail: Vec<String> = Vec::new();
    let mut i: usize = start;
    while i < parts.len()
        invariant
            start <= i <= parts@.len(),
            parts.deep_view() == all,
            tail.deep_view() =~= all.subrange(start as int, i as int),
        decreases parts@.len() - i,
    {
        let ghost before = tail.deep_view();
        tail.push(parts[i].clone());
        assert(tail.deep_view() =~= before.push(all[i as int]));
        i = i + 1;
    }
    assert(all.subrange(start as int, i as int) =~= all.skip(all.len() - back_count));
    path_join(&tail)
}

} // verus!
