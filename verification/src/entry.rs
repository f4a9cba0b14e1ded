//! A template as it stands among the options: compiled, with its directory
//! and its place.

use crate::ada::{pattern_source, PathX};
use vstd::prelude::*;

verus! {

/// What `std::path::Path::parent` returns for a path, as text: the path
/// without its last component, or `None` where it has none to leave out.
pub uninterp spec fn parent_text(path: Seq<char>) -> Option<Seq<char>>;

/// `std::path::Path::parent`, on a path given and returned as text: the result
/// is `parent_text` of the path. Where there is a parent, it is the path
/// without its last component, so the path begins with it and is longer than
/// it; the empty path has no parent.
#[verifier::external_body]
fn parent_of(path: &str) -> (dir: Option<String>)
    ensures
        dir matches Some(d) ==> parent_text(path@) == Some(d@),
        dir is None ==> parent_text(path@) is None,
        dir matches Some(d) ==> d@.is_prefix_of(path@) && d@.len() < path@.len(),
        path@.len() == 0 ==> dir is None,
{
    std::path::Path::new(path).parent().and_then(|p| p.to_str()).map(|d| d.to_string())
}

/// Why a template could not become an entry.
#[derive(Debug, Clone, Copy, PartialEq, Eq)]
pub enum EntryError {
    /// The template has no parent directory.
    NoParent,
    /// The template does not compile.
    Pattern,
}

/// A compiled template, the directory that its files lie in, and the place of
/// the template among the options.
#[derive(Debug)]
pub struct PathXEntry {
    pub dir: String,
    pub pathx: PathX,
    pub idx: usize,
}

impl PathXEntry {
    /// The entry for the template `path` at place `idx`, given the parent
    /// directory of the template, if it has one.
    pub fn with_dir(dir: Option<String>, path: &str, idx: usize) -> (r: Result<
        PathXEntry,
        EntryError,
    >)
        ensures
            match (dir, pattern_source(path@)) {
                (None, _) => r matches Err(EntryError::NoParent),
                (Some(_), None) => r matches Err(EntryError::Pattern),
                (Some(d), Some(source)) => r matches Ok(entry) && entry.dir == d
                    && entry.pathx.source() == source && entry.idx == idx,
            },
    {
        let dir = match dir {
            Some(dir) => dir,
            None => {
                return Err(EntryError::NoParent);
            },
        };
        match PathX::new(path) {
            Ok(pathx) => Ok(PathXEntry { dir, pathx, idx }),
            Err(_) => Err(EntryError::Pattern),
        }
    }

    /// The entry for the template `path` at place `idx`. Its directory is the
    /// parent of the template: the template without its last component. A
    /// template without a parent, such as the empty one, gives `NoParent`
    /// whether it compiles or not.
    pub fn new(path: &str, idx: usize) -> (r: Result<PathXEntry, EntryError>)
        ensures
            match (parent_text(path@), pattern_source(path@)) {
                (None, _) => r matches Err(EntryError::NoParent),
                (Some(_), None) => r matches Err(EntryError::Pattern),
                (Some(d), Some(source)) => r matches Ok(entry) && entry.dir@ == d
                    && entry.pathx.source() == source && entry.idx == idx,
            },
            r matches Ok(entry) ==> entry.dir@.is_prefix_of(path@) && entry.dir@.len()
                < path@.len(),
            path@.len() == 0 ==> r matches Err(EntryError::NoParent),
    {
        PathXEntry::with_dir(parent_of(path), path, idx)
    }
}

} // verus!
