//! One file of a module: where it comes from, where it goes, and whether it
//! is rendered or linked.
use vstd::prelude::*;

use crate::paths::{child, child_path};

verus! {

/// A file entry as written in a module's `files` list.
#[derive(Debug, Clone)]
pub enum FileEntry {
    /// A bare path, relative to the module's source directory; the target
    /// has the same relative path under the target directory.
    Path(String),
    /// An entry with a source path, an optional target path (the source
    /// path when absent) and an optional render flag (off when absent).
    Spec { source: String, target: Option<String>, parse: Option<bool> },
}

/// Relative source path of an entry.
pub open spec fn entry_source(e: FileEntry) -> Seq<char> {
    match e {
        FileEntry::Path(p) => p@,
        FileEntry::Spec { source, .. } => source@,
    }
}

/// Relative target path of an entry.
pub open spec fn entry_target(e: FileEntry) -> Seq<char> {
    match e {
        FileEntry::Path(p) => p@,
        FileEntry::Spec { source, target, .. } => match target {
            Some(t) => t@,
            None => source@,
        },
    }
}

/// Whether an entry asks for rendering.
pub open spec fn entry_render(e: FileEntry) -> bool {
    match e {
        FileEntry::Path(_) => false,
        FileEntry::Spec { parse, .. } => match parse {
            Some(b) => b,
            None => false,
        },
    }
}

/// A source→target mapping with its materialization policy.
#[derive(Debug, Clone)]
pub struct File {
    pub source: String,
    pub target: String,
    /// Render the source with the variables instead of linking it.
    pub to_parse: bool,
}

/// `f` is the file that entry `e` describes under the two directories. An
/// empty source path stands for the directories themselves.
pub open spec fn built_from(f: File, e: FileEntry, source_dir: Seq<char>, target_dir: Seq<char>) -> bool {
    &&& f.to_parse == entry_render(e)
    &&& if entry_source(e).len() == 0 {
        f.source@ == source_dir && f.target@ == target_dir
    } else {
        f.source@ == child(source_dir, entry_source(e)) && f.target@ == child(
            target_dir,
            entry_target(e),
        )
    }
}

impl File {
    pub fn new(entry: &FileEntry, source_dir: &String, target_dir: &String) -> (r: File)
        ensures
            built_from(r, *entry, source_dir@, target_dir@),
    {
        let (source_file, target_file, parse) = match entry {
            FileEntry::Path(p) => (p, p, false),
            FileEntry::Spec { source, target, parse } => {
                let t = match target {
                    Some(t) => t,
                    None => source,
                };
                let b = match parse {
                    Some(b) => *b,
                    None => false,
                };
                (source, t, b)
            },
        };
        if source_file.as_str().is_empty() {
            File { source: source_dir.clone(), target: target_dir.clone(), to_parse: parse }
        } else {
            File {
                source: child_path(source_dir.as_str(), source_file.as_str()),
                target: child_path(target_dir.as_str(), target_file.as_str()),
                to_parse: parse,
            }
        }
    }

    pub fn get_source(&self) -> (r: &String)
        ensures
            r == &self.source,
    {
        &self.source
    }
}

} // verus!
