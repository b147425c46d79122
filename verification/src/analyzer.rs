//! The analyzer's state: one entry per open file, each with its text and its
//! classification.  Changing a file updates or creates its entry; a newly
//! seen flake manifest queues a lock-fetch request and is marked pending;
//! a delivered fetch result marks it locked with its inputs.

use vstd::prelude::*;
use crate::fetcher::{BlockingFetcher, FetcherInput};
use crate::file_types::{FileInfo, FileType, LockedFlake, init_file_info, is_flake_path};
use crate::schema::Schema;
use crate::walk_attrs::safe_stringify_flake;
use crate::tree::parse;
use crate::node::{Cast, nth_node};
use crate::render::opt_view;
use crate::strutil::{push_str_chars, chars_to_string, str_eq_str};
use std::sync::Arc;

verus! {

/// One open file: its text and its classification.
pub struct AnalyzedFile {
    pub contents: String,
    pub file_info: FileInfo,
}

/// The analyzer: the open files and the fetcher that resolves flake locks.
pub struct Analyzer {
    pub files: Vec<(String, AnalyzedFile)>,
    pub fetcher: BlockingFetcher,
}

/// The index of a file entry by path, the first of the name.
pub open spec fn g_file_index(files: Seq<(String, AnalyzedFile)>, path: Seq<char>) -> Option<int>
    decreases files.len(),
{
    if files.len() == 0 {
        None
    } else if files[0].0@ == path {
        Some(0int)
    } else {
        match g_file_index(files.drop_first(), path) {
            Some(i) => Some(i + 1),
            None => None,
        }
    }
}

/// The file list after one entry's text was replaced: the entry keeps its
/// key and classification, only its contents change, and every other entry
/// stands untouched.
pub open spec fn g_text_replaced(
    before: Seq<(String, AnalyzedFile)>,
    after: Seq<(String, AnalyzedFile)>,
    i: int,
    contents: Seq<char>,
) -> bool {
    &&& after.len() == before.len()
    &&& forall|k: int| 0 <= k < before.len() && k != i ==> after[k] == before[k]
    &&& 0 <= i < after.len()
    &&& after[i].0 == before[i].0
    &&& after[i].1.contents@ == contents
    &&& after[i].1.file_info == before[i].1.file_info
}

/// What a newly opened file's entry must hold: the path as its key, the
/// given text, and the classification its path and surroundings prescribe —
/// a manifest path becomes a pending flake with the manifest schema, a file
/// under a recognised package-set root a source-tree member, anything else a
/// generic module with the fallback root and schema.
pub open spec fn g_new_entry(
    entry: (String, AnalyzedFile),
    path: Seq<char>,
    contents: Seq<char>,
    nixpkgs_root: Option<String>,
    fallback_nixpkgs: Seq<char>,
    fallback_schema: Arc<Schema>,
    flake_schema: Arc<Schema>,
) -> bool {
    &&& entry.0@ == path
    &&& entry.1.contents@ == contents
    &&& entry.1.file_info.path@ == path
    &&& if is_flake_path(path) {
        entry.1.file_info.file_type matches FileType::Flake {
            locked: LockedFlake::Pending,
            schema: s,
        } && s == flake_schema
    } else {
        match nixpkgs_root {
            Some(root) => entry.1.file_info.file_type matches FileType::Nixpkgs {
                nixpkgs_path: p,
                relative_path: rel,
            } && p@ == root@ && rel@ == crate::file_types::strip_dir_prefix(path, root@),
            None => entry.1.file_info.file_type matches FileType::Other {
                nixpkgs_path: np,
                schema: s,
            } && np@ == fallback_nixpkgs && s == fallback_schema,
        }
    }
}

impl Analyzer {
    /// An analyzer with no files open.
    pub fn new(fetcher: BlockingFetcher) -> (r: Analyzer)
        ensures
            r.files@.len() == 0,
            r.fetcher == fetcher,
    {
        Analyzer { files: Vec::new(), fetcher }
    }

    /// The position of a file's entry.
    pub fn file_index(&self, path: &str) -> (r: Option<usize>)
        ensures
            match r {
                Some(i) => g_file_index(self.files@, path@) == Some(i as int) && i
                    < self.files@.len(),
                None => g_file_index(self.files@, path@) is None,
            },
    {
        let ghost fs = self.files@;
        let n = self.files.len();
        let mut i: usize = 0;
        proof {
            assert(fs.skip(0) =~= fs);
        }
        while i < n
            invariant
                n == self.files@.len(),
                fs == self.files@,
                i <= n,
                match g_file_index(fs.skip(i as int), path@) {
                    Some(rel) => g_file_index(fs, path@) == Some(rel + i),
                    None => g_file_index(fs, path@) is None,
                },
            decreases n - i,
        {
            proof {
                assert(fs.skip(i as int)[0] == fs[i as int]);
                assert(fs.skip(i as int).drop_first() =~= fs.skip(i + 1));
            }
            if str_eq_str(self.files[i].0.as_str(), path) {
                return Some(i);
            }
            i = i + 1;
        }
        proof {
            assert(fs.skip(n as int) =~= Seq::<(String, AnalyzedFile)>::empty());
        }
        None
    }

    /// Registers a change to a file.  A file already open only has its text
    /// replaced.  A new file is classified; a new flake manifest also queues
    /// one lock-fetch request, built from its rendered inputs and the
    /// sibling lock document the caller read, and starts out pending.
    pub fn change_file(
        &mut self,
        path: &str,
        contents: &str,
        nixpkgs_root: Option<String>,
        fallback_nixpkgs: String,
        fallback_schema: Arc<Schema>,
        flake_schema: Arc<Schema>,
        old_lock_file: Option<String>,
    )
        ensures
            match g_file_index(old(self).files@, path@) {
                Some(i) => g_text_replaced(old(self).files@, final(self).files@, i, contents@)
                    && final(self).fetcher == old(self).fetcher,
                None => final(self).files@.len() == old(self).files@.len() + 1
                    && final(self).files@.take(old(self).files@.len() as int) == old(self).files@
                    && g_new_entry(final(self).files@.last(), path@, contents@, nixpkgs_root,
                    fallback_nixpkgs@, fallback_schema, flake_schema) && (if is_flake_path(path@) {
                    final(self).fetcher.outputs@.len() == old(self).fetcher.outputs@.len() + 1
                        && final(self).fetcher.outputs@.take(
                        old(self).fetcher.outputs@.len() as int,
                    ) == old(self).fetcher.outputs@
                } else {
                    final(self).fetcher == old(self).fetcher
                }),
            },
    {
        match self.file_index(path) {
            Some(i) => {
                let owned = copy_str(contents);
                let entry = self.files.remove(i);
                let replaced = (entry.0, AnalyzedFile { contents: owned, file_info: entry.1.file_info });
                self.files.insert(i, replaced);
                proof {
                    assert(self.files@ =~= old(self).files@.update(
                        i as int,
                        self.files@[i as int],
                    ));
                }
            }
            None => {
                let mut info = init_file_info(
                    path,
                    nixpkgs_root,
                    fallback_nixpkgs,
                    fallback_schema,
                    flake_schema,
                );
                let is_new_flake = match &info.file_type {
                    FileType::Flake { locked: LockedFlake::Unlocked, schema: _ } => true,
                    _ => false,
                };
                if is_new_flake {
                    let root = parse(contents);
                    let base = info.base_path();
                    let source = safe_stringify_flake(
                        nth_node(&root, Cast::Expr, 0),
                        base.as_str(),
                    );
                    self.fetcher.send(
                        FetcherInput { path: copy_str(path), source, old_lock_file },
                    );
                    info = set_pending(info);
                }
                let owned = copy_str(contents);
                self.files.push((copy_str(path), AnalyzedFile { contents: owned, file_info: info }));
                proof {
                    assert(self.files@.take(old(self).files@.len() as int) =~= old(self).files@);
                }
            }
        }
    }

    /// Applies one delivered lock-fetch result: the file, if still open,
    /// becomes a locked flake carrying the lock document and its inputs
    /// expression; its text stays as it is.
    pub fn apply_fetcher_output(&mut self, path: &str, lock_file: String, inputs: String)
        ensures
            final(self).files@.len() == old(self).files@.len(),
            final(self).fetcher == old(self).fetcher,
            match g_file_index(old(self).files@, path@) {
                Some(i) => (match old(self).files@[i].1.file_info.file_type {
                    FileType::Flake { locked: _, schema: _ } => (final(self).files@[i].1.file_info.file_type matches FileType::Flake {
                        locked: LockedFlake::Locked { lock_file: lf, inputs: inp },
                        schema: _,
                    } && lf == lock_file && inp == inputs),
                    _ => final(self).files@ == old(self).files@,
                }),
                None => final(self).files@ == old(self).files@,
            },
    {
        match self.file_index(path) {
            None => {}
            Some(i) => {
                let entry = self.files.remove(i);
                let (name, file) = entry;
                match file.file_info.file_type {
                    FileType::Flake { locked: _, schema } => {
                        let updated = AnalyzedFile {
                            contents: file.contents,
                            file_info: FileInfo {
                                file_type: FileType::Flake {
                                    locked: LockedFlake::Locked { lock_file, inputs },
                                    schema,
                                },
                                path: file.file_info.path,
                            },
                        };
                        self.files.insert(i, (name, updated));
                        proof {
                            assert(self.files@ =~= old(self).files@.update(
                                i as int,
                                self.files@[i as int],
                            ));
                        }
                    }
                    other => {
                        let restored = AnalyzedFile {
                            contents: file.contents,
                            file_info: FileInfo { file_type: other, path: file.file_info.path },
                        };
                        self.files.insert(i, (name, restored));
                        proof {
                            assert(self.files@ =~= old(self).files@);
                        }
                    }
                }
            }
        }
    }
}

fn copy_str(s: &str) -> (r: String)
    ensures
        r@ == s@,
{
    let mut v: Vec<char> = Vec::new();
    push_str_chars(s, &mut v);
    proof {
        assert(v@ =~= s@);
    }
    chars_to_string(&v)
}

fn set_pending(info: FileInfo) -> (r: FileInfo)
    ensures
        match info.file_type {
            FileType::Flake { locked: _, schema: s0 } => (
            r.file_type matches FileType::Flake { locked: LockedFlake::Pending, schema: s } && s
                == s0 && r.path == info.path),
            _ => r == info,
        },
{
    match info.file_type {
        FileType::Flake { locked: _, schema } => FileInfo {
            file_type: FileType::Flake { locked: LockedFlake::Pending, schema },
            path: info.path,
        },
        other => FileInfo { file_type: other, path: info.path },
    }
}

} // verus!
