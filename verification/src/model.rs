//! Mathematical model of the filesystem: a ghost tree whose directories hold
//! their entries as a name-sorted sequence, and total spec functions defining
//! every tree operation the library performs.
use vstd::prelude::*;

verus! {

/// Ghost counterpart of a filesystem node: a directory with a sequence of
/// named children (kept strictly sorted by name), or a file with text content.
pub enum FsTree {
    Dir { entries: Seq<(Seq<char>, FsTree)> },
    File { content: Seq<char> },
}

/// Why a filesystem operation was refused.
#[derive(Clone, Copy, Debug, PartialEq, Eq, Structural)]
pub enum FsError {
    /// No node exists at the addressed path.
    NotFound,
    /// The parent of the addressed path resolves to a file.
    NotADirectory,
    /// The addressed node is a directory where a file was required.
    IsADirectory,
    /// The empty path was given to an operation that needs a name.
    InvalidPath,
    /// The parent of the addressed path does not exist.
    ParentNotFound,
    /// A child of the addressed name already exists.
    AlreadyExists,
}

/// Strict lexicographic order on character sequences, comparing code points.
pub open spec fn lex_lt(a: Seq<char>, b: Seq<char>) -> bool
    decreases a.len(),
{
    if b.len() == 0 {
        false
    } else if a.len() == 0 {
        true
    } else if a[0] != b[0] {
        (a[0] as int) < (b[0] as int)
    } else {
        lex_lt(a.drop_first(), b.drop_first())
    }
}

/// Entry names are strictly increasing, hence unique.
pub open spec fn entries_sorted(es: Seq<(Seq<char>, FsTree)>) -> bool {
    forall|i: int, j: int| 0 <= i < j < es.len() ==> lex_lt(es[i].0, es[j].0)
}

/// Well-formed tree: every directory's entries are strictly sorted by name,
/// recursively.
pub open spec fn tree_wf(t: FsTree) -> bool
    decreases t,
{
    match t {
        FsTree::Dir { entries } => {
            &&& entries_sorted(entries)
            &&& forall|i: int| 0 <= i < entries.len() ==> tree_wf(#[trigger] entries[i].1)
        },
        FsTree::File { .. } => true,
    }
}

/// The empty directory.
pub open spec fn empty_dir() -> FsTree {
    FsTree::Dir { entries: Seq::empty() }
}

/// The child of the given name, if one exists.
pub open spec fn find_entry(es: Seq<(Seq<char>, FsTree)>, name: Seq<char>) -> Option<FsTree>
    decreases es.len(),
{
    if es.len() == 0 {
        None
    } else if es[0].0 == name {
        Some(es[0].1)
    } else {
        find_entry(es.drop_first(), name)
    }
}

/// Bind `name` to `t`, replacing an existing entry of that name or inserting
/// a new one at its sorted position.
pub open spec fn insert_entry(
    es: Seq<(Seq<char>, FsTree)>,
    name: Seq<char>,
    t: FsTree,
) -> Seq<(Seq<char>, FsTree)>
    decreases es.len(),
{
    if es.len() == 0 {
        seq![(name, t)]
    } else if lex_lt(name, es[0].0) {
        seq![(name, t)] + es
    } else if es[0].0 == name {
        seq![(name, t)] + es.drop_first()
    } else {
        seq![es[0]] + insert_entry(es.drop_first(), name, t)
    }
}

/// The node reached by walking the path from `t`; `None` if any step names a
/// missing child or descends into a file.
pub open spec fn tree_lookup(t: FsTree, p: Seq<Seq<char>>) -> Option<FsTree>
    decreases p.len(),
{
    if p.len() == 0 {
        Some(t)
    } else {
        match t {
            FsTree::File { .. } => None,
            FsTree::Dir { entries } => match find_entry(entries, p[0]) {
                None => None,
                Some(c) => tree_lookup(c, p.drop_first()),
            },
        }
    }
}

/// Create an empty directory at `p`. Returns the (possibly unchanged) tree
/// and the outcome; on any error the tree is returned unchanged.
pub open spec fn tree_mkdir(t: FsTree, p: Seq<Seq<char>>) -> (FsTree, Result<(), FsError>)
    decreases p.len(),
{
    if p.len() == 0 {
        (t, Err(FsError::InvalidPath))
    } else {
        match t {
            FsTree::File { .. } => (
                t,
                Err(if p.len() == 1 {
                    FsError::NotADirectory
                } else {
                    FsError::ParentNotFound
                }),
            ),
            FsTree::Dir { entries } => {
                if p.len() == 1 {
                    if find_entry(entries, p[0]) is Some {
                        (t, Err(FsError::AlreadyExists))
                    } else {
                        (FsTree::Dir { entries: insert_entry(entries, p[0], empty_dir()) }, Ok(()))
                    }
                } else {
                    match find_entry(entries, p[0]) {
                        None => (t, Err(FsError::ParentNotFound)),
                        Some(c) => {
                            let r = tree_mkdir(c, p.drop_first());
                            if r.1 is Ok {
                                (FsTree::Dir { entries: insert_entry(entries, p[0], r.0) }, Ok(()))
                            } else {
                                (t, r.1)
                            }
                        },
                    }
                }
            },
        }
    }
}

/// Create an empty file at `p`; an existing file of that name is left as it
/// is, an existing directory is an error.
pub open spec fn tree_touch(t: FsTree, p: Seq<Seq<char>>) -> (FsTree, Result<(), FsError>)
    decreases p.len(),
{
    if p.len() == 0 {
        (t, Err(FsError::InvalidPath))
    } else {
        match t {
            FsTree::File { .. } => (
                t,
                Err(if p.len() == 1 {
                    FsError::NotADirectory
                } else {
                    FsError::ParentNotFound
                }),
            ),
            FsTree::Dir { entries } => {
                if p.len() == 1 {
                    match find_entry(entries, p[0]) {
                        Some(FsTree::Dir { .. }) => (t, Err(FsError::IsADirectory)),
                        Some(FsTree::File { .. }) => (t, Ok(())),
                        None => (
                            FsTree::Dir {
                                entries: insert_entry(
                                    entries,
                                    p[0],
                                    FsTree::File { content: Seq::empty() },
                                ),
                            },
                            Ok(()),
                        ),
                    }
                } else {
                    match find_entry(entries, p[0]) {
                        None => (t, Err(FsError::ParentNotFound)),
                        Some(c) => {
                            let r = tree_touch(c, p.drop_first());
                            if r.1 is Ok {
                                (FsTree::Dir { entries: insert_entry(entries, p[0], r.0) }, Ok(()))
                            } else {
                                (t, r.1)
                            }
                        },
                    }
                }
            },
        }
    }
}

/// The content a write leaves at the target: appending to a non-empty file
/// inserts a single newline separator, every other case stores `c` alone.
pub open spec fn written_content(before: Option<Seq<char>>, c: Seq<char>, append: bool) -> Seq<
    char,
> {
    match before {
        Some(c0) => if append && c0.len() > 0 {
            c0 + seq!['\n'] + c
        } else {
            c
        },
        None => c,
    }
}

/// Write `c` to the file at `p`, creating it if absent; `append` keeps the
/// old content ahead of a newline separator.
pub open spec fn tree_write(t: FsTree, p: Seq<Seq<char>>, c: Seq<char>, append: bool) -> (
    FsTree,
    Result<(), FsError>,
)
    decreases p.len(),
{
    if p.len() == 0 {
        (t, Err(FsError::InvalidPath))
    } else {
        match t {
            FsTree::File { .. } => (
                t,
                Err(if p.len() == 1 {
                    FsError::NotADirectory
                } else {
                    FsError::ParentNotFound
                }),
            ),
            FsTree::Dir { entries } => {
                if p.len() == 1 {
                    match find_entry(entries, p[0]) {
                        Some(FsTree::Dir { .. }) => (t, Err(FsError::IsADirectory)),
                        Some(FsTree::File { content }) => (
                            FsTree::Dir {
                                entries: insert_entry(
                                    entries,
                                    p[0],
                                    FsTree::File {
                                        content: written_content(Some(content), c, append),
                                    },
                                ),
                            },
                            Ok(()),
                        ),
                        None => (
                            FsTree::Dir {
                                entries: insert_entry(entries, p[0], FsTree::File { content: c }),
                            },
                            Ok(()),
                        ),
                    }
                } else {
                    match find_entry(entries, p[0]) {
                        None => (t, Err(FsError::ParentNotFound)),
                        Some(child) => {
                            let r = tree_write(child, p.drop_first(), c, append);
                            if r.1 is Ok {
                                (FsTree::Dir { entries: insert_entry(entries, p[0], r.0) }, Ok(()))
                            } else {
                                (t, r.1)
                            }
                        },
                    }
                }
            },
        }
    }
}

/// The content of the file at `p`.
pub open spec fn tree_read(t: FsTree, p: Seq<Seq<char>>) -> Result<Seq<char>, FsError> {
    match tree_lookup(t, p) {
        None => Err(FsError::NotFound),
        Some(FsTree::Dir { .. }) => Err(FsError::IsADirectory),
        Some(FsTree::File { content }) => Ok(content),
    }
}

/// Whether the node at `p` is a directory.
pub open spec fn tree_is_dir(t: FsTree, p: Seq<Seq<char>>) -> Result<bool, FsError> {
    match tree_lookup(t, p) {
        None => Err(FsError::NotFound),
        Some(FsTree::Dir { .. }) => Ok(true),
        Some(FsTree::File { .. }) => Ok(false),
    }
}

/// How one directory entry is shown by `ls`: its name, with `/` appended for
/// a directory.
pub open spec fn entry_label(e: (Seq<char>, FsTree)) -> Seq<char> {
    if e.1 is Dir {
        e.0 + seq!['/']
    } else {
        e.0
    }
}

/// Directory listing text: entry labels in stored (sorted) order, joined by
/// two spaces.
pub open spec fn render_entries(es: Seq<(Seq<char>, FsTree)>) -> Seq<char>
    decreases es.len(),
{
    if es.len() == 0 {
        Seq::empty()
    } else if es.len() == 1 {
        entry_label(es[0])
    } else {
        render_entries(es.drop_last()) + seq![' ', ' '] + entry_label(es.last())
    }
}

/// What `ls` shows for the node at `p`: a directory's rendered entries, or a
/// file's own final path segment.
pub open spec fn tree_list(t: FsTree, p: Seq<Seq<char>>) -> Result<Seq<char>, FsError> {
    match tree_lookup(t, p) {
        None => Err(FsError::NotFound),
        Some(FsTree::Dir { entries }) => Ok(render_entries(entries)),
        Some(FsTree::File { .. }) => Ok(
            if p.len() == 0 {
                Seq::empty()
            } else {
                p.last()
            },
        ),
    }
}

} // verus!
