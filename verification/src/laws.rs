//! Laws of the command semantics: creating twice, touching twice, writing
//! then reading, and changing into a file path.
use crate::dispatch::{cd_out, dispatch_spec, out_err};
use crate::paths::resolve_spec;
use crate::lemmas::{lemma_find_insert_same, lemma_lex_lt_irrefl};
use crate::model::{
    empty_dir, entries_sorted, find_entry, insert_entry, lex_lt, tree_is_dir, tree_lookup,
    tree_mkdir, tree_read, tree_touch, tree_write, written_content, FsError, FsTree,
};
use vstd::prelude::*;

verus! {

/// Binding the same name to the same tree twice is the same as binding it
/// once.
pub proof fn lemma_insert_insert_same(es: Seq<(Seq<char>, FsTree)>, name: Seq<char>, t: FsTree)
    ensures
        insert_entry(insert_entry(es, name, t), name, t) == insert_entry(es, name, t),
    decreases es.len(),
{
    lemma_lex_lt_irrefl(name);
    let r = insert_entry(es, name, t);
    if es.len() == 0 {
        assert(insert_entry(r, name, t) =~= r);
    } else if lex_lt(name, es[0].0) {
        assert(r[0] == (name, t));
        assert(insert_entry(r, name, t) =~= r);
    } else if es[0].0 == name {
        assert(r[0] == (name, t));
        assert(insert_entry(r, name, t) =~= r);
    } else {
        lemma_insert_insert_same(es.drop_first(), name, t);
        assert(r[0] == es[0]);
        assert(r.drop_first() =~= insert_entry(es.drop_first(), name, t));
        assert(insert_entry(r, name, t) =~= r);
    }
}

/// A well-formed directory binds each name at most once: no two entries
/// share a name.
pub proof fn lemma_names_unique(es: Seq<(Seq<char>, FsTree)>)
    requires
        entries_sorted(es),
    ensures
        forall|i: int, j: int| 0 <= i < j < es.len() ==> es[i].0 != es[j].0,
{
    assert forall|i: int, j: int| 0 <= i < j < es.len() implies es[i].0 != es[j].0 by {
        if es[i].0 == es[j].0 {
            lemma_lex_lt_irrefl(es[i].0);
        }
    }
}

/// Creating a directory twice: the second call fails `AlreadyExists` and
/// leaves the tree exactly as the first call left it.
pub proof fn lemma_mkdir_twice(t: FsTree, p: Seq<Seq<char>>)
    requires
        tree_mkdir(t, p).1 is Ok,
    ensures
        tree_mkdir(tree_mkdir(t, p).0, p).0 == tree_mkdir(t, p).0,
        tree_mkdir(tree_mkdir(t, p).0, p).1 == Err::<(), FsError>(FsError::AlreadyExists),
    decreases p.len(),
{
    match t {
        FsTree::Dir { entries } => {
            if p.len() == 1 {
                lemma_find_insert_same(entries, p[0], empty_dir());
            } else if p.len() > 1 {
                match find_entry(entries, p[0]) {
                    Some(c) => {
                        lemma_find_insert_same(entries, p[0], tree_mkdir(c, p.drop_first()).0);
                        lemma_mkdir_twice(c, p.drop_first());
                    },
                    None => {},
                }
            }
        },
        FsTree::File { .. } => {},
    }
}

/// Touching a path twice: the second call succeeds as a no-op, leaving the
/// tree exactly as the first call left it.
pub proof fn lemma_touch_idempotent(t: FsTree, p: Seq<Seq<char>>)
    requires
        tree_touch(t, p).1 is Ok,
    ensures
        tree_touch(tree_touch(t, p).0, p).0 == tree_touch(t, p).0,
        tree_touch(tree_touch(t, p).0, p).1 == Ok::<(), FsError>(()),
    decreases p.len(),
{
    match t {
        FsTree::Dir { entries } => {
            if p.len() == 1 {
                match find_entry(entries, p[0]) {
                    Some(FsTree::File { .. }) => {},
                    None => {
                        lemma_find_insert_same(
                            entries,
                            p[0],
                            FsTree::File { content: Seq::empty() },
                        );
                    },
                    _ => {},
                }
            } else if p.len() > 1 {
                match find_entry(entries, p[0]) {
                    Some(c) => {
                        let c1 = tree_touch(c, p.drop_first()).0;
                        lemma_find_insert_same(entries, p[0], c1);
                        lemma_touch_idempotent(c, p.drop_first());
                        lemma_insert_insert_same(entries, p[0], c1);
                    },
                    None => {},
                }
            }
        },
        FsTree::File { .. } => {},
    }
}

/// Writing then reading: a successful write leaves exactly the written
/// content at the path — replaced outright, or appended after a single
/// newline when the file already held non-empty content.
pub proof fn lemma_write_then_read(t: FsTree, p: Seq<Seq<char>>, c: Seq<char>, append: bool)
    requires
        tree_write(t, p, c, append).1 is Ok,
    ensures
        tree_read(tree_write(t, p, c, append).0, p) == Ok::<Seq<char>, FsError>(
            written_content(
                match tree_read(t, p) {
                    Ok(c0) => Some(c0),
                    Err(_) => None,
                },
                c,
                append,
            ),
        ),
    decreases p.len(),
{
    match t {
        FsTree::Dir { entries } => {
            if p.len() == 1 {
                match find_entry(entries, p[0]) {
                    Some(FsTree::File { content }) => {
                        let written = written_content(Some(content), c, append);
                        lemma_find_insert_same(
                            entries,
                            p[0],
                            FsTree::File { content: written },
                        );
                        assert(p.drop_first().len() == 0);
                        let t1 = tree_write(t, p, c, append).0;
                        assert(t1 == FsTree::Dir {
                            entries: insert_entry(
                                entries,
                                p[0],
                                FsTree::File { content: written },
                            ),
                        });
                        assert(tree_lookup(FsTree::File { content: written }, p.drop_first())
                            == Some(FsTree::File { content: written }));
                        assert(tree_lookup(FsTree::File { content }, p.drop_first())
                            == Some(FsTree::File { content }));
                        assert(tree_lookup(t1, p) == Some(FsTree::File { content: written }));
                        assert(tree_lookup(t, p) == Some(FsTree::File { content }));
                        assert(tree_read(t, p) == Ok::<Seq<char>, FsError>(content));
                        assert(tree_read(t1, p) == Ok::<Seq<char>, FsError>(written));
                    },
                    None => {
                        lemma_find_insert_same(entries, p[0], FsTree::File { content: c });
                        assert(p.drop_first().len() == 0);
                        let t1 = tree_write(t, p, c, append).0;
                        assert(tree_lookup(FsTree::File { content: c }, p.drop_first())
                            == Some(FsTree::File { content: c }));
                        assert(tree_lookup(t1, p) == Some(FsTree::File { content: c }));
                        assert(tree_lookup(t, p) is None);
                        assert(tree_read(t1, p) == Ok::<Seq<char>, FsError>(c));
                    },
                    _ => {},
                }
            } else if p.len() > 1 {
                match find_entry(entries, p[0]) {
                    Some(child) => {
                        let w = tree_write(child, p.drop_first(), c, append);
                        lemma_find_insert_same(entries, p[0], w.0);
                        lemma_write_then_read(child, p.drop_first(), c, append);
                        let t1 = tree_write(t, p, c, append).0;
                        assert(tree_lookup(t1, p) == tree_lookup(w.0, p.drop_first()));
                        assert(tree_lookup(t, p) == tree_lookup(child, p.drop_first()));
                        assert(tree_read(t1, p) == tree_read(w.0, p.drop_first()));
                        assert(tree_read(t, p) == tree_read(child, p.drop_first()));
                    },
                    None => {},
                }
            }
        },
        FsTree::File { .. } => {},
    }
}

/// `cd` to a path naming a file fails with `Not a directory` and leaves the
/// working directory (and the tree) unchanged.
pub proof fn lemma_cd_file_keeps_cwd(root: FsTree, cwd: Seq<Seq<char>>, toks: Seq<Seq<char>>)
    requires
        toks.len() == 2,
        toks[0] == "cd"@,
        tree_is_dir(root, resolve_spec(cwd, toks[1])) == Ok::<bool, FsError>(false),
    ensures
        dispatch_spec(root, cwd, toks) == out_err(root, cwd, "Not a directory"@),
{
    proof_strlits();
    assert(dispatch_spec(root, cwd, toks) == cd_out(root, cwd, toks));
}

/// Reveal the command-word literals so their views can be told apart.
proof fn proof_strlits()
    ensures
        "cd"@ != "help"@,
        "cd"@ != "pwd"@,
        "cd"@ != "ls"@,
{
    reveal_strlit("cd");
    reveal_strlit("help");
    reveal_strlit("pwd");
    reveal_strlit("ls");
    assert("cd"@.len() == 2 && "help"@.len() == 4 && "pwd"@.len() == 3 && "ls"@.len() == 2);
    assert("cd"@[0] == 'c' && "ls"@[0] == 'l');
}

} // verus!
