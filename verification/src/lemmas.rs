//! Proof library for the filesystem model: properties of the lexicographic
//! order, of entry search and sorted insertion, and preservation of tree
//! well-formedness by every mutating operation.
use crate::model::{
    empty_dir, entries_sorted, find_entry, insert_entry, lex_lt, tree_mkdir, tree_touch, tree_wf,
    tree_write, FsTree,
};
use vstd::prelude::*;

verus! {

/// No sequence is lexicographically below itself.
pub proof fn lemma_lex_lt_irrefl(a: Seq<char>)
    ensures
        !lex_lt(a, a),
    decreases a.len(),
{
    if a.len() > 0 {
        lemma_lex_lt_irrefl(a.drop_first());
    }
}

/// The lexicographic order is asymmetric.
pub proof fn lemma_lex_lt_asym(a: Seq<char>, b: Seq<char>)
    requires
        lex_lt(a, b),
    ensures
        !lex_lt(b, a),
    decreases a.len(),
{
    if a.len() > 0 && b.len() > 0 && a[0] == b[0] {
        lemma_lex_lt_asym(a.drop_first(), b.drop_first());
    }
}

/// The lexicographic order is transitive.
pub proof fn lemma_lex_lt_trans(a: Seq<char>, b: Seq<char>, c: Seq<char>)
    requires
        lex_lt(a, b),
        lex_lt(b, c),
    ensures
        lex_lt(a, c),
    decreases a.len(),
{
    if a.len() > 0 && b.len() > 0 && c.len() > 0 && a[0] == b[0] && b[0] == c[0] {
        lemma_lex_lt_trans(a.drop_first(), b.drop_first(), c.drop_first());
    }
}

/// Distinct sequences are ordered one way or the other.
pub proof fn lemma_lex_lt_connex(a: Seq<char>, b: Seq<char>)
    requires
        a != b,
    ensures
        lex_lt(a, b) || lex_lt(b, a),
    decreases a.len(),
{
    if a.len() == 0 && b.len() == 0 {
        assert(a =~= b);
    }
    if a.len() > 0 && b.len() > 0 && a[0] == b[0] {
        if a.drop_first() == b.drop_first() {
            assert(a.drop_first().len() == a.len() - 1);
            assert(b.drop_first().len() == b.len() - 1);
            assert(a.len() == b.len());
            assert forall|i: int| 0 <= i < a.len() implies a[i] == b[i] by {
                if i > 0 {
                    assert(a.drop_first()[i - 1] == b.drop_first()[i - 1]);
                }
            }
            assert(a =~= b);
        } else {
            lemma_lex_lt_connex(a.drop_first(), b.drop_first());
        }
    }
}

/// Search finds the entry at the first index whose name matches.
pub proof fn lemma_find_entry_first(es: Seq<(Seq<char>, FsTree)>, name: Seq<char>, k: int)
    requires
        0 <= k < es.len(),
        es[k].0 == name,
        forall|m: int| 0 <= m < k ==> es[m].0 != name,
    ensures
        find_entry(es, name) == Some(es[k].1),
    decreases k,
{
    if k > 0 {
        lemma_find_entry_first(es.drop_first(), name, k - 1);
    }
}

/// Search fails when no entry bears the name.
pub proof fn lemma_find_entry_absent(es: Seq<(Seq<char>, FsTree)>, name: Seq<char>)
    requires
        forall|m: int| 0 <= m < es.len() ==> es[m].0 != name,
    ensures
        find_entry(es, name) is None,
    decreases es.len(),
{
    if es.len() > 0 {
        lemma_find_entry_absent(es.drop_first(), name);
    }
}

/// A successful search returns the tree of some entry bearing the name.
pub proof fn lemma_find_entry_some(es: Seq<(Seq<char>, FsTree)>, name: Seq<char>)
    requires
        find_entry(es, name) is Some,
    ensures
        exists|i: int|
            0 <= i < es.len() && es[i].0 == name && find_entry(es, name) == Some(es[i].1),
    decreases es.len(),
{
    if es.len() > 0 && es[0].0 != name {
        lemma_find_entry_some(es.drop_first(), name);
        let i = choose|i: int|
            0 <= i < es.drop_first().len() && es.drop_first()[i].0 == name && find_entry(
                es.drop_first(),
                name,
            ) == Some(es.drop_first()[i].1);
        assert(es[i + 1].0 == name && find_entry(es, name) == Some(es[i + 1].1));
    }
}

/// After binding `name` to `t`, searching for `name` yields `t`.
pub proof fn lemma_find_insert_same(es: Seq<(Seq<char>, FsTree)>, name: Seq<char>, t: FsTree)
    ensures
        find_entry(insert_entry(es, name, t), name) == Some(t),
    decreases es.len(),
{
    let r = insert_entry(es, name, t);
    if es.len() == 0 {
        assert(r[0] == (name, t));
    } else if lex_lt(name, es[0].0) || es[0].0 == name {
        assert(r[0] == (name, t));
    } else {
        lemma_find_insert_same(es.drop_first(), name, t);
        assert(r.drop_first() =~= insert_entry(es.drop_first(), name, t));
        assert(r[0] == es[0]);
    }
}

/// Binding one name leaves the search result for every other name unchanged.
pub proof fn lemma_find_insert_other(
    es: Seq<(Seq<char>, FsTree)>,
    name: Seq<char>,
    t: FsTree,
    other: Seq<char>,
)
    requires
        other != name,
    ensures
        find_entry(insert_entry(es, name, t), other) == find_entry(es, other),
    decreases es.len(),
{
    let r = insert_entry(es, name, t);
    if es.len() == 0 {
        assert(r[0] == (name, t));
        assert(r.drop_first() =~= Seq::<(Seq<char>, FsTree)>::empty());
        assert(find_entry(r, other) == find_entry(r.drop_first(), other));
        assert(find_entry(r, other) is None);
    } else if lex_lt(name, es[0].0) {
        assert(r[0] == (name, t));
        assert(r.drop_first() =~= es);
        assert(find_entry(r, other) == find_entry(es, other));
    } else if es[0].0 == name {
        assert(r[0] == (name, t));
        assert(r.drop_first() =~= es.drop_first());
        assert(find_entry(r, other) == find_entry(es.drop_first(), other));
        assert(find_entry(es, other) == find_entry(es.drop_first(), other));
    } else {
        lemma_find_insert_other(es.drop_first(), name, t, other);
        assert(r[0] == es[0]);
        assert(r.drop_first() =~= insert_entry(es.drop_first(), name, t));
        if es[0].0 == other {
            assert(find_entry(r, other) == Some(es[0].1));
            assert(find_entry(es, other) == Some(es[0].1));
        } else {
            assert(find_entry(r, other) == find_entry(insert_entry(es.drop_first(), name, t), other));
            assert(find_entry(es, other) == find_entry(es.drop_first(), other));
        }
    }
}

/// Replacing the entry at index `j`, the first whose name is not below
/// `name`, is what insertion does when the name is already bound.
pub proof fn lemma_insert_entry_replace(
    es: Seq<(Seq<char>, FsTree)>,
    name: Seq<char>,
    t: FsTree,
    j: int,
)
    requires
        0 <= j < es.len(),
        es[j].0 == name,
        forall|m: int| 0 <= m < j ==> lex_lt(es[m].0, name),
    ensures
        insert_entry(es, name, t) == es.update(j, (name, t)),
    decreases j,
{
    if j == 0 {
        lemma_lex_lt_irrefl(name);
        assert(insert_entry(es, name, t) =~= es.update(0, (name, t)));
    } else {
        assert(lex_lt(es[0].0, name));
        lemma_lex_lt_asym(es[0].0, name);
        if es[0].0 == name {
            lemma_lex_lt_irrefl(name);
        }
        lemma_insert_entry_replace(es.drop_first(), name, t, j - 1);
        assert(insert_entry(es, name, t) =~= es.update(j, (name, t)));
    }
}

/// Inserting an unbound name at index `j`, where every earlier name is below
/// it and the name at `j` (if any) is above it, splices the new entry in.
pub proof fn lemma_insert_entry_position(
    es: Seq<(Seq<char>, FsTree)>,
    name: Seq<char>,
    t: FsTree,
    j: int,
)
    requires
        0 <= j <= es.len(),
        forall|m: int| 0 <= m < j ==> lex_lt(es[m].0, name),
        j < es.len() ==> lex_lt(name, es[j].0),
    ensures
        insert_entry(es, name, t) == es.subrange(0, j) + seq![(name, t)] + es.subrange(
            j,
            es.len() as int,
        ),
    decreases j,
{
    if j == 0 {
        if es.len() == 0 {
            assert(insert_entry(es, name, t) =~= es.subrange(0, 0) + seq![(name, t)] + es.subrange(
                0,
                es.len() as int,
            ));
        } else {
            assert(lex_lt(name, es[0].0));
            assert(insert_entry(es, name, t) =~= es.subrange(0, 0) + seq![(name, t)] + es.subrange(
                0,
                es.len() as int,
            ));
        }
    } else {
        assert(lex_lt(es[0].0, name));
        lemma_lex_lt_asym(es[0].0, name);
        if es[0].0 == name {
            lemma_lex_lt_irrefl(name);
        }
        lemma_insert_entry_position(es.drop_first(), name, t, j - 1);
        assert(insert_entry(es, name, t) =~= es.subrange(0, j) + seq![(name, t)] + es.subrange(
            j,
            es.len() as int,
        ));
    }
}

/// In a sorted entry sequence, a name below the entry at `j` and above all
/// earlier entries is bound nowhere.
pub proof fn lemma_sorted_find_absent(es: Seq<(Seq<char>, FsTree)>, name: Seq<char>, j: int)
    requires
        entries_sorted(es),
        0 <= j <= es.len(),
        forall|m: int| 0 <= m < j ==> lex_lt(es[m].0, name),
        j < es.len() ==> lex_lt(name, es[j].0),
    ensures
        find_entry(es, name) is None,
{
    assert forall|m: int| 0 <= m < es.len() implies es[m].0 != name by {
        if m < j {
            if es[m].0 == name {
                lemma_lex_lt_irrefl(name);
            }
        } else {
            if m > j {
                lemma_lex_lt_trans(name, es[j].0, es[m].0);
            }
            if es[m].0 == name {
                lemma_lex_lt_irrefl(name);
            }
        }
    }
    lemma_find_entry_absent(es, name);
}

/// Sorted insertion keeps the entries sorted, and every entry of the result
/// is either the new binding or one of the old entries.
pub proof fn lemma_insert_entry_sorted(es: Seq<(Seq<char>, FsTree)>, name: Seq<char>, t: FsTree)
    requires
        entries_sorted(es),
    ensures
        entries_sorted(insert_entry(es, name, t)),
        forall|k: int|
            0 <= k < insert_entry(es, name, t).len() ==> #[trigger] insert_entry(es, name, t)[k]
                == (name, t) || exists|i: int|
                0 <= i < es.len() && insert_entry(es, name, t)[k] == es[i],
    decreases es.len(),
{
    let r = insert_entry(es, name, t);
    if es.len() == 0 {
    } else if lex_lt(name, es[0].0) {
        assert forall|i: int, j: int| 0 <= i < j < r.len() implies lex_lt(r[i].0, r[j].0) by {
            if i == 0 {
                if j > 1 {
                    lemma_lex_lt_trans(name, es[0].0, es[j - 1].0);
                }
            }
        }
        assert forall|k: int| 0 <= k < r.len() implies r[k] == (name, t) || exists|i: int|
            0 <= i < es.len() && r[k] == es[i] by {
            if k > 0 {
                assert(r[k] == es[k - 1]);
            }
        }
    } else if es[0].0 == name {
        assert forall|i: int, j: int| 0 <= i < j < r.len() implies lex_lt(r[i].0, r[j].0) by {
            assert(r[j] == es[j]);
            if i > 0 {
                assert(r[i] == es[i]);
            }
        }
        assert forall|k: int| 0 <= k < r.len() implies r[k] == (name, t) || exists|i: int|
            0 <= i < es.len() && r[k] == es[i] by {
            if k > 0 {
                assert(r[k] == es[k]);
            }
        }
    } else {
        let tail = insert_entry(es.drop_first(), name, t);
        assert(entries_sorted(es.drop_first()));
        lemma_insert_entry_sorted(es.drop_first(), name, t);
        if name != es[0].0 {
            lemma_lex_lt_connex(name, es[0].0);
        }
        assert(lex_lt(es[0].0, name));
        assert forall|i: int, j: int| 0 <= i < j < r.len() implies lex_lt(r[i].0, r[j].0) by {
            assert(r[0] == es[0]);
            if i > 0 {
                assert(r[i] == tail[i - 1]);
                assert(r[j] == tail[j - 1]);
            } else {
                assert(r[j] == tail[j - 1]);
                if tail[j - 1] == (name, t) {
                } else {
                    let m = choose|m: int|
                        0 <= m < es.drop_first().len() && tail[j - 1] == es.drop_first()[m];
                    assert(es.drop_first()[m] == es[m + 1]);
                    assert(lex_lt(es[0].0, es[m + 1].0));
                }
            }
        }
        assert forall|k: int| 0 <= k < r.len() implies r[k] == (name, t) || exists|i: int|
            0 <= i < es.len() && r[k] == es[i] by {
            if k == 0 {
                assert(r[0] == es[0]);
            } else {
                assert(r[k] == tail[k - 1]);
                if tail[k - 1] != (name, t) {
                    let m = choose|m: int|
                        0 <= m < es.drop_first().len() && tail[k - 1] == es.drop_first()[m];
                    assert(r[k] == es[m + 1]);
                }
            }
        }
    }
}

/// A found child of a well-formed directory is itself well-formed.
pub proof fn lemma_find_entry_wf(es: Seq<(Seq<char>, FsTree)>, name: Seq<char>, c: FsTree)
    requires
        tree_wf(FsTree::Dir { entries: es }),
        find_entry(es, name) == Some(c),
    ensures
        tree_wf(c),
{
    lemma_find_entry_some(es, name);
    let i = choose|i: int| 0 <= i < es.len() && es[i].0 == name && find_entry(es, name) == Some(
        es[i].1,
    );
    assert(tree_wf(es[i].1));
}

/// Inserting a well-formed child into a well-formed directory gives a
/// well-formed directory.
pub proof fn lemma_insert_entry_wf(es: Seq<(Seq<char>, FsTree)>, name: Seq<char>, t: FsTree)
    requires
        tree_wf(FsTree::Dir { entries: es }),
        tree_wf(t),
    ensures
        tree_wf(FsTree::Dir { entries: insert_entry(es, name, t) }),
{
    let r = insert_entry(es, name, t);
    lemma_insert_entry_sorted(es, name, t);
    assert forall|k: int| 0 <= k < r.len() implies tree_wf(#[trigger] r[k].1) by {
        if r[k] == (name, t) {
        } else {
            let i = choose|i: int| 0 <= i < es.len() && r[k] == es[i];
            assert(tree_wf(es[i].1));
        }
    }
}

/// `mkdir` preserves well-formedness.
pub proof fn lemma_tree_mkdir_wf(t: FsTree, p: Seq<Seq<char>>)
    requires
        tree_wf(t),
    ensures
        tree_wf(tree_mkdir(t, p).0),
    decreases p.len(),
{
    if p.len() == 1 {
        if t is Dir && find_entry(t->Dir_entries, p[0]) is None {
            lemma_insert_entry_wf(t->Dir_entries, p[0], empty_dir());
        }
    } else if p.len() > 1 {
        if t is Dir {
            match find_entry(t->Dir_entries, p[0]) {
                Some(c) => {
                    lemma_find_entry_wf(t->Dir_entries, p[0], c);
                    lemma_tree_mkdir_wf(c, p.drop_first());
                    if tree_mkdir(c, p.drop_first()).1 is Ok {
                        lemma_insert_entry_wf(
                            t->Dir_entries,
                            p[0],
                            tree_mkdir(c, p.drop_first()).0,
                        );
                    }
                },
                None => {},
            }
        }
    }
}

/// `touch` preserves well-formedness.
pub proof fn lemma_tree_touch_wf(t: FsTree, p: Seq<Seq<char>>)
    requires
        tree_wf(t),
    ensures
        tree_wf(tree_touch(t, p).0),
    decreases p.len(),
{
    if p.len() == 1 {
        if t is Dir && find_entry(t->Dir_entries, p[0]) is None {
            lemma_insert_entry_wf(t->Dir_entries, p[0], FsTree::File { content: Seq::empty() });
        }
    } else if p.len() > 1 {
        if t is Dir {
            match find_entry(t->Dir_entries, p[0]) {
                Some(c) => {
                    lemma_find_entry_wf(t->Dir_entries, p[0], c);
                    lemma_tree_touch_wf(c, p.drop_first());
                    if tree_touch(c, p.drop_first()).1 is Ok {
                        lemma_insert_entry_wf(
                            t->Dir_entries,
                            p[0],
                            tree_touch(c, p.drop_first()).0,
                        );
                    }
                },
                None => {},
            }
        }
    }
}

/// `write` preserves well-formedness.
pub proof fn lemma_tree_write_wf(t: FsTree, p: Seq<Seq<char>>, c: Seq<char>, append: bool)
    requires
        tree_wf(t),
    ensures
        tree_wf(tree_write(t, p, c, append).0),
    decreases p.len(),
{
    if p.len() == 1 {
        if t is Dir {
            match find_entry(t->Dir_entries, p[0]) {
                Some(FsTree::File { content }) => {
                    lemma_insert_entry_wf(
                        t->Dir_entries,
                        p[0],
                        FsTree::File {
                            content: crate::model::written_content(Some(content), c, append),
                        },
                    );
                },
                None => {
                    lemma_insert_entry_wf(t->Dir_entries, p[0], FsTree::File { content: c });
                },
                _ => {},
            }
        }
    } else if p.len() > 1 {
        if t is Dir {
            match find_entry(t->Dir_entries, p[0]) {
                Some(child) => {
                    lemma_find_entry_wf(t->Dir_entries, p[0], child);
                    lemma_tree_write_wf(child, p.drop_first(), c, append);
                    if tree_write(child, p.drop_first(), c, append).1 is Ok {
                        lemma_insert_entry_wf(
                            t->Dir_entries,
                            p[0],
                            tree_write(child, p.drop_first(), c, append).0,
                        );
                    }
                },
                None => {},
            }
        }
    }
}

} // verus!
