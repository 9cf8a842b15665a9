//! The executable filesystem: a tree of directories and files whose view is
//! the ghost `FsTree`, with every operation proved equal to its model
//! transformer.
use crate::lemmas::{
    lemma_find_entry_absent, lemma_find_entry_first, lemma_insert_entry_position,
    lemma_insert_entry_replace, lemma_lex_lt_connex, lemma_lex_lt_irrefl, lemma_sorted_find_absent,
    lemma_tree_mkdir_wf, lemma_tree_touch_wf, lemma_tree_write_wf,
};
use crate::model::{
    empty_dir, entries_sorted, entry_label, find_entry, insert_entry, lex_lt, render_entries,
    tree_is_dir, tree_list, tree_lookup, tree_mkdir, tree_read, tree_touch, tree_wf, tree_write,
    written_content, FsError, FsTree,
};
use crate::text::{str_lt, string_eq};
use vstd::prelude::*;

verus! {

/// A filesystem node: a directory whose children are kept sorted by name, or
/// a file holding text.
pub enum Node {
    Dir { children: Vec<(String, Node)> },
    File { content: String },
}

/// The ghost tree a node stands for.
pub open spec fn node_view(n: Node) -> FsTree
    decreases n, 0int,
{
    match n {
        Node::File { content } => FsTree::File { content: content@ },
        Node::Dir { children } => FsTree::Dir {
            entries: entries_view_upto(children@, children@.len() as int),
        },
    }
}

/// The views of the first `k` children, in order.
pub open spec fn entries_view_upto(s: Seq<(String, Node)>, k: int) -> Seq<(Seq<char>, FsTree)>
    decreases s, k,
{
    if k <= 0 || k > s.len() {
        Seq::empty()
    } else {
        entries_view_upto(s, k - 1).push((s[k - 1].0@, node_view(s[k - 1].1)))
    }
}

/// The views of all children.
pub open spec fn entries_view(s: Seq<(String, Node)>) -> Seq<(Seq<char>, FsTree)> {
    entries_view_upto(s, s.len() as int)
}

impl View for Node {
    type V = FsTree;

    open spec fn view(&self) -> FsTree {
        node_view(*self)
    }
}

/// The child views are the views of the children, pointwise.
pub proof fn lemma_entries_view_index(s: Seq<(String, Node)>, k: int)
    requires
        0 <= k <= s.len(),
    ensures
        entries_view_upto(s, k).len() == k,
        forall|m: int|
            0 <= m < k ==> #[trigger] entries_view_upto(s, k)[m] == (s[m].0@, node_view(s[m].1)),
    decreases k,
{
    if k > 0 {
        lemma_entries_view_index(s, k - 1);
    }
}

/// Locate `name` among sorted children: either the index holding it, or the
/// index where it would be inserted.
fn find_child(children: &Vec<(String, Node)>, name: &String) -> (r: (usize, bool))
    requires
        entries_sorted(entries_view(children@)),
    ensures
        r.0 <= children@.len(),
        forall|m: int| 0 <= m < r.0 ==> lex_lt(#[trigger] children@[m].0@, name@),
        r.1 ==> r.0 < children@.len() && children@[r.0 as int].0@ == name@ && find_entry(
            entries_view(children@),
            name@,
        ) == Some(node_view(children@[r.0 as int].1)),
        !r.1 ==> find_entry(entries_view(children@), name@) is None && (r.0 < children@.len()
            ==> lex_lt(name@, children@[r.0 as int].0@)),
{
    let ghost es = entries_view(children@);
    proof {
        lemma_entries_view_index(children@, children@.len() as int);
    }
    let mut j: usize = 0;
    while j < children.len()
        invariant
            j <= children@.len(),
            es == entries_view(children@),
            es.len() == children@.len(),
            forall|m: int| 0 <= m < es.len() ==> #[trigger] es[m].0 == children@[m].0@,
            forall|m: int| 0 <= m < es.len() ==> #[trigger] es[m].1 == node_view(children@[m].1),
            entries_sorted(es),
            forall|m: int| 0 <= m < j ==> lex_lt(#[trigger] children@[m].0@, name@),
        decreases children@.len() - j,
    {
        let pair = &children[j];
        if string_eq(&pair.0, name) {
            proof {
                assert forall|m: int| 0 <= m < j implies es[m].0 != name@ by {
                    if es[m].0 == name@ {
                        lemma_lex_lt_irrefl(name@);
                    }
                }
                lemma_find_entry_first(es, name@, j as int);
            }
            return (j, true);
        }
        if str_lt(name, &pair.0) {
            proof {
                lemma_sorted_find_absent(es, name@, j as int);
            }
            return (j, false);
        }
        proof {
            lemma_lex_lt_connex(name@, children@[j as int].0@);
        }
        j = j + 1;
    }
    proof {
        lemma_sorted_find_absent(es, name@, j as int);
    }
    (j, false)
}

/// Locate `name` among children by first match, with no order assumed.
fn find_child_linear(children: &Vec<(String, Node)>, name: &String) -> (r: Option<usize>)
    ensures
        match r {
            Some(j) => j < children@.len() && children@[j as int].0@ == name@ && find_entry(
                entries_view(children@),
                name@,
            ) == Some(node_view(children@[j as int].1)),
            None => find_entry(entries_view(children@), name@) is None,
        },
{
    let ghost es = entries_view(children@);
    proof {
        lemma_entries_view_index(children@, children@.len() as int);
    }
    let mut j: usize = 0;
    while j < children.len()
        invariant
            j <= children@.len(),
            es == entries_view(children@),
            es.len() == children@.len(),
            forall|m: int| 0 <= m < es.len() ==> #[trigger] es[m].0 == children@[m].0@,
            forall|m: int| 0 <= m < es.len() ==> #[trigger] es[m].1 == node_view(children@[m].1),
            forall|m: int| 0 <= m < j ==> (#[trigger] children@[m].0@) != name@,
        decreases children@.len() - j,
    {
        let pair = &children[j];
        if string_eq(&pair.0, name) {
            proof {
                lemma_find_entry_first(es, name@, j as int);
            }
            return Some(j);
        }
        j = j + 1;
    }
    proof {
        lemma_find_entry_absent(es, name@);
    }
    None
}

/// Create an empty directory at the path suffix starting at `i`, owning the
/// subtree.
fn node_mkdir(n: Node, path: &Vec<String>, i: usize) -> (res: (Node, Result<(), FsError>))
    requires
        tree_wf(n@),
        i < path@.len(),
    ensures
        res.0@ == tree_mkdir(n@, path.deep_view().skip(i as int)).0,
        res.1 == tree_mkdir(n@, path.deep_view().skip(i as int)).1,
    decreases path@.len() - i,
{
    let ghost p = path.deep_view().skip(i as int);
    proof {
        assert(p[0] == path@[i as int]@);
    }
    match n {
        Node::File { content } => {
            let e = if path.len() == i + 1 {
                FsError::NotADirectory
            } else {
                FsError::ParentNotFound
            };
            (Node::File { content }, Err(e))
        },
        Node::Dir { mut children } => {
            let ghost cs0 = children@;
            let ghost es = entries_view(cs0);
            proof {
                lemma_entries_view_index(cs0, cs0.len() as int);
            }
            let (j, found) = find_child(&children, &path[i]);
            if path.len() == i + 1 {
                if found {
                    (Node::Dir { children }, Err(FsError::AlreadyExists))
                } else {
                    children.insert(j, (path[i].clone(), Node::Dir { children: Vec::new() }));
                    proof {
                        assert(entries_view_upto(Seq::<(String, Node)>::empty(), 0)
                            =~= Seq::<(Seq<char>, FsTree)>::empty());
                        lemma_insert_entry_position(es, p[0], empty_dir(), j as int);
                        lemma_entries_view_index(children@, children@.len() as int);
                        assert(entries_view(children@) =~= insert_entry(es, p[0], empty_dir()));
                    }
                    (Node::Dir { children }, Ok(()))
                }
            } else {
                if !found {
                    (Node::Dir { children }, Err(FsError::ParentNotFound))
                } else {
                    let (nm, child) = children.remove(j);
                    proof {
                        assert(es[j as int].1 == node_view(child));
                        assert(tree_wf(es[j as int].1));
                    }
                    let (child2, r) = node_mkdir(child, path, i + 1);
                    children.insert(j, (nm, child2));
                    proof {
                        assert(children@ =~= cs0.update(j as int, (nm, child2)));
                        assert(path.deep_view().skip(i + 1) =~= p.drop_first());
                        lemma_entries_view_index(children@, children@.len() as int);
                        if r is Ok {
                            lemma_insert_entry_replace(es, p[0], child2@, j as int);
                            assert(entries_view(children@) =~= insert_entry(es, p[0], child2@));
                        } else {
                            assert(child2@ == child@);
                            assert(entries_view(children@) =~= es);
                        }
                    }
                    (Node::Dir { children }, r)
                }
            }
        },
    }
}

/// Create an empty file at the path suffix starting at `i`; an existing file
/// is left alone, an existing directory is an error.
fn node_touch(n: Node, path: &Vec<String>, i: usize) -> (res: (Node, Result<(), FsError>))
    requires
        tree_wf(n@),
        i < path@.len(),
    ensures
        res.0@ == tree_touch(n@, path.deep_view().skip(i as int)).0,
        res.1 == tree_touch(n@, path.deep_view().skip(i as int)).1,
    decreases path@.len() - i,
{
    let ghost p = path.deep_view().skip(i as int);
    proof {
        assert(p[0] == path@[i as int]@);
    }
    match n {
        Node::File { content } => {
            let e = if path.len() == i + 1 {
                FsError::NotADirectory
            } else {
                FsError::ParentNotFound
            };
            (Node::File { content }, Err(e))
        },
        Node::Dir { mut children } => {
            let ghost cs0 = children@;
            let ghost es = entries_view(cs0);
            proof {
                lemma_entries_view_index(cs0, cs0.len() as int);
            }
            let (j, found) = find_child(&children, &path[i]);
            if path.len() == i + 1 {
                if found {
                    let is_dir_child = match &children[j].1 {
                        Node::Dir { .. } => true,
                        Node::File { .. } => false,
                    };
                    if is_dir_child {
                        (Node::Dir { children }, Err(FsError::IsADirectory))
                    } else {
                        (Node::Dir { children }, Ok(()))
                    }
                } else {
                    children.insert(j, (path[i].clone(), Node::File { content: String::new() }));
                    proof {
                        lemma_insert_entry_position(
                            es,
                            p[0],
                            FsTree::File { content: Seq::empty() },
                            j as int,
                        );
                        lemma_entries_view_index(children@, children@.len() as int);
                        assert(entries_view(children@) =~= insert_entry(
                            es,
                            p[0],
                            FsTree::File { content: Seq::empty() },
                        ));
                    }
                    (Node::Dir { children }, Ok(()))
                }
            } else {
                if !found {
                    (Node::Dir { children }, Err(FsError::ParentNotFound))
                } else {
                    let (nm, child) = children.remove(j);
                    proof {
                        assert(es[j as int].1 == node_view(child));
                        assert(tree_wf(es[j as int].1));
                    }
                    let (child2, r) = node_touch(child, path, i + 1);
                    children.insert(j, (nm, child2));
                    proof {
                        assert(children@ =~= cs0.update(j as int, (nm, child2)));
                        assert(path.deep_view().skip(i + 1) =~= p.drop_first());
                        lemma_entries_view_index(children@, children@.len() as int);
                        if r is Ok {
                            lemma_insert_entry_replace(es, p[0], child2@, j as int);
                            assert(entries_view(children@) =~= insert_entry(es, p[0], child2@));
                        } else {
                            assert(child2@ == child@);
                            assert(entries_view(children@) =~= es);
                        }
                    }
                    (Node::Dir { children }, r)
                }
            }
        },
    }
}

/// Write `content` to the file at the path suffix starting at `i`, creating
/// the file if absent; `append` keeps the old content ahead of a newline.
fn node_write(n: Node, path: &Vec<String>, i: usize, content: String, append: bool) -> (res: (
    Node,
    Result<(), FsError>,
))
    requires
        tree_wf(n@),
        i < path@.len(),
    ensures
        res.0@ == tree_write(n@, path.deep_view().skip(i as int), content@, append).0,
        res.1 == tree_write(n@, path.deep_view().skip(i as int), content@, append).1,
    decreases path@.len() - i,
{
    let ghost p = path.deep_view().skip(i as int);
    proof {
        assert(p[0] == path@[i as int]@);
    }
    match n {
        Node::File { content: fc } => {
            let e = if path.len() == i + 1 {
                FsError::NotADirectory
            } else {
                FsError::ParentNotFound
            };
            (Node::File { content: fc }, Err(e))
        },
        Node::Dir { mut children } => {
            let ghost cs0 = children@;
            let ghost es = entries_view(cs0);
            proof {
                lemma_entries_view_index(cs0, cs0.len() as int);
            }
            let (j, found) = find_child(&children, &path[i]);
            if path.len() == i + 1 {
                if found {
                    let (nm, child) = children.remove(j);
                    proof {
                        assert(es[j as int].1 == node_view(child));
                    }
                    match child {
                        Node::Dir { children: dc } => {
                            children.insert(j, (nm, Node::Dir { children: dc }));
                            proof {
                                assert(children@ =~= cs0.update(
                                    j as int,
                                    (nm, Node::Dir { children: dc }),
                                ));
                                lemma_entries_view_index(children@, children@.len() as int);
                                assert(entries_view(children@) =~= es);
                            }
                            (Node::Dir { children }, Err(FsError::IsADirectory))
                        },
                        Node::File { content: mut fc } => {
                            let ghost c0 = fc@;
                            if append {
                                if !fc.as_str().is_empty() {
                                    fc.append("\n");
                                }
                                fc.append(content.as_str());
                            } else {
                                fc = content;
                            }
                            proof {
                                reveal_strlit("\n");
                                assert("\n"@ =~= seq!['\n']);
                                assert(fc@ =~= written_content(Some(c0), content@, append));
                                lemma_insert_entry_replace(
                                    es,
                                    p[0],
                                    FsTree::File { content: fc@ },
                                    j as int,
                                );
                            }
                            children.insert(j, (nm, Node::File { content: fc }));
                            proof {
                                assert(children@ =~= cs0.update(
                                    j as int,
                                    (nm, Node::File { content: fc }),
                                ));
                                lemma_entries_view_index(children@, children@.len() as int);
                                assert(entries_view(children@) =~= insert_entry(
                                    es,
                                    p[0],
                                    FsTree::File { content: fc@ },
                                ));
                            }
                            (Node::Dir { children }, Ok(()))
                        },
                    }
                } else {
                    proof {
                        lemma_insert_entry_position(
                            es,
                            p[0],
                            FsTree::File { content: content@ },
                            j as int,
                        );
                    }
                    children.insert(j, (path[i].clone(), Node::File { content }));
                    proof {
                        lemma_entries_view_index(children@, children@.len() as int);
                        assert(entries_view(children@) =~= insert_entry(
                            es,
                            p[0],
                            FsTree::File { content: content@ },
                        ));
                    }
                    (Node::Dir { children }, Ok(()))
                }
            } else {
                if !found {
                    (Node::Dir { children }, Err(FsError::ParentNotFound))
                } else {
                    let (nm, child) = children.remove(j);
                    proof {
                        assert(es[j as int].1 == node_view(child));
                        assert(tree_wf(es[j as int].1));
                    }
                    let (child2, r) = node_write(child, path, i + 1, content, append);
                    children.insert(j, (nm, child2));
                    proof {
                        assert(children@ =~= cs0.update(j as int, (nm, child2)));
                        assert(path.deep_view().skip(i + 1) =~= p.drop_first());
                        lemma_entries_view_index(children@, children@.len() as int);
                        if r is Ok {
                            lemma_insert_entry_replace(es, p[0], child2@, j as int);
                            assert(entries_view(children@) =~= insert_entry(es, p[0], child2@));
                        } else {
                            assert(child2@ == child@);
                            assert(entries_view(children@) =~= es);
                        }
                    }
                    (Node::Dir { children }, r)
                }
            }
        },
    }
}

/// The filesystem tree: a root node that is always a directory.
pub struct FileSystem {
    pub root: Node,
}

impl View for FileSystem {
    type V = FsTree;

    open spec fn view(&self) -> FsTree {
        self.root@
    }
}

impl FileSystem {
    /// The root is a directory and the whole tree is well-formed.
    pub open spec fn wf(&self) -> bool {
        &&& self@ is Dir
        &&& tree_wf(self@)
    }

    /// A filesystem holding only an empty root directory.
    pub fn new() -> (r: FileSystem)
        ensures
            r.wf(),
            r@ == empty_dir(),
    {
        let fs = FileSystem { root: Node::Dir { children: Vec::new() } };
        proof {
            assert(entries_view(Seq::<(String, Node)>::empty())
                =~= Seq::<(Seq<char>, FsTree)>::empty());
        }
        fs
    }

    /// The node at `path`, if one exists.
    pub fn get_node<'a>(&'a self, path: &Vec<String>) -> (r: Option<&'a Node>)
        ensures
            match r {
                Some(m) => tree_lookup(self@, path.deep_view()) == Some(m@),
                None => tree_lookup(self@, path.deep_view()) is None,
            },
    {
        let mut cur: &Node = &self.root;
        let mut i: usize = 0;
        proof {
            assert(path.deep_view().skip(0) =~= path.deep_view());
        }
        while i < path.len()
            invariant
                i <= path@.len(),
                tree_lookup(self@, path.deep_view()) == tree_lookup(
                    cur@,
                    path.deep_view().skip(i as int),
                ),
            decreases path@.len() - i,
        {
            let ghost p = path.deep_view().skip(i as int);
            proof {
                assert(p[0] == path@[i as int]@);
            }
            match cur {
                Node::File { .. } => {
                    return None;
                },
                Node::Dir { children } => {
                    proof {
                        lemma_entries_view_index(children@, children@.len() as int);
                    }
                    match find_child_linear(children, &path[i]) {
                        None => {
                            return None;
                        },
                        Some(j) => {
                            proof {
                                assert(path.deep_view().skip(i + 1) =~= p.drop_first());
                            }
                            cur = &children[j].1;
                            i = i + 1;
                        },
                    }
                },
            }
        }
        proof {
            assert(path.deep_view().skip(path@.len() as int) =~= Seq::<Seq<char>>::empty());
        }
        Some(cur)
    }

    /// Whether the node at `path` is a directory.
    pub fn is_dir(&self, path: &Vec<String>) -> (r: Result<bool, FsError>)
        ensures
            r == tree_is_dir(self@, path.deep_view()),
    {
        match self.get_node(path) {
            Some(Node::Dir { .. }) => Ok(true),
            Some(Node::File { .. }) => Ok(false),
            None => Err(FsError::NotFound),
        }
    }

    /// The content of the file at `path`.
    pub fn read_file(&self, path: &Vec<String>) -> (r: Result<String, FsError>)
        ensures
            match r {
                Ok(s) => tree_read(self@, path.deep_view()) == Ok::<Seq<char>, FsError>(s@),
                Err(e) => tree_read(self@, path.deep_view()) == Err::<Seq<char>, FsError>(e),
            },
    {
        match self.get_node(path) {
            Some(Node::File { content }) => Ok(content.clone()),
            Some(Node::Dir { .. }) => Err(FsError::IsADirectory),
            None => Err(FsError::NotFound),
        }
    }

    /// The `ls` text for the node at `path`: a directory's entries in sorted
    /// order, `/`-suffixed for directories and joined by two spaces; a file's
    /// own final path segment.
    pub fn list(&self, path: &Vec<String>) -> (r: Result<String, FsError>)
        ensures
            match r {
                Ok(s) => tree_list(self@, path.deep_view()) == Ok::<Seq<char>, FsError>(s@),
                Err(e) => tree_list(self@, path.deep_view()) == Err::<Seq<char>, FsError>(e),
            },
    {
        match self.get_node(path) {
            None => Err(FsError::NotFound),
            Some(Node::File { .. }) => {
                if path.len() == 0 {
                    Ok(String::new())
                } else {
                    proof {
                        assert(path.deep_view().last() == path@[path@.len() - 1]@);
                    }
                    Ok(path[path.len() - 1].clone())
                }
            },
            Some(Node::Dir { children }) => {
                let ghost es = entries_view(children@);
                proof {
                    lemma_entries_view_index(children@, children@.len() as int);
                    reveal_strlit("  ");
                    reveal_strlit("/");
                    assert("  "@ =~= seq![' ', ' ']);
                    assert("/"@ =~= seq!['/']);
                    assert(entries_view_upto(children@, 0) =~= Seq::<(Seq<char>, FsTree)>::empty());
                }
                let mut out = String::new();
                let mut j: usize = 0;
                while j < children.len()
                    invariant
                        j <= children@.len(),
                        es == entries_view(children@),
                        es.len() == children@.len(),
                        forall|m: int|
                            0 <= m < es.len() ==> #[trigger] es[m] == (
                                children@[m].0@,
                                node_view(children@[m].1),
                            ),
                        out@ == render_entries(entries_view_upto(children@, j as int)),
                        "  "@ == seq![' ', ' '],
                        "/"@ == seq!['/'],
                    decreases children@.len() - j,
                {
                    if j > 0 {
                        out.append("  ");
                    }
                    let pair = &children[j];
                    out.append(pair.0.as_str());
                    let is_d = match &pair.1 {
                        Node::Dir { .. } => true,
                        Node::File { .. } => false,
                    };
                    if is_d {
                        out.append("/");
                    }
                    proof {
                        let pre = entries_view_upto(children@, j as int);
                        let now = entries_view_upto(children@, j + 1);
                        assert(now == pre.push(es[j as int]));
                        assert(now.drop_last() =~= pre);
                        assert(now.last() == es[j as int]);
                        assert(es[j as int].1 is Dir <==> is_d);
                        if is_d {
                            assert(entry_label(es[j as int]) =~= children@[j as int].0@
                                + seq!['/']);
                        } else {
                            assert(entry_label(es[j as int]) == children@[j as int].0@);
                        }
                        if j == 0 {
                            assert(out@ =~= entry_label(es[0]));
                            assert(render_entries(now) == entry_label(now[0]));
                        } else {
                            assert(out@ =~= render_entries(pre) + seq![' ', ' '] + entry_label(
                                es[j as int],
                            ));
                        }
                    }
                    j = j + 1;
                }
                proof {
                    assert(entries_view_upto(children@, children@.len() as int) == es);
                }
                Ok(out)
            },
        }
    }

    /// Create an empty directory at `path`.
    pub fn mkdir(&mut self, path: &Vec<String>) -> (r: Result<(), FsError>)
        requires
            old(self).wf(),
        ensures
            final(self).wf(),
            final(self)@ == tree_mkdir(old(self)@, path.deep_view()).0,
            r == tree_mkdir(old(self)@, path.deep_view()).1,
    {
        proof {
            lemma_tree_mkdir_wf(old(self)@, path.deep_view());
        }
        if path.len() == 0 {
            return Err(FsError::InvalidPath);
        }
        let mut root = Node::File { content: String::new() };
        core::mem::swap(&mut root, &mut self.root);
        let (nr, r) = node_mkdir(root, path, 0);
        proof {
            assert(path.deep_view().skip(0) =~= path.deep_view());
        }
        self.root = nr;
        r
    }

    /// Create an empty file at `path`; an existing file is left unchanged.
    pub fn touch(&mut self, path: &Vec<String>) -> (r: Result<(), FsError>)
        requires
            old(self).wf(),
        ensures
            final(self).wf(),
            final(self)@ == tree_touch(old(self)@, path.deep_view()).0,
            r == tree_touch(old(self)@, path.deep_view()).1,
    {
        proof {
            lemma_tree_touch_wf(old(self)@, path.deep_view());
        }
        if path.len() == 0 {
            return Err(FsError::InvalidPath);
        }
        let mut root = Node::File { content: String::new() };
        core::mem::swap(&mut root, &mut self.root);
        let (nr, r) = node_touch(root, path, 0);
        proof {
            assert(path.deep_view().skip(0) =~= path.deep_view());
        }
        self.root = nr;
        r
    }

    /// Write `content` to the file at `path`, creating it if absent.
    pub fn write_file(&mut self, path: &Vec<String>, content: String, append: bool) -> (r: Result<
        (),
        FsError,
    >)
        requires
            old(self).wf(),
        ensures
            final(self).wf(),
            final(self)@ == tree_write(old(self)@, path.deep_view(), content@, append).0,
            r == tree_write(old(self)@, path.deep_view(), content@, append).1,
    {
        proof {
            lemma_tree_write_wf(old(self)@, path.deep_view(), content@, append);
        }
        if path.len() == 0 {
            return Err(FsError::InvalidPath);
        }
        let mut root = Node::File { content: String::new() };
        core::mem::swap(&mut root, &mut self.root);
        let (nr, r) = node_write(root, path, 0, content, append);
        proof {
            assert(path.deep_view().skip(0) =~= path.deep_view());
        }
        self.root = nr;
        r
    }
}

/// A non-empty path split into its parent segments and final name.
pub fn split_parent(path: &Vec<String>) -> (r: (Vec<String>, String))
    requires
        path@.len() > 0,
    ensures
        r.0.deep_view() == path.deep_view().drop_last(),
        r.1@ == path.deep_view().last(),
{
    let mut parent: Vec<String> = Vec::new();
    let mut i: usize = 0;
    while i < path.len() - 1
        invariant
            path@.len() > 0,
            i <= path@.len() - 1,
            parent@.len() == i,
            forall|m: int| 0 <= m < i ==> parent@[m]@ == path@[m]@,
        decreases path@.len() - 1 - i,
    {
        parent.push(path[i].clone());
        i = i + 1;
    }
    proof {
        assert(parent.deep_view() =~= path.deep_view().drop_last());
    }
    (parent, path[path.len() - 1].clone())
}

} // verus!
