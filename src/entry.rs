//! Selection of the nodes of a walked tree that become archive entries.

use vstd::prelude::*;

verus! {

/// How one selected node takes part in the archive.
#[derive(Clone, Copy, Debug, PartialEq, Eq, Structural)]
pub enum EntryKind {
    /// A regular file: one unit of progress.
    File,
    /// A directory without children: one unit of progress of its own.
    EmptyDirectory,
    /// A directory with children: structural only, its children carry the progress.
    NonEmptyDirectory,
}

/// Whether processing an entry of this kind advances the progress count.
pub open spec fn counts_progress(k: EntryKind) -> bool {
    k != EntryKind::NonEmptyDirectory
}

/// Whether an entry of this kind advances the progress count.
pub fn is_progress_unit(k: EntryKind) -> (r: bool)
    ensures
        r == counts_progress(k),
{
    match k {
        EntryKind::NonEmptyDirectory => false,
        _ => true,
    }
}

/// Classification of a walked node: regular files and directories are kept,
/// anything else (links, devices, sockets) is left out.
pub open spec fn kind_of(is_file: bool, is_dir: bool, has_children: bool) -> Option<EntryKind> {
    if is_file {
        Some(EntryKind::File)
    } else if is_dir {
        if has_children {
            Some(EntryKind::NonEmptyDirectory)
        } else {
            Some(EntryKind::EmptyDirectory)
        }
    } else {
        None
    }
}

pub fn classify(is_file: bool, is_dir: bool, has_children: bool) -> (r: Option<EntryKind>)
    ensures
        r == kind_of(is_file, is_dir, has_children),
{
    if is_file {
        Some(EntryKind::File)
    } else if is_dir {
        if has_children {
            Some(EntryKind::NonEmptyDirectory)
        } else {
            Some(EntryKind::EmptyDirectory)
        }
    } else {
        None
    }
}

/// A path as the sequence of its components.
pub open spec fn comps(v: Seq<String>) -> Seq<Seq<char>> {
    v.map_values(|s: String| s@)
}

/// The part of `path` below `root`, when `root` is one of its ancestors or
/// the path itself.
pub open spec fn relative_of(root: Seq<Seq<char>>, path: Seq<Seq<char>>) -> Option<Seq<Seq<char>>> {
    if root.len() <= path.len() && path.take(root.len() as int) == root {
        Some(path.skip(root.len() as int))
    } else {
        None
    }
}

/// Strips the components of `root` off the front of `path`.
pub fn strip_root(root: &Vec<String>, path: &Vec<String>) -> (r: Option<Vec<String>>)
    ensures
        match r {
            Some(rel) => relative_of(comps(root@), comps(path@)) == Some(comps(rel@)),
            None => relative_of(comps(root@), comps(path@)).is_none(),
        },
{
    if root.len() > path.len() {
        return None;
    }
    let mut i: usize = 0;
    while i < root.len()
        invariant
            root.len() <= path.len(),
            i <= root.len(),
            forall|j: int| 0 <= j < i ==> root@[j]@ == path@[j]@,
        decreases root.len() - i,
    {
        if root[i] != path[i] {
            assert(comps(path@).take(root.len() as int)[i as int] != comps(root@)[i as int]);
            return None;
        }
        i = i + 1;
    }
    let mut rel: Vec<String> = Vec::new();
    let mut k: usize = root.len();
    while k < path.len()
        invariant
            root.len() <= k <= path.len(),
            comps(rel@) == comps(path@).subrange(root.len() as int, k as int),
        decreases path.len() - k,
    {
        let ghost before = rel@;
        rel.push(path[k].clone());
        assert(rel@ == before.push(path@[k as int]));
        assert(comps(rel@) =~= comps(before).push(path@[k as int]@));
        assert(comps(rel@) =~= comps(path@).subrange(root.len() as int, k + 1));
        k = k + 1;
    }
    assert(comps(path@).take(root.len() as int) =~= comps(root@));
    assert(comps(rel@) =~= comps(path@).skip(root.len() as int));
    Some(rel)
}

/// A node met while walking the source tree, as the walker reported it.
#[derive(Clone, Debug)]
pub struct WalkedNode {
    /// Location on disk, component by component.
    pub path: Vec<String>,
    pub is_file: bool,
    pub is_dir: bool,
    /// For a directory: whether reading it yielded at least one child.
    pub has_children: bool,
}

/// One node selected for the archive.
#[derive(Clone, Debug)]
pub struct Entry {
    /// Location on disk, component by component.
    pub path: Vec<String>,
    /// Location below the source root: the name inside the archive.
    pub relative: Vec<String>,
    pub kind: EntryKind,
}

/// An entry as values: its location, its location below the root, its kind.
pub type EntryModel = (Seq<Seq<char>>, Seq<Seq<char>>, EntryKind);

pub open spec fn entry_model(e: Entry) -> EntryModel {
    (comps(e.path@), comps(e.relative@), e.kind)
}

pub open spec fn entry_models(es: Seq<Entry>) -> Seq<EntryModel> {
    es.map_values(|e: Entry| entry_model(e))
}

/// The selection rule, shared by the counting pass and the collecting pass:
/// a node strictly below the root that is a regular file or a directory.
pub open spec fn select(root: Seq<Seq<char>>, n: WalkedNode) -> Option<EntryModel> {
    let path = comps(n.path@);
    match relative_of(root, path) {
        Some(rel) => if rel.len() > 0 {
            match kind_of(n.is_file, n.is_dir, n.has_children) {
                Some(k) => Some((path, rel, k)),
                None => None,
            }
        } else {
            None
        },
        None => None,
    }
}

/// The entries that a walk yields, in walk order.
pub open spec fn selected(root: Seq<Seq<char>>, nodes: Seq<WalkedNode>) -> Seq<EntryModel>
    decreases nodes.len(),
{
    if nodes.len() == 0 {
        seq![]
    } else {
        let rest = selected(root, nodes.drop_last());
        match select(root, nodes.last()) {
            Some(e) => rest.push(e),
            None => rest,
        }
    }
}

/// How many of the entries advance the progress count.
pub open spec fn progress_units(es: Seq<EntryModel>) -> nat
    decreases es.len(),
{
    if es.len() == 0 {
        0
    } else {
        progress_units(es.drop_last()) + if counts_progress(es.last().2) { 1nat } else { 0nat }
    }
}

proof fn lemma_selected_len(root: Seq<Seq<char>>, nodes: Seq<WalkedNode>)
    ensures
        selected(root, nodes).len() <= nodes.len(),
    decreases nodes.len(),
{
    if nodes.len() > 0 {
        lemma_selected_len(root, nodes.drop_last());
    }
}

proof fn lemma_progress_units_len(es: Seq<EntryModel>)
    ensures
        progress_units(es) <= es.len(),
    decreases es.len(),
{
    if es.len() > 0 {
        lemma_progress_units_len(es.drop_last());
    }
}

/// Applies the selection rule to one walked node.
pub fn select_node(root: &Vec<String>, node: &WalkedNode) -> (r: Option<Entry>)
    ensures
        match r {
            Some(e) => select(comps(root@), *node) == Some(entry_model(e)),
            None => select(comps(root@), *node).is_none(),
        },
{
    match strip_root(root, &node.path) {
        Some(rel) => {
            if rel.len() == 0 {
                return None;
            }
            match classify(node.is_file, node.is_dir, node.has_children) {
                Some(kind) => Some(Entry { path: node.path.clone(), relative: rel, kind }),
                None => None,
            }
        },
        None => None,
    }
}

/// Collects the entries of a walk of the tree under `root`.
pub fn entries(root: &Vec<String>, walk: &Vec<WalkedNode>) -> (r: Vec<Entry>)
    ensures
        entry_models(r@) == selected(comps(root@), walk@),
{
    let mut out: Vec<Entry> = Vec::new();
    let mut i: usize = 0;
    while i < walk.len()
        invariant
            i <= walk.len(),
            entry_models(out@) == selected(comps(root@), walk@.take(i as int)),
        decreases walk.len() - i,
    {
        let ghost before = out@;
        assert(walk@.take(i + 1).drop_last() =~= walk@.take(i as int));
        match select_node(root, &walk[i]) {
            Some(e) => {
                out.push(e);
                assert(entry_models(out@) =~= entry_models(before).push(entry_model(e)));
            },
            None => {},
        }
        i = i + 1;
    }
    assert(walk@.take(walk.len() as int) =~= walk@);
    out
}

/// Counts the units of progress that processing the entries of a walk will
/// report: files and empty directories.
pub fn num_files(root: &Vec<String>, walk: &Vec<WalkedNode>) -> (r: u64)
    ensures
        r == progress_units(selected(comps(root@), walk@)),
{
    let mut count: u64 = 0;
    let mut i: usize = 0;
    while i < walk.len()
        invariant
            i <= walk.len(),
            count == progress_units(selected(comps(root@), walk@.take(i as int))),
        decreases walk.len() - i,
    {
        assert(walk@.take(i + 1).drop_last() =~= walk@.take(i as int));
        proof {
            lemma_selected_len(comps(root@), walk@.take(i as int));
            lemma_progress_units_len(selected(comps(root@), walk@.take(i as int)));
        }
        match select_node(root, &walk[i]) {
            Some(e) => {
                let ghost prev = selected(comps(root@), walk@.take(i as int));
                assert(prev.push(entry_model(e)).drop_last() =~= prev);
                if is_progress_unit(e.kind) {
                    count = count + 1;
                }
            },
            None => {},
        }
        i = i + 1;
    }
    assert(walk@.take(walk.len() as int) =~= walk@);
    count
}

} // verus!
