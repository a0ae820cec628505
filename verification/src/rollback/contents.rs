//! What an archive holds of the tree it was made from.
//!
//! [`nodes`] lists every node of a tree that can be archived, each with its
//! place. Where no directory identifier occurs twice, that list is the
//! archive ([`law_archive_holds_every_node`]); where nothing fails either,
//! nothing is left out ([`law_intact_tree_is_archived_whole`]).

use crate::path::is_entry_name;
use crate::rollback::traversal::{answered, run};
use crate::rollback::tree::{
    descend, descend_from, entry_seq, law_walk_matches_descent, listed_names, lone_walker,
    probe_of, Tree,
};
use crate::rollback::walk::{
    child_of, initial_walker, rejected_of, EntryKindView, EntryView, PendingView, SkippedView,
};
use vstd::prelude::*;

verus! {

/// The entry that the top node of `tree` gets at the place `at`, if it can
/// be archived: a directory, a file that can be opened, a symlink whose
/// target can be read.
pub open spec fn own_entry(tree: Tree, at: PendingView) -> Option<EntryView> {
    match tree {
        Tree::Symlink { target: Some(target) } => Some(
            EntryView { source: at.source, path: at.path, kind: EntryKindView::Symlink { target } },
        ),
        Tree::Directory { .. } => Some(
            EntryView { source: at.source, path: at.path, kind: EntryKindView::Directory },
        ),
        Tree::File { readable: true } => Some(
            EntryView { source: at.source, path: at.path, kind: EntryKindView::File },
        ),
        _ => None,
    }
}

/// Every node of `tree` that can be archived, with its place: the top node
/// first, then what it lists, each node in turn and each to its full depth.
pub open spec fn nodes(tree: Tree, at: PendingView) -> Seq<EntryView>
    decreases tree, 0nat,
{
    match tree {
        Tree::Directory { listing: Some(children), .. } => entry_seq(own_entry(tree, at))
            + nodes_from(children, 0, at),
        _ => entry_seq(own_entry(tree, at)),
    }
}

/// The nodes below `parent` that `children` lists from position `from` on.
pub open spec fn nodes_from(children: Seq<(Seq<u8>, Tree)>, from: nat, parent: PendingView) -> Seq<
    EntryView,
>
    decreases children, children.len() - from,
{
    if from >= children.len() {
        Seq::empty()
    } else {
        let name = children[from as int].0;
        if is_entry_name(name) {
            nodes(children[from as int].1, child_of(parent, name)) + nodes_from(
                children,
                from + 1,
                parent,
            )
        } else {
            nodes_from(children, from + 1, parent)
        }
    }
}

/// The identifiers of the directories in `tree` that a descent can reach.
pub open spec fn identifiers(tree: Tree) -> Set<u64>
    decreases tree, 0nat,
{
    match tree {
        Tree::Directory { inode, listing: Some(children) } => identifiers_from(
            children,
            0,
        ).insert(inode),
        Tree::Directory { inode, listing: None } => set![inode],
        _ => Set::empty(),
    }
}

/// The identifiers of the directories that a descent can reach through what
/// `children` lists from position `from` on.
pub open spec fn identifiers_from(children: Seq<(Seq<u8>, Tree)>, from: nat) -> Set<u64>
    decreases children, children.len() - from,
{
    if from >= children.len() {
        Set::empty()
    } else if is_entry_name(children[from as int].0) {
        identifiers(children[from as int].1).union(identifiers_from(children, from + 1))
    } else {
        identifiers_from(children, from + 1)
    }
}

/// Whether no directory identifier occurs twice in `tree`: no directory is
/// reachable by two ways, and none holds itself.
pub open spec fn unrepeated(tree: Tree) -> bool
    decreases tree, 0nat,
{
    match tree {
        Tree::Directory { inode, listing: Some(children) } => !identifiers_from(
            children,
            0,
        ).contains(inode) && unrepeated_from(children, 0),
        _ => true,
    }
}

/// Whether no directory identifier occurs twice in what `children` lists
/// from position `from` on.
pub open spec fn unrepeated_from(children: Seq<(Seq<u8>, Tree)>, from: nat) -> bool
    decreases children, children.len() - from,
{
    if from >= children.len() {
        true
    } else if is_entry_name(children[from as int].0) {
        &&& unrepeated(children[from as int].1)
        &&& identifiers(children[from as int].1).disjoint(identifiers_from(children, from + 1))
        &&& unrepeated_from(children, from + 1)
    } else {
        unrepeated_from(children, from + 1)
    }
}

/// Where the walker has met none of the identifiers of a tree in which none
/// occurs twice, the descent writes an entry for every node that can be
/// archived, and afterwards knows the tree's identifiers.
pub proof fn lemma_descent_lists_nodes(tree: Tree, at: PendingView, visited: Set<u64>)
    requires
        unrepeated(tree),
        identifiers(tree).disjoint(visited),
    ensures
        descend(tree, at, visited).entries == nodes(tree, at),
        descend(tree, at, visited).visited == visited.union(identifiers(tree)),
    decreases tree, 0nat,
{
    let alone = lone_walker(at, visited);
    let probe = probe_of(tree);
    let d = descend(tree, at, visited);
    assert(alone.pending.last() == at);
    match tree {
        Tree::Directory { inode, listing } => {
            assert(identifiers(tree).contains(inode));
            assert(!visited.contains(inode));
            match listing {
                Some(children) => {
                    let known = visited.insert(inode);
                    assert(identifiers_from(children, 0).disjoint(known)) by {
                        assert forall|i: u64|
                            identifiers_from(children, 0).contains(i) implies !known.contains(
                            i,
                        ) by {
                            assert(identifiers(tree).contains(i));
                        }
                    }
                    lemma_children_list_nodes(children, 0, at, known);
                    assert(d.visited =~= visited.union(identifiers(tree)));
                },
                None => {
                    assert(d.visited =~= visited.union(identifiers(tree)));
                },
            }
        },
        _ => {
            assert(d.visited =~= visited.union(identifiers(tree)));
        },
    }
}

/// The same of the children that a directory lists.
pub proof fn lemma_children_list_nodes(
    children: Seq<(Seq<u8>, Tree)>,
    from: nat,
    parent: PendingView,
    visited: Set<u64>,
)
    requires
        unrepeated_from(children, from),
        identifiers_from(children, from).disjoint(visited),
    ensures
        descend_from(children, from, parent, visited).entries == nodes_from(
            children,
            from,
            parent,
        ),
        descend_from(children, from, parent, visited).visited == visited.union(
            identifiers_from(children, from),
        ),
    decreases children, children.len() - from,
{
    let d = descend_from(children, from, parent, visited);
    if from >= children.len() {
        assert(d.visited =~= visited.union(identifiers_from(children, from)));
    } else {
        let name = children[from as int].0;
        let sub = children[from as int].1;
        if is_entry_name(name) {
            let place = child_of(parent, name);
            assert(identifiers(sub).disjoint(visited)) by {
                assert forall|i: u64| identifiers(sub).contains(i) implies !visited.contains(
                    i,
                ) by {
                    assert(identifiers_from(children, from).contains(i));
                }
            }
            lemma_descent_lists_nodes(sub, place, visited);
            let known = visited.union(identifiers(sub));
            assert(identifiers_from(children, from + 1).disjoint(known)) by {
                assert forall|i: u64|
                    identifiers_from(children, from + 1).contains(i) implies !known.contains(
                    i,
                ) by {
                    assert(identifiers_from(children, from).contains(i));
                }
            }
            lemma_children_list_nodes(children, from + 1, parent, known);
            assert(d.visited =~= visited.union(identifiers_from(children, from)));
        } else {
            lemma_children_list_nodes(children, from + 1, parent, visited);
        }
    }
}

/// Where no directory identifier occurs twice in a tree, its archive holds
/// one entry for every node that can be archived, in the order of the
/// descent, and no other. What fails is left out and costs nothing else.
pub proof fn law_archive_holds_every_node(tree: Tree, source: Seq<u8>)
    requires
        unrepeated(tree),
    ensures
        ({
            let start = initial_walker(source);
            let d = descend(tree, start.pending.last(), Set::empty());
            let o = run(start, d.probes);
            &&& answered(start, d.probes)
            &&& o.walker.pending.len() == 0
            &&& o.entries == nodes(tree, start.pending.last())
        }),
{
    law_walk_matches_descent(tree, source);
    lemma_descent_lists_nodes(tree, initial_walker(source).pending.last(), Set::empty());
}

/// Whether the top node of `tree` can be archived.
pub open spec fn is_archivable(tree: Tree) -> bool {
    match tree {
        Tree::Symlink { target: Some(_) } => true,
        Tree::Directory { .. } => true,
        Tree::File { readable: true } => true,
        _ => false,
    }
}

/// Whether nothing in `tree` fails: every node can be archived, every
/// directory can be listed, and every listed name is the name of an entry.
pub open spec fn intact(tree: Tree) -> bool
    decreases tree, 0nat,
{
    match tree {
        Tree::Directory { listing: Some(children), .. } => intact_from(children, 0),
        Tree::Directory { listing: None, .. } => false,
        _ => is_archivable(tree),
    }
}

/// Whether nothing fails in what `children` lists from position `from` on.
pub open spec fn intact_from(children: Seq<(Seq<u8>, Tree)>, from: nat) -> bool
    decreases children, children.len() - from,
{
    if from >= children.len() {
        true
    } else {
        &&& is_entry_name(children[from as int].0)
        &&& intact(children[from as int].1)
        &&& intact_from(children, from + 1)
    }
}

/// A listing in which nothing fails holds only names of entries.
proof fn lemma_intact_names(children: Seq<(Seq<u8>, Tree)>, from: nat)
    requires
        intact_from(children, from),
    ensures
        forall|k: int| from <= k < children.len() ==> is_entry_name(#[trigger] children[k].0),
    decreases children.len() - from,
{
    if from < children.len() {
        lemma_intact_names(children, from + 1);
    }
}

/// No name is rejected of a listing that holds only names of entries.
proof fn lemma_nothing_rejected(names: Seq<Seq<u8>>)
    requires
        forall|k: int| 0 <= k < names.len() ==> is_entry_name(#[trigger] names[k]),
    ensures
        rejected_of(names) == Seq::<SkippedView>::empty(),
    decreases names.len(),
{
    let reject = |n: Seq<u8>| !is_entry_name(n);
    if names.len() == 0 {
        assert(names.filter(reject) =~= Seq::<Seq<u8>>::empty()) by {
            reveal(Seq::filter);
        }
    } else {
        let earlier = names.drop_last();
        assert forall|k: int| 0 <= k < earlier.len() implies is_entry_name(
            #[trigger] earlier[k],
        ) by {
            assert(earlier[k] == names[k]);
        }
        lemma_nothing_rejected(earlier);
        assert(is_entry_name(names[names.len() - 1]));
        earlier.lemma_filter_push(names.last(), reject);
        assert(earlier.push(names.last()) =~= names);
        assert(earlier.filter(reject).len() == 0) by {
            assert(rejected_of(earlier).len() == earlier.filter(reject).len());
        }
    }
    assert(rejected_of(names) =~= Seq::<SkippedView>::empty());
}

/// Nothing is left out of a tree in which nothing fails.
pub proof fn lemma_intact_descent_skips_nothing(tree: Tree, at: PendingView, visited: Set<u64>)
    requires
        intact(tree),
    ensures
        descend(tree, at, visited).skipped == Seq::<SkippedView>::empty(),
    decreases tree, 0nat,
{
    let alone = lone_walker(at, visited);
    let d = descend(tree, at, visited);
    assert(alone.pending.last() == at);
    match tree {
        Tree::Directory { inode, listing: Some(children) } => {
            if !visited.contains(inode) {
                lemma_intact_names(children, 0);
                let names = listed_names(children);
                assert forall|k: int| 0 <= k < names.len() implies is_entry_name(
                    #[trigger] names[k],
                ) by {
                    assert(names[k] == children[k].0);
                }
                lemma_nothing_rejected(names);
                lemma_intact_children_skip_nothing(children, 0, at, visited.insert(inode));
                assert(d.skipped =~= Seq::<SkippedView>::empty());
            }
        },
        _ => {},
    }
}

/// The same of the children that a directory lists.
pub proof fn lemma_intact_children_skip_nothing(
    children: Seq<(Seq<u8>, Tree)>,
    from: nat,
    parent: PendingView,
    visited: Set<u64>,
)
    requires
        intact_from(children, from),
    ensures
        descend_from(children, from, parent, visited).skipped == Seq::<SkippedView>::empty(),
    decreases children, children.len() - from,
{
    if from < children.len() {
        let name = children[from as int].0;
        let place = child_of(parent, name);
        lemma_intact_descent_skips_nothing(children[from as int].1, place, visited);
        let head = descend(children[from as int].1, place, visited);
        lemma_intact_children_skip_nothing(children, from + 1, parent, head.visited);
        assert(descend_from(children, from, parent, visited).skipped =~= Seq::<
            SkippedView,
        >::empty());
    }
}

/// Round trip, the archive: of a tree in which nothing fails and no
/// directory identifier occurs twice, the archive holds every node, each
/// under the root name at the place it has in the tree, and the traversal
/// reports nothing left out.
pub proof fn law_intact_tree_is_archived_whole(tree: Tree, source: Seq<u8>)
    requires
        intact(tree),
        unrepeated(tree),
    ensures
        ({
            let start = initial_walker(source);
            let d = descend(tree, start.pending.last(), Set::empty());
            let o = run(start, d.probes);
            &&& answered(start, d.probes)
            &&& o.walker.pending.len() == 0
            &&& o.walker.skipped == Seq::<SkippedView>::empty()
            &&& o.entries == nodes(tree, start.pending.last())
        }),
{
    law_archive_holds_every_node(tree, source);
    law_walk_matches_descent(tree, source);
    lemma_intact_descent_skips_nothing(tree, initial_walker(source).pending.last(), Set::empty());
}

} // verus!
