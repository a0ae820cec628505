//! Failures cost only themselves.
//!
//! A node that cannot be read is left out of the archive and the traversal
//! goes on. [`readable_part`] is a tree without the nodes that fail, and
//! [`law_failures_cost_only_themselves`] shows that the archive of a tree is
//! the archive of its readable part: nothing else is lost.

use crate::path::is_entry_name;
use crate::rollback::contents::{
    identifiers, identifiers_from, intact, intact_from, is_archivable,
    law_archive_holds_every_node, nodes, nodes_from, unrepeated, unrepeated_from,
};
use crate::rollback::traversal::run;
use crate::rollback::tree::{descend, Tree};
use crate::rollback::walk::{child_of, initial_walker, EntryView, PendingView};
use vstd::prelude::*;

verus! {

/// `tree` without what fails in it: a listing keeps the nodes that can be
/// archived under a name that can be archived, and a directory that cannot
/// be listed lists nothing.
pub open spec fn readable_part(tree: Tree) -> Tree
    decreases tree, 0nat,
{
    match tree {
        Tree::Directory { inode, listing: Some(children) } => Tree::Directory {
            inode,
            listing: Some(readable_from(children, 0)),
        },
        Tree::Directory { inode, listing: None } => Tree::Directory {
            inode,
            listing: Some(Seq::empty()),
        },
        _ => tree,
    }
}

/// What `children` lists from position `from` on, without what fails.
pub open spec fn readable_from(children: Seq<(Seq<u8>, Tree)>, from: nat) -> Seq<
    (Seq<u8>, Tree),
>
    decreases children, children.len() - from,
{
    if from >= children.len() {
        Seq::empty()
    } else {
        let name = children[from as int].0;
        let sub = children[from as int].1;
        if is_entry_name(name) && is_archivable(sub) {
            seq![(name, readable_part(sub))] + readable_from(children, from + 1)
        } else {
            readable_from(children, from + 1)
        }
    }
}

/// The nodes of a listing from one position on do not depend on what comes
/// before that position.
proof fn lemma_nodes_shift(
    first: (Seq<u8>, Tree),
    rest: Seq<(Seq<u8>, Tree)>,
    from: nat,
    parent: PendingView,
)
    ensures
        nodes_from(seq![first] + rest, from + 1, parent) == nodes_from(rest, from, parent),
    decreases rest.len() - from,
{
    let all = seq![first] + rest;
    if from < rest.len() {
        assert(all[from as int + 1] == rest[from as int]);
        lemma_nodes_shift(first, rest, from + 1, parent);
    }
}

/// Nor do its identifiers.
proof fn lemma_identifiers_shift(first: (Seq<u8>, Tree), rest: Seq<(Seq<u8>, Tree)>, from: nat)
    ensures
        identifiers_from(seq![first] + rest, from + 1) == identifiers_from(rest, from),
    decreases rest.len() - from,
{
    let all = seq![first] + rest;
    if from < rest.len() {
        assert(all[from as int + 1] == rest[from as int]);
        lemma_identifiers_shift(first, rest, from + 1);
    }
}

/// Nor whether an identifier occurs twice in it.
proof fn lemma_unrepeated_shift(first: (Seq<u8>, Tree), rest: Seq<(Seq<u8>, Tree)>, from: nat)
    ensures
        unrepeated_from(seq![first] + rest, from + 1) == unrepeated_from(rest, from),
    decreases rest.len() - from,
{
    let all = seq![first] + rest;
    if from < rest.len() {
        assert(all[from as int + 1] == rest[from as int]);
        lemma_unrepeated_shift(first, rest, from + 1);
        lemma_identifiers_shift(first, rest, from + 1);
    }
}

/// Nor whether anything fails in it.
proof fn lemma_intact_shift(first: (Seq<u8>, Tree), rest: Seq<(Seq<u8>, Tree)>, from: nat)
    ensures
        intact_from(seq![first] + rest, from + 1) == intact_from(rest, from),
    decreases rest.len() - from,
{
    let all = seq![first] + rest;
    if from < rest.len() {
        assert(all[from as int + 1] == rest[from as int]);
        lemma_intact_shift(first, rest, from + 1);
    }
}

/// The readable part of a tree has the nodes and the identifiers of the
/// tree, repeats no identifier that the tree does not repeat, and holds
/// nothing that fails below a top node that can be archived.
pub proof fn lemma_readable_part(tree: Tree, at: PendingView)
    ensures
        nodes(readable_part(tree), at) == nodes(tree, at),
        identifiers(readable_part(tree)) == identifiers(tree),
        unrepeated(tree) ==> unrepeated(readable_part(tree)),
        is_archivable(tree) ==> intact(readable_part(tree)),
    decreases tree, 0nat,
{
    match tree {
        Tree::Directory { inode, listing: Some(children) } => {
            lemma_readable_children(children, 0, at);
        },
        Tree::Directory { inode, listing: None } => {
            let none = Seq::<(Seq<u8>, Tree)>::empty();
            assert(nodes_from(none, 0, at) =~= Seq::<EntryView>::empty());
            assert(nodes(readable_part(tree), at) =~= nodes(tree, at));
            assert(identifiers(readable_part(tree)) =~= identifiers(tree));
        },
        _ => {},
    }
}

/// The same of the children that a directory lists.
pub proof fn lemma_readable_children(
    children: Seq<(Seq<u8>, Tree)>,
    from: nat,
    parent: PendingView,
)
    ensures
        nodes_from(readable_from(children, from), 0, parent) == nodes_from(
            children,
            from,
            parent,
        ),
        identifiers_from(readable_from(children, from), 0) == identifiers_from(children, from),
        unrepeated_from(children, from) ==> unrepeated_from(readable_from(children, from), 0),
        intact_from(readable_from(children, from), 0),
    decreases children, children.len() - from,
{
    if from < children.len() {
        let name = children[from as int].0;
        let sub = children[from as int].1;
        let later = readable_from(children, from + 1);
        lemma_readable_children(children, from + 1, parent);
        if is_entry_name(name) && is_archivable(sub) {
            let place = child_of(parent, name);
            let first = (name, readable_part(sub));
            let kept = seq![first] + later;
            assert(readable_from(children, from) == kept);
            assert(kept[0] == first);
            lemma_readable_part(sub, place);
            lemma_nodes_shift(first, later, 0, parent);
            lemma_identifiers_shift(first, later, 0);
            lemma_unrepeated_shift(first, later, 0);
            lemma_intact_shift(first, later, 0);
        } else if is_entry_name(name) {
            assert(nodes(sub, child_of(parent, name)) =~= Seq::<EntryView>::empty());
            assert(identifiers(sub) =~= Set::<u64>::empty());
            assert(nodes_from(children, from, parent) =~= nodes_from(
                children,
                from + 1,
                parent,
            ));
            assert(identifiers_from(children, from) =~= identifiers_from(children, from + 1));
        }
    }
}

/// Soft-failure isolation: the archive of a tree is the archive of its
/// readable part. A node that cannot be read, a directory that cannot be
/// listed, a name that cannot be archived: each is left out, with what lies
/// below it, and every other node is archived as if the failing one were
/// not there. The traversal ends with nothing pending.
pub proof fn law_failures_cost_only_themselves(tree: Tree, source: Seq<u8>)
    requires
        unrepeated(tree),
    ensures
        ({
            let start = initial_walker(source);
            let at = start.pending.last();
            let with_failures = run(start, descend(tree, at, Set::empty()).probes);
            let without = run(start, descend(readable_part(tree), at, Set::empty()).probes);
            &&& with_failures.entries == without.entries
            &&& with_failures.walker.pending.len() == 0
            &&& is_archivable(tree) ==> intact(readable_part(tree))
        }),
{
    let at = initial_walker(source).pending.last();
    lemma_readable_part(tree, at);
    law_archive_holds_every_node(tree, source);
    law_archive_holds_every_node(readable_part(tree), source);
}

} // verus!
