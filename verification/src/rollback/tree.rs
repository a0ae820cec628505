//! A traversal held against the tree it walks.
//!
//! [`Tree`] is a directory tree as the walker gets to see it: what each node
//! is, and what each directory lists. [`descend`] archives such a tree the
//! plain way, node by node and into each directory as it comes. The walker
//! does the same with a queue in place of the recursion, and
//! [`law_walk_matches_descent`] shows that nothing is lost by that.

use crate::path::is_entry_name;
use crate::rollback::traversal::{answered, run};
use crate::rollback::walk::{
    child_of, children_of, initial_walker, step_entry, step_walker, EntryView, PendingView,
    ProbeView, SkippedView, WalkerView,
};
use vstd::prelude::*;

verus! {

/// A directory tree, as a look at each of its nodes shows it.
pub enum Tree {
    /// A node whose metadata cannot be read.
    Missing,
    /// A symlink, with its target where it can be read.
    Symlink { target: Option<Seq<u8>> },
    /// A directory, with what it lists where it can be listed: each name
    /// with the node of that name, in the order of enumeration.
    Directory { inode: u64, listing: Option<Seq<(Seq<u8>, Tree)>> },
    /// A regular file.
    File { readable: bool },
    /// Anything else.
    Other,
}

/// The names that a listing holds, in order.
pub open spec fn listed_names(children: Seq<(Seq<u8>, Tree)>) -> Seq<Seq<u8>> {
    children.map_values(|c: (Seq<u8>, Tree)| c.0)
}

/// What a look at the top node of `tree` finds.
pub open spec fn probe_of(tree: Tree) -> ProbeView {
    match tree {
        Tree::Missing => ProbeView::Missing,
        Tree::Symlink { target } => ProbeView::Symlink { target },
        Tree::Directory { inode, listing } => ProbeView::Directory {
            inode,
            children: match listing {
                Some(children) => Some(listed_names(children)),
                None => None,
            },
        },
        Tree::File { readable } => ProbeView::File { readable },
        Tree::Other => ProbeView::Other,
    }
}

/// What archiving a tree, or a run of trees, comes to.
pub struct Descent {
    /// What each look found, in the order of the looks.
    pub probes: Seq<ProbeView>,
    /// The entries written.
    pub entries: Seq<EntryView>,
    /// The directory identifiers known afterwards.
    pub visited: Set<u64>,
    /// The nodes left out.
    pub skipped: Seq<SkippedView>,
}

/// The walker that has only `at` to look at, with `visited` known.
pub open spec fn lone_walker(at: PendingView, visited: Set<u64>) -> WalkerView {
    WalkerView { visited, pending: seq![at], skipped: Seq::empty() }
}

/// The entry, if any, as a sequence.
pub open spec fn entry_seq(entry: Option<EntryView>) -> Seq<EntryView> {
    match entry {
        Some(e) => seq![e],
        None => Seq::empty(),
    }
}

/// Whether the walker goes into `tree` when it meets it with `visited`
/// known: a listed directory not met before.
pub open spec fn is_entered(tree: Tree, visited: Set<u64>) -> bool {
    match tree {
        Tree::Directory { inode, listing: Some(_) } => !visited.contains(inode),
        _ => false,
    }
}

/// `tree` archived at the place `at`, with the directories `visited` known:
/// the node itself first, then, if it is a listed directory not met before,
/// what it lists, each node in turn and each to its full depth.
pub open spec fn descend(tree: Tree, at: PendingView, visited: Set<u64>) -> Descent
    decreases tree, 0nat,
{
    let alone = lone_walker(at, visited);
    let probe = probe_of(tree);
    let after = step_walker(alone, probe);
    let first = entry_seq(step_entry(alone, probe));
    match tree {
        Tree::Directory { inode, listing: Some(children) } if !visited.contains(inode) => {
            let below = descend_from(children, 0, at, after.visited);
            Descent {
                probes: seq![probe] + below.probes,
                entries: first + below.entries,
                visited: below.visited,
                skipped: after.skipped + below.skipped,
            }
        },
        _ => Descent {
            probes: seq![probe],
            entries: first,
            visited: after.visited,
            skipped: after.skipped,
        },
    }
}

/// The nodes that `children` lists from position `from` on, archived in
/// turn below `parent`. A node whose name cannot be archived is passed over.
pub open spec fn descend_from(
    children: Seq<(Seq<u8>, Tree)>,
    from: nat,
    parent: PendingView,
    visited: Set<u64>,
) -> Descent
    decreases children, children.len() - from,
{
    if from >= children.len() {
        Descent { probes: Seq::empty(), entries: Seq::empty(), visited, skipped: Seq::empty() }
    } else {
        let name = children[from as int].0;
        if is_entry_name(name) {
            let head = descend(children[from as int].1, child_of(parent, name), visited);
            let tail = descend_from(children, from + 1, parent, head.visited);
            Descent {
                probes: head.probes + tail.probes,
                entries: head.entries + tail.entries,
                visited: tail.visited,
                skipped: head.skipped + tail.skipped,
            }
        } else {
            descend_from(children, from + 1, parent, visited)
        }
    }
}

/// A traversal told `first` and then `then` is the traversal told `then`
/// from where `first` left it.
pub proof fn lemma_run_in_two(start: WalkerView, first: Seq<ProbeView>, then: Seq<ProbeView>)
    ensures
        run(start, first + then).walker == run(run(start, first).walker, then).walker,
        run(start, first + then).entries == run(start, first).entries + run(
            run(start, first).walker,
            then,
        ).entries,
        answered(start, first + then) == (answered(start, first) && answered(
            run(start, first).walker,
            then,
        )),
    decreases then.len(),
{
    let mid = run(start, first).walker;
    if then.len() == 0 {
        assert(first + then =~= first);
        assert(run(start, first).entries + Seq::<EntryView>::empty() =~= run(
            start,
            first,
        ).entries);
    } else {
        let all = first + then;
        assert(all.drop_last() =~= first + then.drop_last());
        assert(all.last() == then.last());
        lemma_run_in_two(start, first, then.drop_last());
        let before = run(mid, then.drop_last());
        match step_entry(before.walker, then.last()) {
            Some(entry) => {
                assert(run(start, first).entries + before.entries.push(entry) =~= (run(
                    start,
                    first,
                ).entries + before.entries).push(entry));
            },
            None => {},
        }
    }
}

/// A traversal told one probe takes one step.
proof fn lemma_run_one(start: WalkerView, probe: ProbeView)
    ensures
        run(start, seq![probe]).walker == step_walker(start, probe),
        run(start, seq![probe]).entries == entry_seq(step_entry(start, probe)),
        answered(start, seq![probe]) == (start.pending.len() > 0),
{
    reveal_with_fuel(run, 2);
    reveal_with_fuel(answered, 2);
    let one = seq![probe];
    assert(one.drop_last() =~= Seq::<ProbeView>::empty());
    assert(one.last() == probe);
    match step_entry(start, probe) {
        Some(entry) => {
            assert(Seq::<EntryView>::empty().push(entry) =~= seq![entry]);
        },
        None => {},
    }
}

/// A step looks at the current node only: what else is pending, and what
/// was skipped before, stays as it is.
proof fn lemma_step_is_local(w: WalkerView, probe: ProbeView)
    requires
        w.pending.len() > 0,
    ensures
        ({
            let alone = lone_walker(w.pending.last(), w.visited);
            let after = step_walker(alone, probe);
            &&& step_entry(w, probe) == step_entry(alone, probe)
            &&& step_walker(w, probe) == WalkerView {
                visited: after.visited,
                pending: w.pending.drop_last() + after.pending,
                skipped: w.skipped + after.skipped,
            }
        }),
{
    let alone = lone_walker(w.pending.last(), w.visited);
    let after = step_walker(alone, probe);
    let next = step_walker(w, probe);
    assert(alone.pending.last() == w.pending.last());
    assert(alone.pending.drop_last() =~= Seq::<PendingView>::empty());
    assert(next.pending =~= w.pending.drop_last() + after.pending);
    assert(next.skipped =~= w.skipped + after.skipped);
    assert(next.visited == after.visited);
}

/// What `children` queue from position `from` on, the first of them on top.
pub open spec fn queued_from(children: Seq<(Seq<u8>, Tree)>, from: nat, parent: PendingView) -> Seq<
    PendingView,
> {
    children_of(parent, listed_names(children).skip(from as int)).reverse()
}

/// The queue of the children from `from` on is the queue of those after
/// `from`, with the child at `from` on top where its name can be archived.
proof fn lemma_queue_unfolds(children: Seq<(Seq<u8>, Tree)>, from: nat, parent: PendingView)
    requires
        from < children.len(),
    ensures
        is_entry_name(children[from as int].0) ==> queued_from(children, from, parent)
            == queued_from(children, from + 1, parent).push(
            child_of(parent, children[from as int].0),
        ),
        !is_entry_name(children[from as int].0) ==> queued_from(children, from, parent)
            == queued_from(children, from + 1, parent),
{
    let names = listed_names(children);
    let name = children[from as int].0;
    let here = names.skip(from as int);
    let later = names.skip(from as int + 1);
    let keep = |n: Seq<u8>| is_entry_name(n);
    let to_child = |n: Seq<u8>| child_of(parent, n);
    assert(here =~= seq![name] + later);
    Seq::filter_distributes_over_add(seq![name], later, keep);
    assert(seq![name] =~= Seq::<Seq<u8>>::empty().push(name));
    Seq::<Seq<u8>>::empty().lemma_filter_push(name, keep);
    assert(Seq::<Seq<u8>>::empty().filter(keep) =~= Seq::empty()) by {
        reveal(Seq::filter);
    }
    if is_entry_name(name) {
        assert(seq![name].filter(keep) =~= seq![name]);
        assert(here.filter(keep) =~= seq![name] + later.filter(keep));
        assert(here.filter(keep).map_values(to_child) =~= seq![child_of(parent, name)]
            + later.filter(keep).map_values(to_child));
        assert((seq![child_of(parent, name)] + later.filter(keep).map_values(
            to_child,
        )).reverse() =~= later.filter(keep).map_values(to_child).reverse().push(
            child_of(parent, name),
        ));
    } else {
        assert(seq![name].filter(keep) =~= Seq::<Seq<u8>>::empty());
        assert(here.filter(keep) =~= later.filter(keep));
    }
}

/// The walker archives the tree at its current node as [`descend`] does,
/// and leaves what else was pending as it was.
pub proof fn lemma_descent_on_stack(tree: Tree, w: WalkerView)
    requires
        w.pending.len() > 0,
    ensures
        ({
            let d = descend(tree, w.pending.last(), w.visited);
            let o = run(w, d.probes);
            &&& answered(w, d.probes)
            &&& o.entries == d.entries
            &&& o.walker == WalkerView {
                visited: d.visited,
                pending: w.pending.drop_last(),
                skipped: w.skipped + d.skipped,
            }
        }),
    decreases tree, 0nat,
{
    let at = w.pending.last();
    let alone = lone_walker(at, w.visited);
    let probe = probe_of(tree);
    let after = step_walker(alone, probe);
    let d = descend(tree, at, w.visited);
    lemma_run_one(w, probe);
    lemma_step_is_local(w, probe);
    let w1 = step_walker(w, probe);
    match tree {
        Tree::Directory { inode, listing: Some(children) } => {
            if !w.visited.contains(inode) {
                let rest = w.pending.drop_last();
                assert(listed_names(children).skip(0) =~= listed_names(children));
                assert(w1.pending == rest + queued_from(children, 0, at));
                lemma_children_on_stack(children, 0, at, rest, w1);
                let below = descend_from(children, 0, at, after.visited);
                lemma_run_in_two(w, seq![probe], below.probes);
                assert(w1.skipped + below.skipped =~= w.skipped + (after.skipped
                    + below.skipped));
            } else {
                assert(after.pending =~= Seq::<PendingView>::empty());
                assert(w.pending.drop_last() + after.pending =~= w.pending.drop_last());
            }
        },
        _ => {
            assert(after.pending =~= Seq::<PendingView>::empty());
            assert(w.pending.drop_last() + after.pending =~= w.pending.drop_last());
        },
    }
}

/// The walker archives the children queued on top of `rest` as
/// [`descend_from`] does, and leaves `rest` as it was.
pub proof fn lemma_children_on_stack(
    children: Seq<(Seq<u8>, Tree)>,
    from: nat,
    parent: PendingView,
    rest: Seq<PendingView>,
    w: WalkerView,
)
    requires
        from <= children.len(),
        w.pending == rest + queued_from(children, from, parent),
    ensures
        ({
            let d = descend_from(children, from, parent, w.visited);
            let o = run(w, d.probes);
            &&& answered(w, d.probes)
            &&& o.entries == d.entries
            &&& o.walker == WalkerView {
                visited: d.visited,
                pending: rest,
                skipped: w.skipped + d.skipped,
            }
        }),
    decreases children, children.len() - from,
{
    if from >= children.len() {
        assert(listed_names(children).skip(from as int) =~= Seq::<Seq<u8>>::empty());
        assert(Seq::<Seq<u8>>::empty().filter(|n: Seq<u8>| is_entry_name(n)) =~= Seq::empty())
            by {
            reveal(Seq::filter);
        }
        assert(queued_from(children, from, parent) =~= Seq::<PendingView>::empty());
        assert(w.pending =~= rest);
        assert(w.skipped + Seq::<SkippedView>::empty() =~= w.skipped);
    } else {
        let name = children[from as int].0;
        lemma_queue_unfolds(children, from, parent);
        let later = queued_from(children, from + 1, parent);
        if is_entry_name(name) {
            let place = child_of(parent, name);
            assert(w.pending =~= (rest + later).push(place));
            assert(w.pending.last() == place);
            assert(w.pending.drop_last() =~= rest + later);
            lemma_descent_on_stack(children[from as int].1, w);
            let head = descend(children[from as int].1, place, w.visited);
            let mid = run(w, head.probes).walker;
            lemma_children_on_stack(children, from + 1, parent, rest, mid);
            let tail = descend_from(children, from + 1, parent, head.visited);
            lemma_run_in_two(w, head.probes, tail.probes);
            assert(mid.skipped + tail.skipped =~= w.skipped + (head.skipped + tail.skipped));
        } else {
            lemma_children_on_stack(children, from + 1, parent, rest, w);
        }
    }
}

/// The walker, told of each node what [`Tree`] holds there, archives `tree`
/// exactly as the plain descent does: the same entries in the same order,
/// the same nodes left out, every probe asked for, and nothing pending at
/// the end.
pub proof fn law_walk_matches_descent(tree: Tree, source: Seq<u8>)
    ensures
        ({
            let start = initial_walker(source);
            let d = descend(tree, start.pending.last(), Set::empty());
            let o = run(start, d.probes);
            &&& answered(start, d.probes)
            &&& o.entries == d.entries
            &&& o.walker.pending.len() == 0
            &&& o.walker.visited == d.visited
            &&& o.walker.skipped == d.skipped
        }),
{
    let start = initial_walker(source);
    lemma_descent_on_stack(tree, start);
    let d = descend(tree, start.pending.last(), Set::empty());
    assert(start.pending.drop_last() =~= Seq::<PendingView>::empty());
    assert(start.skipped + d.skipped =~= d.skipped);
}

} // verus!
