//! What holds of a whole traversal, whatever the file system answers.
//!
//! A traversal is a [`Walker`](crate::rollback::walk::Walker) stepped through
//! a sequence of probes. The statements here quantify over every such
//! sequence: they hold of a tree that changes under the walk and of one that
//! loops back on itself as much as of a quiet one.

use crate::path::{is_entry_name, join_spec, SEPARATOR};
use crate::rollback::walk::{
    child_of, children_of, initial_walker, root_name_spec, step_entry, step_walker, EntryView,
    PendingView, ProbeView, WalkerView,
};
use vstd::prelude::*;

verus! {

/// Where a traversal stands: the walker, and the entries written so far.
pub struct Outcome {
    pub walker: WalkerView,
    pub entries: Seq<EntryView>,
}

/// The traversal that starts at `start` and is told `probes`, one by one.
pub open spec fn run(start: WalkerView, probes: Seq<ProbeView>) -> Outcome
    decreases probes.len(),
{
    if probes.len() == 0 {
        Outcome { walker: start, entries: Seq::empty() }
    } else {
        let before = run(start, probes.drop_last());
        Outcome {
            walker: step_walker(before.walker, probes.last()),
            entries: match step_entry(before.walker, probes.last()) {
                Some(entry) => before.entries.push(entry),
                None => before.entries,
            },
        }
    }
}

/// Whether each of `probes` answered a node that was pending: the traversal
/// was not told more than it asked.
pub open spec fn answered(start: WalkerView, probes: Seq<ProbeView>) -> bool
    decreases probes.len(),
{
    probes.len() == 0 || (answered(start, probes.drop_last()) && run(
        start,
        probes.drop_last(),
    ).walker.pending.len() > 0)
}

/// Whether `path` is the root name or lies below it.
pub open spec fn under_root(path: Seq<u8>) -> bool {
    let root = root_name_spec();
    path == root || (path.len() > root.len() && path.subrange(0, root.len() as int) == root
        && path[root.len() as int] == SEPARATOR)
}

/// A name adjoined to a path under the root gives a path under the root.
pub proof fn lemma_child_under_root(path: Seq<u8>, name: Seq<u8>)
    requires
        under_root(path),
        is_entry_name(name),
    ensures
        under_root(join_spec(path, name)),
{
    let root = root_name_spec();
    let joined = join_spec(path, name);
    assert(root.len() == 6);
    assert(root[5] == 120u8);
    if path == root {
        assert(joined =~= root + seq![SEPARATOR] + name);
        assert(joined.subrange(0, root.len() as int) =~= root);
    } else {
        assert(joined.len() > root.len());
        assert(joined.subrange(0, root.len() as int) =~= path.subrange(0, root.len() as int));
    }
}

/// Whether every pending node and every entry written lies under the root.
pub open spec fn rooted(o: Outcome) -> bool {
    &&& forall|i: int| 0 <= i < o.walker.pending.len() ==> under_root(#[trigger] o.walker.pending[i].path)
    &&& forall|i: int| 0 <= i < o.entries.len() ==> under_root(#[trigger] o.entries[i].path)
}

/// Each queued child of a node under the root lies under the root.
proof fn lemma_children_under_root(parent: PendingView, names: Seq<Seq<u8>>)
    requires
        under_root(parent.path),
    ensures
        forall|i: int|
            0 <= i < children_of(parent, names).len() ==> under_root(
                #[trigger] children_of(parent, names)[i].path,
            ),
{
    let keep = |n: Seq<u8>| is_entry_name(n);
    let kept = names.filter(keep);
    assert forall|i: int| 0 <= i < children_of(parent, names).len() implies under_root(
        #[trigger] children_of(parent, names)[i].path,
    ) by {
        names.lemma_filter_pred(keep, i);
        assert(keep(kept[i]));
        assert(children_of(parent, names)[i] == child_of(parent, kept[i]));
        lemma_child_under_root(parent.path, kept[i]);
    }
}

/// One step keeps a traversal under the root.
proof fn lemma_step_rooted(o: Outcome, probe: ProbeView)
    requires
        rooted(o),
    ensures
        rooted(
            Outcome {
                walker: step_walker(o.walker, probe),
                entries: match step_entry(o.walker, probe) {
                    Some(entry) => o.entries.push(entry),
                    None => o.entries,
                },
            },
        ),
{
    let w = o.walker;
    let next = step_walker(w, probe);
    if w.pending.len() > 0 {
        let cur = w.pending.last();
        assert(under_root(cur.path));
        match probe {
            ProbeView::Directory { inode, children: Some(names) } => {
                if !w.visited.contains(inode) {
                    lemma_children_under_root(cur, names);
                    let kids = children_of(cur, names).reverse();
                    assert forall|i: int| 0 <= i < next.pending.len() implies under_root(
                        #[trigger] next.pending[i].path,
                    ) by {
                        if i < w.pending.len() - 1 {
                            assert(next.pending[i] == w.pending[i]);
                        } else {
                            let k = i - (w.pending.len() - 1);
                            assert(next.pending[i] == kids[k]);
                            assert(kids[k] == children_of(cur, names)[kids.len() - 1 - k]);
                        }
                    }
                } else {
                    assert forall|i: int| 0 <= i < next.pending.len() implies under_root(
                        #[trigger] next.pending[i].path,
                    ) by {
                        assert(next.pending[i] == w.pending[i]);
                    }
                }
            },
            _ => {
                assert forall|i: int| 0 <= i < next.pending.len() implies under_root(
                    #[trigger] next.pending[i].path,
                ) by {
                    assert(next.pending[i] == w.pending[i]);
                }
            },
        }
    }
}

/// Every entry of an archive lies under the one root name, whatever the
/// archived directory is called and whatever the file system answers.
pub proof fn law_entries_under_root(source: Seq<u8>, probes: Seq<ProbeView>)
    ensures
        rooted(run(initial_walker(source), probes)),
    decreases probes.len(),
{
    if probes.len() > 0 {
        law_entries_under_root(source, probes.drop_last());
        lemma_step_rooted(run(initial_walker(source), probes.drop_last()), probes.last());
    }
}

/// The directory entries among `entries`.
pub open spec fn directories(entries: Seq<EntryView>) -> Seq<EntryView> {
    entries.filter(|e: EntryView| e.kind is Directory)
}

/// Whether `probe` reports a directory with the identifier `inode`.
pub open spec fn reports_directory(probe: ProbeView, inode: u64) -> bool {
    match probe {
        ProbeView::Directory { inode: found, .. } => found == inode,
        _ => false,
    }
}

/// The identifiers of the directories that `probes` report.
pub open spec fn probed_inodes(probes: Seq<ProbeView>) -> Set<u64> {
    Set::new(
        |inode: u64|
            exists|k: int| 0 <= k < probes.len() && reports_directory(#[trigger] probes[k], inode),
    )
}

/// One more probe adds its directory's identifier, if it reports one.
proof fn lemma_probed_inodes_push(probes: Seq<ProbeView>, probe: ProbeView)
    ensures
        probed_inodes(probes.push(probe)) == match probe {
            ProbeView::Directory { inode, .. } => probed_inodes(probes).insert(inode),
            _ => probed_inodes(probes),
        },
{
    let more = probes.push(probe);
    let expected = match probe {
        ProbeView::Directory { inode, .. } => probed_inodes(probes).insert(inode),
        _ => probed_inodes(probes),
    };
    assert forall|inode: u64| probed_inodes(more).contains(inode) implies expected.contains(
        inode,
    ) by {
        let k = choose|k: int| 0 <= k < more.len() && reports_directory(#[trigger] more[k], inode);
        if k < probes.len() {
            assert(more[k] == probes[k]);
            assert(probed_inodes(probes).contains(inode));
        }
    }
    assert forall|inode: u64| expected.contains(inode) implies probed_inodes(more).contains(
        inode,
    ) by {
        if probed_inodes(probes).contains(inode) {
            let k = choose|k: int|
                0 <= k < probes.len() && reports_directory(#[trigger] probes[k], inode);
            assert(more[k] == probes[k]);
        } else {
            assert(more[probes.len() as int] == probe);
            assert(reports_directory(more[probes.len() as int], inode));
        }
    }
    assert(probed_inodes(more) =~= expected);
}

/// Cycle safety, first part: a traversal writes exactly one directory entry
/// for each distinct directory identifier it meets. A directory reached a
/// second time, by a hard link, a bind mount or a loop, adds nothing.
pub proof fn law_one_entry_per_directory(source: Seq<u8>, probes: Seq<ProbeView>)
    requires
        answered(initial_walker(source), probes),
    ensures
        run(initial_walker(source), probes).walker.visited == probed_inodes(probes),
        probed_inodes(probes).finite(),
        directories(run(initial_walker(source), probes).entries).len() == probed_inodes(
            probes,
        ).len(),
    decreases probes.len(),
{
    let start = initial_walker(source);
    let is_dir = |e: EntryView| e.kind is Directory;
    if probes.len() == 0 {
        assert(probed_inodes(probes) =~= Set::<u64>::empty());
        assert(Seq::<EntryView>::empty().filter(is_dir) =~= Seq::empty()) by {
            reveal(Seq::filter);
        }
    } else {
        let earlier = probes.drop_last();
        let probe = probes.last();
        law_one_entry_per_directory(source, earlier);
        lemma_probed_inodes_push(earlier, probe);
        assert(earlier.push(probe) =~= probes);
        let before = run(start, earlier);
        let w = before.walker;
        match step_entry(w, probe) {
            Some(entry) => {
                before.entries.lemma_filter_push(entry, is_dir);
            },
            None => {},
        }
        match probe {
            ProbeView::Directory { inode, children } => {
                if w.visited.contains(inode) {
                    assert(w.visited.insert(inode) =~= w.visited);
                }
            },
            _ => {},
        }
    }
}

/// Whether no listing among `probes` holds more than `width` names.
pub open spec fn listings_within(probes: Seq<ProbeView>, width: nat) -> bool {
    forall|k: int|
        0 <= k < probes.len() ==> match #[trigger] probes[k] {
            ProbeView::Directory { children: Some(names), .. } => names.len() <= width,
            _ => true,
        }
}

/// Each look either uses up a pending node or pays for the children it
/// queues with a directory identifier not met before.
pub proof fn lemma_looks_are_paid_for(source: Seq<u8>, probes: Seq<ProbeView>, width: nat)
    requires
        answered(initial_walker(source), probes),
        listings_within(probes, width),
    ensures
        run(initial_walker(source), probes).walker.visited.finite(),
        probes.len() + run(initial_walker(source), probes).walker.pending.len() <= 1 + width
            * run(initial_walker(source), probes).walker.visited.len(),
    decreases probes.len(),
{
    let start = initial_walker(source);
    if probes.len() > 0 {
        let earlier = probes.drop_last();
        let probe = probes.last();
        assert forall|k: int| 0 <= k < earlier.len() implies match #[trigger] earlier[k] {
            ProbeView::Directory { children: Some(names), .. } => names.len() <= width,
            _ => true,
        } by {
            assert(earlier[k] == probes[k]);
        }
        lemma_looks_are_paid_for(source, earlier, width);
        let w = run(start, earlier).walker;
        let next = step_walker(w, probe);
        assert(probe == probes[probes.len() - 1]);
        match probe {
            ProbeView::Directory { inode, children } => {
                if !w.visited.contains(inode) {
                    assert(next.visited.len() == w.visited.len() + 1);
                    assert(width * (w.visited.len() + 1) == width * w.visited.len() + width)
                        by (nonlinear_arith);
                    match children {
                        Some(names) => {
                            names.lemma_filter_len(|n: Seq<u8>| is_entry_name(n));
                            assert(children_of(w.pending.last(), names).len() <= names.len());
                        },
                        None => {},
                    }
                }
            },
            _ => {},
        }
    }
}

/// Cycle safety, second part: a traversal ends. Over a tree that has no more
/// directory identifiers than `universe` holds, with no listing longer than
/// `width`, it takes at most `1 + width * |universe|` looks, however the
/// directories are linked into one another.
pub proof fn law_traversal_ends(
    source: Seq<u8>,
    probes: Seq<ProbeView>,
    width: nat,
    universe: Set<u64>,
)
    requires
        answered(initial_walker(source), probes),
        listings_within(probes, width),
        universe.finite(),
        probed_inodes(probes).subset_of(universe),
    ensures
        probes.len() <= 1 + width * universe.len(),
{
    lemma_looks_are_paid_for(source, probes, width);
    law_one_entry_per_directory(source, probes);
    vstd::set_lib::lemma_len_subset(probed_inodes(probes), universe);
    let met = probed_inodes(probes).len();
    let all = universe.len();
    assert(width * met <= width * all) by (nonlinear_arith)
        requires
            met <= all,
    ;
}

} // verus!
