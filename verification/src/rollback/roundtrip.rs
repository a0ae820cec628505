//! A snapshot followed by its restoration.

use crate::rollback::contents::{intact, law_intact_tree_is_archived_whole, nodes, unrepeated};
use crate::rollback::effect::{consistent, law_restore_is_exact, restored, Node, World};
use crate::rollback::restore::Step;
use crate::rollback::traversal::run;
use crate::rollback::tree::{descend, Tree};
use crate::rollback::walk::{initial_walker, EntryView};
use vstd::prelude::*;

verus! {

/// What the file system holds at a place: the bytes of a file, and the
/// permission bits.
pub struct Held {
    pub content: Seq<u8>,
    pub mode: u32,
}

/// The tree that an archive made of `entries` holds, where `held` says what
/// lay at each source when its entry was written. Each entry stands at its
/// path with its kind, a symlink with its target, and with the bytes and
/// permission bits of its source; of two entries with one path the later
/// stands.
pub open spec fn stored(entries: Seq<EntryView>, held: spec_fn(Seq<u8>) -> Held) -> Map<
    Seq<u8>,
    Node,
>
    decreases entries.len(),
{
    if entries.len() == 0 {
        Map::empty()
    } else {
        let last = entries.last();
        stored(entries.drop_last(), held).insert(
            last.path,
            Node {
                kind: last.kind,
                content: held(last.source).content,
                mode: held(last.source).mode,
            },
        )
    }
}

/// Round trip: a tree in which nothing fails and no directory identifier
/// occurs twice is archived, and the archive is restored with nothing stray
/// beside the destination. The destination then holds every node of the
/// tree at its place, with its kind, its link target, its bytes and its
/// permission bits, and nothing else, whatever it held before.
pub proof fn law_round_trip(tree: Tree, source: Seq<u8>, held: spec_fn(Seq<u8>) -> Held, w: World)
    requires
        intact(tree),
        unrepeated(tree),
        consistent(w),
        w.in_place || w.staged is None,
        w.archive == Some(
            stored(
                run(
                    initial_walker(source),
                    descend(tree, initial_walker(source).pending.last(), Set::empty()).probes,
                ).entries,
                held,
            ),
        ),
    ensures
        restored(w).step == Step::Done,
        restored(w).world.destination == Some(
            stored(nodes(tree, initial_walker(source).pending.last()), held),
        ),
{
    law_intact_tree_is_archived_whole(tree, source);
    law_restore_is_exact(w);
}

} // verus!
