//! What a restoration does, stated over a model of the file system.
//!
//! The model holds the three places a restoration touches: the archive, the
//! destination, and the place beside the destination where the archive
//! unpacks its tree under the root name. Each step of
//! [`restore`](crate::rollback::restore) is given its meaning on this model,
//! and the statements below follow the steps in the order that
//! [`next_step`](crate::rollback::restore::next_step) fixes.

use crate::rollback::restore::{is_final, next_step, Report, RestoreError, Step};
use crate::rollback::walk::EntryKindView;
use vstd::prelude::*;

verus! {

/// What lies at one path of a tree.
pub struct Node {
    pub kind: EntryKindView,
    /// The bytes of a regular file.
    pub content: Seq<u8>,
    /// The permission bits.
    pub mode: u32,
}

/// The places that a restoration touches.
pub struct World {
    /// The tree that the archive holds under its root name, or `None` where
    /// the archive cannot be read.
    pub archive: Option<Map<Seq<u8>, Node>>,
    /// The tree at the destination, or `None` where nothing is there.
    pub destination: Option<Map<Seq<u8>, Node>>,
    /// The tree under the root name beside the destination, or `None` where
    /// nothing is there.
    pub staged: Option<Map<Seq<u8>, Node>>,
    /// Whether the destination itself bears the root name, so that the
    /// archive unpacks straight into it.
    pub in_place: bool,
}

/// Whether the model is consistent: where the archive unpacks in place, the
/// staged tree is the destination.
pub open spec fn consistent(w: World) -> bool {
    w.in_place ==> w.staged == w.destination
}

/// The tree `over` laid over the tree `under`: a path that both hold keeps
/// what `over` has there.
pub open spec fn overlay(under: Map<Seq<u8>, Node>, over: Map<Seq<u8>, Node>) -> Map<
    Seq<u8>,
    Node,
> {
    under.union_prefer_right(over)
}

/// The tree at a place, an absent place counting as an empty one.
pub open spec fn tree_at(place: Option<Map<Seq<u8>, Node>>) -> Map<Seq<u8>, Node> {
    match place {
        Some(tree) => tree,
        None => Map::empty(),
    }
}

/// What `step` reports when it is carried out in `w` and nothing goes wrong
/// but what `w` itself holds: an unreadable archive.
pub open spec fn report_of(w: World, step: Step) -> Report {
    match step {
        Step::OpenArchive => if w.archive is Some {
            Report::Succeeded
        } else {
            Report::Failed
        },
        Step::ProbeDestination | Step::ProbePlace => Report::Exists(w.destination is Some),
        Step::ProbeStaged => Report::Staged { exists: w.staged is Some, in_place: w.in_place },
        _ => Report::Succeeded,
    }
}

/// The world after `step` was carried out in `w`.
pub open spec fn effect(w: World, step: Step) -> World {
    match step {
        Step::RemoveDestination | Step::ClearPlace => World {
            destination: None,
            staged: if w.in_place {
                None
            } else {
                w.staged
            },
            ..w
        },
        Step::CreateDestination => World {
            destination: Some(tree_at(w.destination)),
            staged: if w.in_place {
                Some(tree_at(w.destination))
            } else {
                w.staged
            },
            ..w
        },
        Step::Unpack => {
            let unpacked = overlay(tree_at(w.staged), tree_at(w.archive));
            World {
                destination: if w.in_place {
                    Some(unpacked)
                } else {
                    w.destination
                },
                staged: Some(unpacked),
                ..w
            }
        },
        Step::Rename => World { destination: w.staged, staged: None, ..w },
        _ => w,
    }
}

/// Where a restoration stands.
pub struct Progress {
    pub world: World,
    pub step: Step,
}

/// The restoration that stands at `step` in `w`, carried on for at most
/// `budget` steps.
pub open spec fn carry_on(w: World, step: Step, budget: nat) -> Progress
    decreases budget,
{
    if budget == 0 || is_final(step) {
        Progress { world: w, step }
    } else {
        carry_on(effect(w, step), next_step(step, report_of(w, step)), (budget - 1) as nat)
    }
}

/// A whole restoration in `w`. No restoration takes more than nine steps.
pub open spec fn restored(w: World) -> Progress {
    carry_on(w, Step::OpenArchive, 9)
}

/// What the staging place holds before the archive is unpacked into it:
/// nothing where the archive unpacks in place, since the destination was
/// emptied; else whatever lay there.
pub open spec fn staging_base(w: World) -> Map<Seq<u8>, Node> {
    if w.in_place {
        Map::empty()
    } else {
        tree_at(w.staged)
    }
}

/// An archive that cannot be read costs nothing: the restoration fails
/// before any step has changed the file system.
pub proof fn law_unreadable_archive_costs_nothing(w: World)
    requires
        w.archive is None,
    ensures
        restored(w).step == Step::Failed(RestoreError::ArchiveUnreadable),
        restored(w).world == w,
{
    reveal_with_fuel(carry_on, 3);
}

/// A restoration of a readable archive in which every step succeeds ends in
/// [`Step::Done`], and the destination then holds the archive's tree laid
/// over what the staging place held.
pub proof fn law_restore_puts_archive_in_place(w: World)
    requires
        consistent(w),
        w.archive is Some,
    ensures
        restored(w).step == Step::Done,
        restored(w).world.destination == Some(overlay(staging_base(w), w.archive.unwrap())),
        consistent(restored(w).world),
        restored(w).world.archive == w.archive,
        restored(w).world.in_place == w.in_place,
        !w.in_place ==> restored(w).world.staged is None,
{
    reveal_with_fuel(carry_on, 10);
    let a = w.archive.unwrap();
    if w.in_place {
        assert(overlay(tree_at(Some(Map::<Seq<u8>, Node>::empty())), a) =~= overlay(
            Map::empty(),
            a,
        ));
    }
}

/// Destructive restore: nothing that only the old destination held is left.
/// Every path at the destination afterwards comes from the archive or from
/// the staging place, and two worlds that differ only in what the
/// destination held end with the same destination.
pub proof fn law_restore_is_destructive(w: World, other: World)
    requires
        consistent(w),
        consistent(other),
        w.archive is Some,
        other.archive == w.archive,
        other.in_place == w.in_place,
        !w.in_place ==> other.staged == w.staged,
    ensures
        restored(w).world.destination == restored(other).world.destination,
        forall|path: Seq<u8>| #[trigger]
            tree_at(restored(w).world.destination).dom().contains(path)
                ==> w.archive.unwrap().dom().contains(path) || staging_base(w).dom().contains(
                path,
            ),
{
    law_restore_puts_archive_in_place(w);
    law_restore_puts_archive_in_place(other);
}

/// Exact restore: with nothing stray at the staging place, the destination
/// ends up holding the archive's tree and nothing else.
pub proof fn law_restore_is_exact(w: World)
    requires
        consistent(w),
        w.archive is Some,
        w.in_place || w.staged is None,
    ensures
        restored(w).step == Step::Done,
        restored(w).world.destination == w.archive,
{
    law_restore_puts_archive_in_place(w);
    assert(overlay(Map::empty(), w.archive.unwrap()) =~= w.archive.unwrap());
}

/// Idempotent replace: restoring the same archive to the same destination
/// twice in a row gives the same tree both times, with nothing of the first
/// run left to see in the second.
pub proof fn law_restore_twice(w: World)
    requires
        consistent(w),
        w.archive is Some,
        w.in_place || w.staged is None,
    ensures
        restored(restored(w).world).step == Step::Done,
        restored(restored(w).world).world.destination == restored(w).world.destination,
        restored(restored(w).world).world.destination == w.archive,
{
    law_restore_puts_archive_in_place(w);
    law_restore_is_exact(w);
    law_restore_is_exact(restored(w).world);
}

} // verus!
