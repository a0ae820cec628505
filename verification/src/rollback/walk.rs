//! The traversal that feeds an archive.
//!
//! A [`Walker`] holds the nodes that still await a look and the directory
//! identifiers already archived. The caller looks at the node that
//! [`Walker::current`] names, without following a symlink in its last
//! component, and reports what it found as a [`Probe`]. [`Walker::step`] then
//! says which entry, if any, goes into the archive, and queues the children of
//! a directory seen for the first time. Nothing here touches the file system.

use crate::path::{check_entry_name, copy_bytes, is_entry_name, join, join_spec};
use std::collections::HashSet;
use vstd::prelude::*;

verus! {

broadcast use vstd::std_specs::hash::group_hash_axioms;

/// The name of the directory under which every archive holds its tree,
/// whatever the archived directory itself is called: `prefix`.
pub open spec fn root_name_spec() -> Seq<u8> {
    seq![112u8, 114u8, 101u8, 102u8, 105u8, 120u8]
}

/// The root name as bytes.
pub fn root_name() -> (name: Vec<u8>)
    ensures
        name@ == root_name_spec(),
{
    let name: Vec<u8> = vec![112u8, 114u8, 101u8, 102u8, 105u8, 120u8];
    proof {
        assert(name@ =~= root_name_spec());
    }
    name
}

/// A node that awaits a look.
#[derive(Debug)]
pub struct Pending {
    /// Where the node lies in the file system.
    pub source: Vec<u8>,
    /// Where its entry goes in the archive.
    pub path: Vec<u8>,
}

/// The mathematical value of a [`Pending`].
pub struct PendingView {
    pub source: Seq<u8>,
    pub path: Seq<u8>,
}

impl View for Pending {
    type V = PendingView;

    open spec fn view(&self) -> PendingView {
        PendingView { source: self.source@, path: self.path@ }
    }
}

/// What a look at a node found.
#[derive(Debug)]
pub enum Probe {
    /// Its metadata could not be read: it vanished, or access was denied.
    Missing,
    /// A symlink, with the text it points to, or `None` where the link could
    /// not be read.
    Symlink { target: Option<Vec<u8>> },
    /// A directory, with its identifier and the names it lists in the order
    /// of enumeration, or `None` where it could not be listed.
    Directory { inode: u64, children: Option<Vec<Vec<u8>>> },
    /// A regular file, and whether it can be opened for reading.
    File { readable: bool },
    /// Anything else: a socket, a pipe, a device.
    Other,
}

/// The mathematical value of a [`Probe`].
pub enum ProbeView {
    Missing,
    Symlink { target: Option<Seq<u8>> },
    Directory { inode: u64, children: Option<Seq<Seq<u8>>> },
    File { readable: bool },
    Other,
}

/// The byte strings that a vector of names holds.
pub open spec fn names_view(names: Seq<Vec<u8>>) -> Seq<Seq<u8>> {
    names.map_values(|n: Vec<u8>| n@)
}

impl View for Probe {
    type V = ProbeView;

    open spec fn view(&self) -> ProbeView {
        match *self {
            Probe::Missing => ProbeView::Missing,
            Probe::Symlink { target: None } => ProbeView::Symlink { target: None },
            Probe::Symlink { target: Some(t) } => ProbeView::Symlink { target: Some(t@) },
            Probe::Directory { inode, children: None } => ProbeView::Directory {
                inode,
                children: None,
            },
            Probe::Directory { inode, children: Some(names) } => ProbeView::Directory {
                inode,
                children: Some(names_view(names@)),
            },
            Probe::File { readable } => ProbeView::File { readable },
            Probe::Other => ProbeView::Other,
        }
    }
}

/// What kind of node an archive entry records.
#[derive(Debug)]
pub enum EntryKind {
    Directory,
    File,
    /// A symlink and the text it points to, kept as it was read.
    Symlink { target: Vec<u8> },
}

/// The mathematical value of an [`EntryKind`].
pub enum EntryKindView {
    Directory,
    File,
    Symlink { target: Seq<u8> },
}

impl View for EntryKind {
    type V = EntryKindView;

    open spec fn view(&self) -> EntryKindView {
        match *self {
            EntryKind::Directory => EntryKindView::Directory,
            EntryKind::File => EntryKindView::File,
            EntryKind::Symlink { target } => EntryKindView::Symlink { target: target@ },
        }
    }
}

/// One node to write into the archive.
#[derive(Debug)]
pub struct Entry {
    /// Where the node lies in the file system.
    pub source: Vec<u8>,
    /// Its path in the archive.
    pub path: Vec<u8>,
    pub kind: EntryKind,
}

/// The mathematical value of an [`Entry`].
pub struct EntryView {
    pub source: Seq<u8>,
    pub path: Seq<u8>,
    pub kind: EntryKindView,
}

impl View for Entry {
    type V = EntryView;

    open spec fn view(&self) -> EntryView {
        EntryView { source: self.source@, path: self.path@, kind: self.kind@ }
    }
}

/// The value of an entry that may be absent.
pub open spec fn entry_view(entry: Option<Entry>) -> Option<EntryView> {
    match entry {
        Some(e) => Some(e@),
        None => None,
    }
}

/// Why a node was left out of the archive.
#[derive(Debug, Clone, Copy, PartialEq, Eq, Structural)]
pub enum SkipReason {
    /// The node's metadata could not be read.
    Unreadable,
    /// The symlink's target could not be read.
    LinkUnreadable,
    /// The directory could not be listed; its own entry is archived.
    ListingUnreadable,
    /// The file could not be opened.
    FileUnreadable,
    /// The node is neither directory, file nor symlink.
    Unsupported,
    /// A listed name is empty, `.`, `..` or holds a separator.
    InvalidName,
    /// The archive refused the entry when it was written.
    WriteFailed,
}

/// A node that was left out, and why.
#[derive(Debug)]
pub struct Skipped {
    /// The node's place in the file system; for
    /// [`SkipReason::InvalidName`] the name as it was listed.
    pub source: Vec<u8>,
    pub reason: SkipReason,
}

/// The mathematical value of a [`Skipped`].
pub struct SkippedView {
    pub source: Seq<u8>,
    pub reason: SkipReason,
}

impl View for Skipped {
    type V = SkippedView;

    open spec fn view(&self) -> SkippedView {
        SkippedView { source: self.source@, reason: self.reason }
    }
}

/// The mathematical value of a [`Walker`].
pub struct WalkerView {
    /// The identifiers of the directories archived so far.
    pub visited: Set<u64>,
    /// The nodes that await a look; the last one is looked at next.
    pub pending: Seq<PendingView>,
    /// The nodes left out so far, in the order in which they were met.
    pub skipped: Seq<SkippedView>,
}

/// The values of the nodes that a vector holds.
pub open spec fn pending_view(pending: Seq<Pending>) -> Seq<PendingView> {
    pending.map_values(|p: Pending| p@)
}

/// The values of the skips that a vector holds.
pub open spec fn skipped_view(skipped: Seq<Skipped>) -> Seq<SkippedView> {
    skipped.map_values(|s: Skipped| s@)
}

/// The child called `name` of the directory `parent`.
pub open spec fn child_of(parent: PendingView, name: Seq<u8>) -> PendingView {
    PendingView {
        source: join_spec(parent.source, name),
        path: join_spec(parent.path, name),
    }
}

/// The children of `parent` that are queued for a look, in the order of
/// enumeration: those of `names` that are names of entries.
pub open spec fn children_of(parent: PendingView, names: Seq<Seq<u8>>) -> Seq<PendingView> {
    names.filter(|n: Seq<u8>| is_entry_name(n)).map_values(|n: Seq<u8>| child_of(parent, n))
}

/// The skips recorded for the names of a listing that are no names of
/// entries, in the order of enumeration.
pub open spec fn rejected_of(names: Seq<Seq<u8>>) -> Seq<SkippedView> {
    names.filter(|n: Seq<u8>| !is_entry_name(n)).map_values(
        |n: Seq<u8>| SkippedView { source: n, reason: SkipReason::InvalidName },
    )
}

/// The walker `w` with its current node taken off and `skip` recorded.
pub open spec fn skip_current(w: WalkerView, reason: SkipReason) -> WalkerView {
    WalkerView {
        visited: w.visited,
        pending: w.pending.drop_last(),
        skipped: w.skipped.push(
            SkippedView { source: w.pending.last().source, reason },
        ),
    }
}

/// The walker `w` with its current node taken off.
pub open spec fn drop_current(w: WalkerView) -> WalkerView {
    WalkerView { visited: w.visited, pending: w.pending.drop_last(), skipped: w.skipped }
}

/// The entry of kind `kind` for the current node of `w`.
pub open spec fn entry_of_current(w: WalkerView, kind: EntryKindView) -> EntryView {
    EntryView { source: w.pending.last().source, path: w.pending.last().path, kind }
}

/// The walker after `probe` was reported for its current node.
///
/// A walker with nothing pending stays as it is. Otherwise the current node
/// leaves the queue. A directory whose identifier was seen before changes
/// nothing else; a new one is remembered, and its children are queued so that
/// the first listed is looked at first, before anything queued earlier.
pub open spec fn step_walker(w: WalkerView, probe: ProbeView) -> WalkerView {
    if w.pending.len() == 0 {
        w
    } else {
        match probe {
            ProbeView::Missing => skip_current(w, SkipReason::Unreadable),
            ProbeView::Symlink { target: None } => skip_current(w, SkipReason::LinkUnreadable),
            ProbeView::Symlink { target: Some(_) } => drop_current(w),
            ProbeView::Directory { inode, children } => {
                if w.visited.contains(inode) {
                    drop_current(w)
                } else {
                    match children {
                        None => WalkerView {
                            visited: w.visited.insert(inode),
                            ..skip_current(w, SkipReason::ListingUnreadable)
                        },
                        Some(names) => WalkerView {
                            visited: w.visited.insert(inode),
                            pending: w.pending.drop_last() + children_of(
                                w.pending.last(),
                                names,
                            ).reverse(),
                            skipped: w.skipped + rejected_of(names),
                        },
                    }
                }
            },
            ProbeView::File { readable: false } => skip_current(w, SkipReason::FileUnreadable),
            ProbeView::File { readable: true } => drop_current(w),
            ProbeView::Other => skip_current(w, SkipReason::Unsupported),
        }
    }
}

/// The entry that goes into the archive when `probe` is reported for the
/// current node of `w`: one for a symlink whose target was read, for a
/// directory not seen before and for a file that can be opened, none
/// otherwise.
pub open spec fn step_entry(w: WalkerView, probe: ProbeView) -> Option<EntryView> {
    if w.pending.len() == 0 {
        None
    } else {
        match probe {
            ProbeView::Symlink { target: Some(t) } => Some(
                entry_of_current(w, EntryKindView::Symlink { target: t }),
            ),
            ProbeView::Directory { inode, children } => {
                if w.visited.contains(inode) {
                    None
                } else {
                    Some(entry_of_current(w, EntryKindView::Directory))
                }
            },
            ProbeView::File { readable: true } => Some(entry_of_current(w, EntryKindView::File)),
            _ => None,
        }
    }
}

/// The walker at the start of a traversal of `source`: nothing visited,
/// nothing skipped, and the directory itself awaiting a look, to be archived
/// under the root name.
pub open spec fn initial_walker(source: Seq<u8>) -> WalkerView {
    WalkerView {
        visited: Set::empty(),
        pending: seq![PendingView { source, path: root_name_spec() }],
        skipped: Seq::empty(),
    }
}

/// The state of one traversal.
pub struct Walker {
    visited: HashSet<u64>,
    pending: Vec<Pending>,
    skipped: Vec<Skipped>,
}

impl View for Walker {
    type V = WalkerView;

    closed spec fn view(&self) -> WalkerView {
        WalkerView {
            visited: self.visited@,
            pending: pending_view(self.pending@),
            skipped: skipped_view(self.skipped@),
        }
    }
}

/// Queuing one more listed name extends the children, or the rejected names,
/// by that name.
proof fn lemma_listing_push(parent: PendingView, names: Seq<Seq<u8>>, name: Seq<u8>)
    ensures
        is_entry_name(name) ==> children_of(parent, names.push(name)) == children_of(
            parent,
            names,
        ).push(child_of(parent, name)) && rejected_of(names.push(name)) == rejected_of(names),
        !is_entry_name(name) ==> children_of(parent, names.push(name)) == children_of(
            parent,
            names,
        ) && rejected_of(names.push(name)) == rejected_of(names).push(
            SkippedView { source: name, reason: SkipReason::InvalidName },
        ),
{
    let keep = |n: Seq<u8>| is_entry_name(n);
    let reject = |n: Seq<u8>| !is_entry_name(n);
    names.lemma_filter_push(name, keep);
    names.lemma_filter_push(name, reject);
    let to_child = |n: Seq<u8>| child_of(parent, n);
    let to_skip = |n: Seq<u8>| SkippedView { source: n, reason: SkipReason::InvalidName };
    if is_entry_name(name) {
        assert(names.filter(keep).push(name).map_values(to_child) =~= names.filter(
            keep,
        ).map_values(to_child).push(child_of(parent, name)));
    } else {
        assert(names.filter(reject).push(name).map_values(to_skip) =~= names.filter(
            reject,
        ).map_values(to_skip).push(to_skip(name)));
    }
}

/// Queues the children that `names` lists under `parent`, the first listed on
/// top, and records the names that cannot be archived.
fn queue_children(
    pending: &mut Vec<Pending>,
    skipped: &mut Vec<Skipped>,
    parent: &Pending,
    names: Vec<Vec<u8>>,
)
    ensures
        pending_view(final(pending)@) == pending_view(old(pending)@) + children_of(
            parent@,
            names_view(names@),
        ).reverse(),
        skipped_view(final(skipped)@) == skipped_view(old(skipped)@) + rejected_of(
            names_view(names@),
        ),
{
    let ghost listed = names_view(names@);
    let ghost skipped_before = skipped_view(skipped@);
    let ghost pending_before = pending_view(pending@);
    let mut kids: Vec<Pending> = Vec::new();
    let mut i: usize = 0;
    proof {
        assert(listed.subrange(0, 0) =~= Seq::<Seq<u8>>::empty());
        assert(Seq::<Seq<u8>>::empty().filter(|n: Seq<u8>| is_entry_name(n)) =~= Seq::empty())
            by {
            reveal(Seq::filter);
        }
        assert(Seq::<Seq<u8>>::empty().filter(|n: Seq<u8>| !is_entry_name(n)) =~= Seq::empty())
            by {
            reveal(Seq::filter);
        }
        assert(pending_view(kids@) =~= children_of(parent@, listed.subrange(0, 0)));
        assert(skipped_view(skipped@) =~= skipped_before + rejected_of(listed.subrange(0, 0)));
    }
    while i < names.len()
        invariant
            i <= names.len(),
            listed == names_view(names@),
            pending_view(kids@) == children_of(parent@, listed.subrange(0, i as int)),
            skipped_view(skipped@) == skipped_before + rejected_of(listed.subrange(0, i as int)),
        decreases names.len() - i,
    {
        let ghost kids_before = pending_view(kids@);
        let ghost skips_now = skipped_view(skipped@);
        proof {
            lemma_listing_push(parent@, listed.subrange(0, i as int), listed[i as int]);
            assert(listed.subrange(0, i + 1) =~= listed.subrange(0, i as int).push(
                listed[i as int],
            ));
        }
        let name: &Vec<u8> = &names[i];
        if check_entry_name(name.as_slice()) {
            let child = Pending {
                source: join(parent.source.as_slice(), name.as_slice()),
                path: join(parent.path.as_slice(), name.as_slice()),
            };
            kids.push(child);
            proof {
                assert(pending_view(kids@) =~= kids_before.push(child_of(parent@, name@)));
            }
        } else {
            let skip = Skipped { source: copy_bytes(name.as_slice()), reason: SkipReason::InvalidName };
            skipped.push(skip);
            proof {
                assert(skipped_view(skipped@) =~= skips_now.push(
                    SkippedView { source: name@, reason: SkipReason::InvalidName },
                ));
                assert(skipped_view(skipped@) =~= skipped_before + rejected_of(
                    listed.subrange(0, i + 1),
                ));
            }
        }
        i = i + 1;
    }
    proof {
        assert(listed.subrange(0, names.len() as int) =~= listed);
    }
    let ghost all_kids = pending_view(kids@);
    while kids.len() > 0
        invariant
            kids.len() <= all_kids.len(),
            pending_view(kids@) == all_kids.subrange(0, kids.len() as int),
            pending_view(pending@) == pending_before + all_kids.subrange(
                kids.len() as int,
                all_kids.len() as int,
            ).reverse(),
        decreases kids.len(),
    {
        let ghost n = kids.len() as int;
        let ghost queued = pending_view(pending@);
        let ghost kids_now = kids@;
        let kid = kids.pop().unwrap();
        pending.push(kid);
        proof {
            assert(pending_view(kids_now)[n - 1] == kids_now[n - 1]@);
            assert(all_kids.subrange(0, n)[n - 1] == all_kids[n - 1]);
            assert(kid@ == all_kids[n - 1]);
            assert(pending_view(kids@) =~= all_kids.subrange(0, n - 1));
            assert(pending_view(pending@) =~= queued.push(all_kids[n - 1]));
            assert(pending_view(pending@) =~= pending_before + all_kids.subrange(
                n - 1,
                all_kids.len() as int,
            ).reverse());
        }
    }
    proof {
        assert(all_kids.subrange(0, all_kids.len() as int) =~= all_kids);
    }
}

impl Walker {
    /// A walker at the start of a traversal of the directory `source`.
    pub fn new(source: &[u8]) -> (walker: Walker)
        ensures
            walker@ == initial_walker(source@),
    {
        let mut pending: Vec<Pending> = Vec::new();
        pending.push(Pending { source: copy_bytes(source), path: root_name() });
        let walker = Walker { visited: HashSet::new(), pending, skipped: Vec::new() };
        proof {
            assert(walker@.pending =~= initial_walker(source@).pending);
            assert(walker@.skipped =~= initial_walker(source@).skipped);
        }
        walker
    }

    /// The node to look at next, or `None` when the traversal is over.
    pub fn current(&self) -> (node: Option<&Pending>)
        ensures
            self@.pending.len() == 0 <==> node is None,
            node is Some ==> node.unwrap()@ == self@.pending.last(),
    {
        let n = self.pending.len();
        if n == 0 {
            None
        } else {
            Some(&self.pending[n - 1])
        }
    }

    /// Whether the traversal is over.
    pub fn is_done(&self) -> (done: bool)
        ensures
            done == (self@.pending.len() == 0),
    {
        self.pending.len() == 0
    }

    /// The nodes left out so far, in the order in which they were met.
    pub fn skipped(&self) -> (list: &Vec<Skipped>)
        ensures
            skipped_view(list@) == self@.skipped,
    {
        &self.skipped
    }

    /// Takes what a look at the current node found, and returns the entry to
    /// write into the archive, if the node gets one.
    pub fn step(&mut self, probe: Probe) -> (entry: Option<Entry>)
        ensures
            final(self)@ == step_walker(old(self)@, probe@),
            entry_view(entry) == step_entry(old(self)@, probe@),
    {
        let ghost before = self@;
        let ghost pending_before = self.pending@;
        let ghost skipped_before = self.skipped@;
        let cur = match self.pending.pop() {
            None => {
                return None;
            },
            Some(cur) => cur,
        };
        proof {
            let n = pending_before.len() as int;
            assert(pending_view(pending_before)[n - 1] == pending_before[n - 1]@);
            assert(cur@ == before.pending.last());
            assert(pending_view(self.pending@) =~= before.pending.drop_last());
        }
        match probe {
            Probe::Missing => {
                self.skipped.push(Skipped { source: cur.source, reason: SkipReason::Unreadable });
                proof {
                    assert(self@.skipped =~= skip_current(
                        before,
                        SkipReason::Unreadable,
                    ).skipped);
                }
                None
            },
            Probe::Symlink { target: None } => {
                self.skipped.push(
                    Skipped { source: cur.source, reason: SkipReason::LinkUnreadable },
                );
                proof {
                    assert(self@.skipped =~= skip_current(
                        before,
                        SkipReason::LinkUnreadable,
                    ).skipped);
                }
                None
            },
            Probe::Symlink { target: Some(target) } => {
                Some(Entry { source: cur.source, path: cur.path, kind: EntryKind::Symlink { target } })
            },
            Probe::Directory { inode, children } => {
                let ghost visited_before = self.visited@;
                if !self.visited.insert(inode) {
                    proof {
                        assert(self.visited@ =~= visited_before);
                    }
                    return None;
                }
                match children {
                    None => {
                        self.skipped.push(
                            Skipped {
                                source: copy_bytes(cur.source.as_slice()),
                                reason: SkipReason::ListingUnreadable,
                            },
                        );
                        proof {
                            assert(self@.skipped =~= skip_current(
                                before,
                                SkipReason::ListingUnreadable,
                            ).skipped);
                        }
                    },
                    Some(names) => {
                        queue_children(&mut self.pending, &mut self.skipped, &cur, names);
                    },
                }
                Some(Entry { source: cur.source, path: cur.path, kind: EntryKind::Directory })
            },
            Probe::File { readable } => {
                if readable {
                    Some(Entry { source: cur.source, path: cur.path, kind: EntryKind::File })
                } else {
                    self.skipped.push(
                        Skipped { source: cur.source, reason: SkipReason::FileUnreadable },
                    );
                    proof {
                        assert(self@.skipped =~= skip_current(
                            before,
                            SkipReason::FileUnreadable,
                        ).skipped);
                    }
                    None
                }
            },
            Probe::Other => {
                self.skipped.push(Skipped { source: cur.source, reason: SkipReason::Unsupported });
                proof {
                    assert(self@.skipped =~= skip_current(
                        before,
                        SkipReason::Unsupported,
                    ).skipped);
                }
                None
            },
        }
    }

    /// Records that the archive refused `entry` when it was written. The
    /// traversal goes on.
    pub fn note_write_failure(&mut self, entry: &Entry)
        ensures
            final(self)@ == (WalkerView {
                skipped: old(self)@.skipped.push(
                    SkippedView { source: entry@.source, reason: SkipReason::WriteFailed },
                ),
                ..old(self)@
            }),
    {
        let ghost before = self@;
        self.skipped.push(
            Skipped { source: copy_bytes(entry.source.as_slice()), reason: SkipReason::WriteFailed },
        );
        proof {
            assert(self@.skipped =~= before.skipped.push(
                SkippedView { source: entry@.source, reason: SkipReason::WriteFailed },
            ));
        }
    }
}

} // verus!
