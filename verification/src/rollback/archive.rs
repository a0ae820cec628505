//! Where a snapshot is kept.

use crate::path::{join, join_spec, push_bytes};
use vstd::prelude::*;
use vstd::string::StringSliceAdditionalSpecFns;

verus! {

/// The ending of an archive's file name: `.tar.zst`, a tar stream inside a
/// zstd stream.
pub open spec fn extension() -> Seq<u8> {
    seq![46u8, 116u8, 97u8, 114u8, 46u8, 122u8, 115u8, 116u8]
}

/// The file of the snapshot called `name` in the directory `dir`.
pub open spec fn archive_file_spec(dir: Seq<u8>, name: Seq<u8>) -> Seq<u8> {
    join_spec(dir, name + extension())
}

/// The file in which the snapshot called `name` is kept below
/// `snapshots_dir`. The place depends on nothing else: a second snapshot of
/// the same name goes to the same file and takes the place of the first.
pub fn archive_file(snapshots_dir: &[u8], name: &str) -> (file: Vec<u8>)
    ensures
        file@ == archive_file_spec(snapshots_dir@, name.spec_bytes()),
{
    let ending: [u8; 8] = [46u8, 116u8, 97u8, 114u8, 46u8, 122u8, 115u8, 116u8];
    let mut file_name: Vec<u8> = Vec::new();
    push_bytes(&mut file_name, name.as_bytes());
    push_bytes(&mut file_name, ending.as_slice());
    proof {
        assert(ending@ =~= extension());
        assert(file_name@ =~= name.spec_bytes() + extension());
    }
    join(snapshots_dir, file_name.as_slice())
}

/// A snapshots directory, as the files it holds and what each holds, after
/// the snapshot `name` with the contents `archive` was kept in it.
pub open spec fn kept<A>(store: Map<Seq<u8>, A>, dir: Seq<u8>, name: Seq<u8>, archive: A) -> Map<
    Seq<u8>,
    A,
> {
    store.insert(archive_file_spec(dir, name), archive)
}

/// Overwrite semantics: a second snapshot of the same name takes the place
/// of the first. Its file holds what the second snapshot archived and
/// nothing of the first, and no other file is touched.
pub proof fn law_snapshot_overwrites<A>(
    store: Map<Seq<u8>, A>,
    dir: Seq<u8>,
    name: Seq<u8>,
    first: A,
    second: A,
)
    ensures
        kept(kept(store, dir, name, first), dir, name, second) == kept(store, dir, name, second),
        kept(kept(store, dir, name, first), dir, name, second)[archive_file_spec(dir, name)]
            == second,
        forall|file: Seq<u8>|
            file != archive_file_spec(dir, name) && store.dom().contains(file) ==> #[trigger] kept(
                kept(store, dir, name, first),
                dir,
                name,
                second,
            )[file] == store[file],
{
    assert(kept(kept(store, dir, name, first), dir, name, second) =~= kept(
        store,
        dir,
        name,
        second,
    ));
}

} // verus!
