//! The places of an engine below the engines directory.

use crate::path::{join, join_spec, push_bytes, same_bytes};
use vstd::prelude::*;
use vstd::string::StringSliceAdditionalSpecFns;

verus! {

/// The places of one engine.
#[derive(Debug)]
pub struct EnginePaths {
    /// The engine's own directory.
    pub root: Vec<u8>,
    /// Where its archive is unpacked.
    pub dist: Vec<u8>,
    /// The file that marks it as installed.
    pub marker: Vec<u8>,
}

/// The name of the directory that holds an unpacked engine: `dist`.
pub open spec fn dist_name() -> Seq<u8> {
    seq![100u8, 105u8, 115u8, 116u8]
}

/// The name of the file that marks an engine as installed:
/// `installed.json`.
pub open spec fn marker_name() -> Seq<u8> {
    seq![
        105u8,
        110u8,
        115u8,
        116u8,
        97u8,
        108u8,
        108u8,
        101u8,
        100u8,
        46u8,
        106u8,
        115u8,
        111u8,
        110u8,
    ]
}

/// The places of the engine `engine_id` below `engines_dir`: its directory
/// is named by its identifier, and `dist` and `installed.json` lie in it.
pub fn engine_paths(engines_dir: &[u8], engine_id: &str) -> (paths: EnginePaths)
    ensures
        paths.root@ == join_spec(engines_dir@, engine_id.spec_bytes()),
        paths.dist@ == join_spec(paths.root@, dist_name()),
        paths.marker@ == join_spec(paths.root@, marker_name()),
{
    let root = join(engines_dir, engine_id.as_bytes());
    let dist_bytes: [u8; 4] = [100u8, 105u8, 115u8, 116u8];
    let marker_bytes: [u8; 14] = [
        105u8,
        110u8,
        115u8,
        116u8,
        97u8,
        108u8,
        108u8,
        101u8,
        100u8,
        46u8,
        106u8,
        115u8,
        111u8,
        110u8,
    ];
    proof {
        assert(dist_bytes@ =~= dist_name());
        assert(marker_bytes@ =~= marker_name());
    }
    let dist = join(root.as_slice(), dist_bytes.as_slice());
    let marker = join(root.as_slice(), marker_bytes.as_slice());
    EnginePaths { root, dist, marker }
}

/// The file in which the archive of the engine `engine_id` is kept below
/// `downloads_dir`: the identifier with `.tar.gz` behind it.
pub open spec fn archive_path_spec(downloads_dir: Seq<u8>, engine_id: Seq<u8>) -> Seq<u8> {
    join_spec(downloads_dir, engine_id + ".tar.gz".spec_bytes())
}

/// The file in which the archive of the engine `engine_id` is kept.
pub fn archive_path(downloads_dir: &[u8], engine_id: &str) -> (file: Vec<u8>)
    ensures
        file@ == archive_path_spec(downloads_dir@, engine_id.spec_bytes()),
{
    let mut name: Vec<u8> = Vec::new();
    push_bytes(&mut name, engine_id.as_bytes());
    push_bytes(&mut name, ".tar.gz".as_bytes());
    proof {
        assert(name@ =~= engine_id.spec_bytes() + ".tar.gz".spec_bytes());
    }
    join(downloads_dir, name.as_slice())
}

/// Tells whether an engine counts as installed, given whether its marker
/// and its unpacked archive are there: it takes both.
pub fn is_installed(marker_exists: bool, dist_exists: bool) -> (installed: bool)
    ensures
        installed == (marker_exists && dist_exists),
{
    marker_exists && dist_exists
}

/// Why an engine cannot be installed.
#[derive(Debug, Clone, Copy, PartialEq, Eq, Structural)]
pub enum InstallError {
    /// The engine's source is of a kind other than `url`.
    UnsupportedSource,
}

/// Accepts the kind of source that version 1 knows: `url`, so written.
pub fn check_source_kind(kind: &str) -> (outcome: Result<(), InstallError>)
    ensures
        outcome is Ok <==> kind.spec_bytes() == "url".spec_bytes(),
        outcome is Err ==> outcome == Err::<(), InstallError>(InstallError::UnsupportedSource),
{
    if same_bytes(kind.as_bytes(), "url".as_bytes()) {
        Ok(())
    } else {
        Err(InstallError::UnsupportedSource)
    }
}

} // verus!
