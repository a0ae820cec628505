//! Bringing a prefix into being.

use crate::path::{bytes_of, join, join_spec};
use crate::runtime::launch::{
    runner_invocation, runner_invocation_spec, wine_dir_spec, Invocation, InvocationView,
};
use vstd::prelude::*;
use vstd::string::StringSliceAdditionalSpecFns;

verus! {

/// The directory whose presence shows that a prefix was initialized.
pub open spec fn drive_c_spec(prefix_dir: Seq<u8>) -> Seq<u8> {
    join_spec(prefix_dir, "pfx/drive_c".spec_bytes())
}

/// The directory whose presence shows that a prefix was initialized.
pub fn drive_c(prefix_dir: &[u8]) -> (dir: Vec<u8>)
    ensures
        dir@ == drive_c_spec(prefix_dir@),
{
    join(prefix_dir, "pfx/drive_c".as_bytes())
}

/// What initializing a prefix takes.
#[derive(Debug, Clone, Copy, PartialEq, Eq, Structural)]
pub enum Initialization {
    /// Nothing: the prefix was initialized before.
    Nothing,
    /// A run of `wineboot` through the runner.
    Wineboot,
    /// It cannot be done: the engine holds no runner script.
    RunnerMissing,
}

/// Says what initializing a prefix takes, given whether it holds its C
/// drive already and whether the runner script is there. An initialized
/// prefix needs no runner.
pub fn plan_initialization(initialized: bool, runner_exists: bool) -> (plan: Initialization)
    ensures
        plan == if initialized {
            Initialization::Nothing
        } else if runner_exists {
            Initialization::Wineboot
        } else {
            Initialization::RunnerMissing
        },
{
    if initialized {
        Initialization::Nothing
    } else if runner_exists {
        Initialization::Wineboot
    } else {
        Initialization::RunnerMissing
    }
}

/// The invocation that initializes the prefix: the runner runs `wineboot`
/// with the wine prefix proper named in `WINEPREFIX`.
pub open spec fn wineboot_invocation_spec(
    prefix_dir: Seq<u8>,
    proton_root: Seq<u8>,
    home: Seq<u8>,
) -> InvocationView {
    let base = runner_invocation_spec(proton_root, prefix_dir, home);
    InvocationView {
        program: base.program,
        args: base.args + seq!["run".spec_bytes(), "wineboot".spec_bytes()],
        env: base.env.push(("WINEPREFIX".spec_bytes(), wine_dir_spec(prefix_dir))),
    }
}

/// The invocation that initializes the prefix.
pub fn wineboot_invocation(prefix_dir: &[u8], proton_root: &[u8], home: &str) -> (run: Invocation)
    ensures
        run@ == wineboot_invocation_spec(prefix_dir@, proton_root@, home.spec_bytes()),
{
    let mut run = runner_invocation(proton_root, prefix_dir, home);
    let ghost base = run@;
    run.env.push((bytes_of("WINEPREFIX"), join(prefix_dir, "pfx".as_bytes())));
    run.args.push(bytes_of("run"));
    run.args.push(bytes_of("wineboot"));
    proof {
        assert(run@.args =~= base.args + seq!["run".spec_bytes(), "wineboot".spec_bytes()]);
        assert(run@.env =~= base.env.push(("WINEPREFIX".spec_bytes(), wine_dir_spec(prefix_dir@))));
    }
    run
}

} // verus!
