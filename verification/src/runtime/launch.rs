//! How the runner is started.
//!
//! Every program that runs inside a prefix is started through the runner
//! script of the engine: `python3 <proton_root>/proton run <program> ...`,
//! with the prefix and the Steam directory named in the environment. What is
//! built here is the command line and the environment; starting the process
//! is the caller's part.

use crate::path::{bytes_of, copy_bytes, join, join_spec, push_bytes};
use vstd::prelude::*;
use vstd::string::StringSliceAdditionalSpecFns;
use vstd::utf8::encode_utf8;

verus! {

/// What to launch, and where.
#[derive(Debug)]
pub struct LaunchSpec {
    /// The directory of the engine that holds the runner script.
    pub proton_root: Vec<u8>,
    /// The prefix.
    pub prefix_dir: Vec<u8>,
    /// The program, relative to `pfx` inside the prefix.
    pub exe_path_in_prefix: Vec<u8>,
    /// The program's arguments.
    pub args: Vec<String>,
    /// Variables to set for the program, in the order in which they are
    /// set: of two with one name the later counts.
    pub env: Vec<(String, String)>,
}

/// A process to start.
#[derive(Debug)]
pub struct Invocation {
    pub program: Vec<u8>,
    pub args: Vec<Vec<u8>>,
    /// The variables to set, in the order in which they are set.
    pub env: Vec<(Vec<u8>, Vec<u8>)>,
}

/// The mathematical value of an [`Invocation`].
pub struct InvocationView {
    pub program: Seq<u8>,
    pub args: Seq<Seq<u8>>,
    pub env: Seq<(Seq<u8>, Seq<u8>)>,
}

impl View for Invocation {
    type V = InvocationView;

    open spec fn view(&self) -> InvocationView {
        InvocationView {
            program: self.program@,
            args: self.args@.map_values(|a: Vec<u8>| a@),
            env: self.env@.map_values(|v: (Vec<u8>, Vec<u8>)| (v.0@, v.1@)),
        }
    }
}

/// Why a launch cannot be tried.
#[derive(Debug, Clone, Copy, PartialEq, Eq, Structural)]
pub enum LaunchError {
    /// The engine holds no runner script.
    RunnerMissing,
    /// The prefix does not hold the program.
    ProgramMissing,
}

/// The runner script of the engine at `proton_root`.
pub open spec fn runner_spec(proton_root: Seq<u8>) -> Seq<u8> {
    join_spec(proton_root, "proton".spec_bytes())
}

/// The wine prefix proper inside `prefix_dir`.
pub open spec fn wine_dir_spec(prefix_dir: Seq<u8>) -> Seq<u8> {
    join_spec(prefix_dir, "pfx".spec_bytes())
}

/// The program `exe` of the prefix `prefix_dir`.
pub open spec fn program_spec(prefix_dir: Seq<u8>, exe: Seq<u8>) -> Seq<u8> {
    join_spec(wine_dir_spec(prefix_dir), exe)
}

/// The Steam directory of the user whose home is `home`.
pub open spec fn steam_dir_spec(home: Seq<u8>) -> Seq<u8> {
    home + "/.steam/steam".spec_bytes()
}

/// The start of every invocation of the runner: the interpreter, the script
/// and the two variables that name the prefix and the Steam directory.
pub open spec fn runner_invocation_spec(
    proton_root: Seq<u8>,
    prefix_dir: Seq<u8>,
    home: Seq<u8>,
) -> InvocationView {
    InvocationView {
        program: "python3".spec_bytes(),
        args: seq![runner_spec(proton_root)],
        env: seq![
            ("STEAM_COMPAT_DATA_PATH".spec_bytes(), prefix_dir),
            ("STEAM_COMPAT_CLIENT_INSTALL_PATH".spec_bytes(), steam_dir_spec(home)),
        ],
    }
}

/// The bytes of each text of `texts`.
pub open spec fn texts_bytes(texts: Seq<String>) -> Seq<Seq<u8>> {
    texts.map_values(|t: String| encode_utf8(t@))
}

/// The bytes of each name and value of `vars`.
pub open spec fn vars_bytes(vars: Seq<(String, String)>) -> Seq<(Seq<u8>, Seq<u8>)> {
    vars.map_values(|v: (String, String)| (encode_utf8(v.0@), encode_utf8(v.1@)))
}

/// The invocation that launches `exe` of the prefix with `args`, after
/// `env` was set on top of the runner's own variables.
pub open spec fn launch_invocation_spec(
    proton_root: Seq<u8>,
    prefix_dir: Seq<u8>,
    exe: Seq<u8>,
    args: Seq<Seq<u8>>,
    env: Seq<(Seq<u8>, Seq<u8>)>,
    home: Seq<u8>,
) -> InvocationView {
    let base = runner_invocation_spec(proton_root, prefix_dir, home);
    InvocationView {
        program: base.program,
        args: base.args + seq!["run".spec_bytes(), program_spec(prefix_dir, exe)] + args,
        env: base.env + env,
    }
}

/// The runner script of the engine at `proton_root`.
pub fn runner(proton_root: &[u8]) -> (script: Vec<u8>)
    ensures
        script@ == runner_spec(proton_root@),
{
    join(proton_root, "proton".as_bytes())
}

/// The program `exe` of the prefix `prefix_dir`.
pub fn program(prefix_dir: &[u8], exe: &[u8]) -> (file: Vec<u8>)
    ensures
        file@ == program_spec(prefix_dir@, exe@),
{
    let wine_dir = join(prefix_dir, "pfx".as_bytes());
    join(wine_dir.as_slice(), exe)
}

/// The Steam directory of the user whose home is `home`.
pub fn steam_dir(home: &str) -> (dir: Vec<u8>)
    ensures
        dir@ == steam_dir_spec(home.spec_bytes()),
{
    let mut dir = bytes_of(home);
    push_bytes(&mut dir, "/.steam/steam".as_bytes());
    dir
}

/// The start of every invocation of the runner.
pub fn runner_invocation(proton_root: &[u8], prefix_dir: &[u8], home: &str) -> (start: Invocation)
    ensures
        start@ == runner_invocation_spec(proton_root@, prefix_dir@, home.spec_bytes()),
{
    let mut args: Vec<Vec<u8>> = Vec::new();
    args.push(runner(proton_root));
    let mut env: Vec<(Vec<u8>, Vec<u8>)> = Vec::new();
    env.push((bytes_of("STEAM_COMPAT_DATA_PATH"), copy_bytes(prefix_dir)));
    env.push((bytes_of("STEAM_COMPAT_CLIENT_INSTALL_PATH"), steam_dir(home)));
    let start = Invocation { program: bytes_of("python3"), args, env };
    proof {
        let expected = runner_invocation_spec(proton_root@, prefix_dir@, home.spec_bytes());
        assert(start@.args =~= expected.args);
        assert(start@.env =~= expected.env);
    }
    start
}

/// Tells whether a launch can be tried, given whether the runner script and
/// the program are there. A missing runner is reported first.
pub fn check_launch(runner_exists: bool, program_exists: bool) -> (outcome: Result<
    (),
    LaunchError,
>)
    ensures
        outcome is Ok <==> runner_exists && program_exists,
        !runner_exists ==> outcome == Err::<(), LaunchError>(LaunchError::RunnerMissing),
        runner_exists && !program_exists ==> outcome == Err::<(), LaunchError>(
            LaunchError::ProgramMissing,
        ),
{
    if !runner_exists {
        Err(LaunchError::RunnerMissing)
    } else if !program_exists {
        Err(LaunchError::ProgramMissing)
    } else {
        Ok(())
    }
}

/// The invocation that launches what `spec` names, for the user whose home
/// is `home`: the runner is told to `run` the program with the arguments of
/// `spec`, and the variables of `spec` are set after the runner's own, so
/// that they win over them.
pub fn launch_invocation(spec: &LaunchSpec, home: &str) -> (launch: Invocation)
    ensures
        launch@ == launch_invocation_spec(
            spec.proton_root@,
            spec.prefix_dir@,
            spec.exe_path_in_prefix@,
            texts_bytes(spec.args@),
            vars_bytes(spec.env@),
            home.spec_bytes(),
        ),
{
    let mut launch = runner_invocation(
        spec.proton_root.as_slice(),
        spec.prefix_dir.as_slice(),
        home,
    );
    let ghost base = launch@;
    launch.args.push(bytes_of("run"));
    launch.args.push(program(spec.prefix_dir.as_slice(), spec.exe_path_in_prefix.as_slice()));
    let ghost fixed = base.args + seq![
        "run".spec_bytes(),
        program_spec(spec.prefix_dir@, spec.exe_path_in_prefix@),
    ];
    proof {
        assert(launch@.args =~= fixed);
        assert(texts_bytes(spec.args@).subrange(0, 0) =~= Seq::<Seq<u8>>::empty());
        assert(launch@.args =~= fixed + texts_bytes(spec.args@).subrange(0, 0));
    }
    let mut i: usize = 0;
    while i < spec.args.len()
        invariant
            i <= spec.args.len(),
            launch@.program == base.program,
            launch@.env == base.env,
            launch@.args == fixed + texts_bytes(spec.args@).subrange(0, i as int),
        decreases spec.args.len() - i,
    {
        let ghost before = launch@.args;
        launch.args.push(bytes_of(spec.args[i].as_str()));
        proof {
            assert(launch@.args =~= before.push(encode_utf8(spec.args@[i as int]@)));
            assert(texts_bytes(spec.args@).subrange(0, i + 1) =~= texts_bytes(
                spec.args@,
            ).subrange(0, i as int).push(encode_utf8(spec.args@[i as int]@)));
            assert(launch@.env =~= base.env);
        }
        i = i + 1;
    }
    proof {
        assert(texts_bytes(spec.args@).subrange(0, spec.args.len() as int) =~= texts_bytes(
            spec.args@,
        ));
        assert(vars_bytes(spec.env@).subrange(0, 0) =~= Seq::<(Seq<u8>, Seq<u8>)>::empty());
        assert(launch@.env =~= base.env + vars_bytes(spec.env@).subrange(0, 0));
    }
    let ghost all_args = launch@.args;
    let mut k: usize = 0;
    while k < spec.env.len()
        invariant
            k <= spec.env.len(),
            launch@.program == base.program,
            launch@.args == all_args,
            launch@.env == base.env + vars_bytes(spec.env@).subrange(0, k as int),
        decreases spec.env.len() - k,
    {
        let ghost before = launch@.env;
        let name = bytes_of(spec.env[k].0.as_str());
        let value = bytes_of(spec.env[k].1.as_str());
        launch.env.push((name, value));
        proof {
            let var = (encode_utf8(spec.env@[k as int].0@), encode_utf8(spec.env@[k as int].1@));
            assert(launch@.env =~= before.push(var));
            assert(vars_bytes(spec.env@).subrange(0, k + 1) =~= vars_bytes(spec.env@).subrange(
                0,
                k as int,
            ).push(var));
            assert(launch@.args =~= all_args);
        }
        k = k + 1;
    }
    proof {
        assert(vars_bytes(spec.env@).subrange(0, spec.env.len() as int) =~= vars_bytes(
            spec.env@,
        ));
    }
    launch
}

} // verus!
