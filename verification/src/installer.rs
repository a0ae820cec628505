//! Installing an application into a prefix.
//!
//! What is decided here: under which name a downloaded installer is kept,
//! where the application goes inside the prefix, how the installer is
//! started, and where the launcher is looked for afterwards.

use crate::path::{bytes_of, copy_bytes, file_name, join, join_spec, last_segment};
use crate::runtime::launch::{
    runner_invocation, runner_invocation_spec, Invocation, InvocationView,
};
use vstd::prelude::*;
use vstd::string::StringSliceAdditionalSpecFns;

verus! {

/// The file in which the installer downloaded from `url` is kept below
/// `downloads_dir`: it bears the last segment of the address.
pub open spec fn installer_file_spec(downloads_dir: Seq<u8>, url: Seq<u8>) -> Seq<u8> {
    join_spec(downloads_dir, last_segment(url))
}

/// The file in which the installer downloaded from `url` is kept.
pub fn installer_file(downloads_dir: &[u8], url: &str) -> (file: Vec<u8>)
    ensures
        file@ == installer_file_spec(downloads_dir@, url.spec_bytes()),
{
    let name = file_name(url.as_bytes());
    join(downloads_dir, name.as_slice())
}

/// The directory `install_dir` of the C drive of the prefix.
pub open spec fn install_dir_spec(prefix_dir: Seq<u8>, install_dir: Seq<u8>) -> Seq<u8> {
    join_spec(join_spec(prefix_dir, "pfx/drive_c".spec_bytes()), install_dir)
}

/// The directory inside the prefix into which the application goes.
pub fn install_dir(prefix_dir: &[u8], subdir: &str) -> (dir: Vec<u8>)
    ensures
        dir@ == install_dir_spec(prefix_dir@, subdir.spec_bytes()),
{
    let drive = join(prefix_dir, "pfx/drive_c".as_bytes());
    join(drive.as_slice(), subdir.as_bytes())
}

/// The invocation that runs the installer `installer_exe` in the prefix.
pub open spec fn installer_invocation_spec(
    installer_exe: Seq<u8>,
    prefix_dir: Seq<u8>,
    proton_root: Seq<u8>,
    home: Seq<u8>,
) -> InvocationView {
    let base = runner_invocation_spec(proton_root, prefix_dir, home);
    InvocationView { args: base.args + seq!["run".spec_bytes(), installer_exe], ..base }
}

/// The invocation that runs the installer `installer_exe` in the prefix.
pub fn installer_invocation(
    installer_exe: &[u8],
    prefix_dir: &[u8],
    proton_root: &[u8],
    home: &str,
) -> (run: Invocation)
    ensures
        run@ == installer_invocation_spec(
            installer_exe@,
            prefix_dir@,
            proton_root@,
            home.spec_bytes(),
        ),
{
    let mut run = runner_invocation(proton_root, prefix_dir, home);
    let ghost base = run@;
    run.args.push(bytes_of("run"));
    run.args.push(copy_bytes(installer_exe));
    proof {
        assert(run@.args =~= base.args + seq!["run".spec_bytes(), installer_exe@]);
        assert(run@.env =~= base.env);
    }
    run
}

/// How many whole megabytes `total` bytes are, where they are whole: the
/// points at which a download reports its progress.
pub fn whole_megabytes(total: u64) -> (mark: Option<u64>)
    ensures
        mark == if total % 1048576 == 0 {
            Some((total / 1048576) as u64)
        } else {
            None
        },
{
    if total % 1048576 == 0 {
        Some(total / 1048576)
    } else {
        None
    }
}

/// The address of the launcher's installer.
pub fn launcher_url() -> (url: &'static str)
    ensures
        url@
            == "https://launcher.ccpgames.com/eve-online/release/win32/x64/eve-online-1.9.4+Setup.exe"@,
{
    "https://launcher.ccpgames.com/eve-online/release/win32/x64/eve-online-1.9.4+Setup.exe"
}

/// The directory of the prefix in which the launcher is installed first.
pub open spec fn launcher_dir_spec(prefix_dir: Seq<u8>) -> Seq<u8> {
    join_spec(prefix_dir, "pfx/drive_c/EVE".spec_bytes())
}

/// Where the launcher lies after a plain installation.
pub open spec fn launcher_file_spec(prefix_dir: Seq<u8>) -> Seq<u8> {
    join_spec(prefix_dir, "pfx/drive_c/EVE/Launcher/evelauncher.exe".spec_bytes())
}

/// Where the launcher lies when the installer chose the program files.
pub open spec fn launcher_fallback_spec(prefix_dir: Seq<u8>) -> Seq<u8> {
    join_spec(
        prefix_dir,
        "pfx/drive_c/Program Files/CCP/EVE/Launcher/evelauncher.exe".spec_bytes(),
    )
}

/// The directory of the prefix in which the launcher is installed first.
pub fn launcher_dir(prefix_dir: &[u8]) -> (dir: Vec<u8>)
    ensures
        dir@ == launcher_dir_spec(prefix_dir@),
{
    join(prefix_dir, "pfx/drive_c/EVE".as_bytes())
}

/// Where the launcher lies after a plain installation.
pub fn launcher_file(prefix_dir: &[u8]) -> (file: Vec<u8>)
    ensures
        file@ == launcher_file_spec(prefix_dir@),
{
    join(prefix_dir, "pfx/drive_c/EVE/Launcher/evelauncher.exe".as_bytes())
}

/// Where the launcher lies when the installer chose the program files.
pub fn launcher_fallback(prefix_dir: &[u8]) -> (file: Vec<u8>)
    ensures
        file@ == launcher_fallback_spec(prefix_dir@),
{
    join(prefix_dir, "pfx/drive_c/Program Files/CCP/EVE/Launcher/evelauncher.exe".as_bytes())
}

/// What an installation of the launcher reports as its place: the plain
/// place where the launcher is there, else the fallback where it is there,
/// else the directory that was prepared for it.
pub fn installed_launcher(prefix_dir: &[u8], plain_exists: bool, fallback_exists: bool) -> (place:
    Vec<u8>)
    ensures
        place@ == if plain_exists {
            launcher_file_spec(prefix_dir@)
        } else if fallback_exists {
            launcher_fallback_spec(prefix_dir@)
        } else {
            launcher_dir_spec(prefix_dir@)
        },
{
    if plain_exists {
        launcher_file(prefix_dir)
    } else if fallback_exists {
        launcher_fallback(prefix_dir)
    } else {
        launcher_dir(prefix_dir)
    }
}

} // verus!
