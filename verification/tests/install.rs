use elm_core::engine::install::{
    archive_path, check_source_kind, is_installed, InstallError,
};
use elm_core::installer::{
    install_dir, installed_launcher, installer_file, installer_invocation, launcher_dir,
    launcher_fallback, launcher_file, launcher_url, whole_megabytes,
};
use elm_core::path::{file_name, same_bytes};

#[test]
fn an_installer_is_kept_under_the_last_segment_of_its_address() {
    assert_eq!(
        installer_file(b"/d", "https://binaries.eveonline.com/EveLauncher-2180591.exe"),
        b"/d/EveLauncher-2180591.exe".to_vec()
    );
    assert_eq!(installer_file(b"/d", "setup.exe"), b"/d/setup.exe".to_vec());
}

#[test]
fn an_address_that_ends_in_a_separator_names_no_file() {
    assert_eq!(installer_file(b"/d", "https://host/dir/"), b"/d/".to_vec());
    assert_eq!(installer_file(b"/d", ""), b"/d/".to_vec());
}

#[test]
fn the_last_segment() {
    assert_eq!(file_name(b"a/b/c"), b"c".to_vec());
    assert_eq!(file_name(b"c"), b"c".to_vec());
    assert_eq!(file_name(b"/c"), b"c".to_vec());
    assert_eq!(file_name(b"a/"), b"".to_vec());
    assert_eq!(file_name(b"/"), b"".to_vec());
    assert_eq!(file_name(b""), b"".to_vec());
    assert_eq!(file_name(b"a//b"), b"b".to_vec());
}

#[test]
fn bytes_are_compared_one_by_one() {
    assert!(same_bytes(b"url", b"url"));
    assert!(same_bytes(b"", b""));
    assert!(!same_bytes(b"url", b"urL"));
    assert!(!same_bytes(b"url", b"ur"));
    assert!(!same_bytes(b"", b"u"));
}

#[test]
fn the_application_goes_to_the_c_drive() {
    assert_eq!(install_dir(b"/p", "CCP/EVE"), b"/p/pfx/drive_c/CCP/EVE".to_vec());
}

#[test]
fn an_absolute_install_directory_replaces_the_prefix() {
    assert_eq!(install_dir(b"/p", "/opt/eve"), b"/opt/eve".to_vec());
}

#[test]
fn the_installer_is_run_through_the_runner() {
    let run = installer_invocation(b"/d/setup.exe", b"/p", b"/e", "/home/u");
    assert_eq!(run.program, b"python3".to_vec());
    assert_eq!(run.args, vec![b"/e/proton".to_vec(), b"run".to_vec(), b"/d/setup.exe".to_vec()]);
    assert_eq!(
        run.env,
        vec![
            (b"STEAM_COMPAT_DATA_PATH".to_vec(), b"/p".to_vec()),
            (b"STEAM_COMPAT_CLIENT_INSTALL_PATH".to_vec(), b"/home/u/.steam/steam".to_vec()),
        ]
    );
}

#[test]
fn progress_is_reported_at_whole_megabytes() {
    assert_eq!(whole_megabytes(0), Some(0));
    assert_eq!(whole_megabytes(1_048_576), Some(1));
    assert_eq!(whole_megabytes(5 * 1_048_576), Some(5));
    assert_eq!(whole_megabytes(1_048_575), None);
    assert_eq!(whole_megabytes(1_048_577), None);
    assert_eq!(whole_megabytes(65_536), None);
    assert_eq!(whole_megabytes(u64::MAX), None);
    assert_eq!(whole_megabytes(u64::MAX - 1_048_575), Some(17_592_186_044_415));
}

#[test]
fn the_launcher_is_fetched_from_its_publisher() {
    assert_eq!(
        launcher_url(),
        "https://launcher.ccpgames.com/eve-online/release/win32/x64/eve-online-1.9.4+Setup.exe"
    );
    assert_eq!(
        installer_file(b"/d", launcher_url()),
        b"/d/eve-online-1.9.4+Setup.exe".to_vec()
    );
}

#[test]
fn the_places_of_the_launcher() {
    assert_eq!(launcher_dir(b"/p"), b"/p/pfx/drive_c/EVE".to_vec());
    assert_eq!(launcher_file(b"/p"), b"/p/pfx/drive_c/EVE/Launcher/evelauncher.exe".to_vec());
    assert_eq!(
        launcher_fallback(b"/p"),
        b"/p/pfx/drive_c/Program Files/CCP/EVE/Launcher/evelauncher.exe".to_vec()
    );
}

#[test]
fn the_first_place_that_holds_the_launcher_is_reported() {
    assert_eq!(installed_launcher(b"/p", true, true), launcher_file(b"/p"));
    assert_eq!(installed_launcher(b"/p", true, false), launcher_file(b"/p"));
    assert_eq!(installed_launcher(b"/p", false, true), launcher_fallback(b"/p"));
    assert_eq!(installed_launcher(b"/p", false, false), launcher_dir(b"/p"));
}

#[test]
fn an_engine_archive_is_kept_under_its_identifier() {
    assert_eq!(archive_path(b"/d", "ge-proton-10-26"), b"/d/ge-proton-10-26.tar.gz".to_vec());
}

#[test]
fn an_engine_is_installed_when_marker_and_archive_are_there() {
    assert!(is_installed(true, true));
    assert!(!is_installed(true, false));
    assert!(!is_installed(false, true));
    assert!(!is_installed(false, false));
}

#[test]
fn only_a_url_source_is_accepted() {
    assert_eq!(check_source_kind("url"), Ok(()));
    assert_eq!(check_source_kind("URL"), Err(InstallError::UnsupportedSource));
    assert_eq!(check_source_kind("git"), Err(InstallError::UnsupportedSource));
    assert_eq!(check_source_kind(""), Err(InstallError::UnsupportedSource));
    assert_eq!(check_source_kind("url "), Err(InstallError::UnsupportedSource));
}
