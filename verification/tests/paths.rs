use elm_core::engine::install::engine_paths;
use elm_core::path::{check_entry_name, copy_bytes, join, push_bytes, DOT, SEPARATOR};
use elm_core::rollback::archive::archive_file;
use elm_core::rollback::walk::root_name;

#[test]
fn join_puts_one_separator_between() {
    assert_eq!(join(b"/a/b", b"c"), b"/a/b/c".to_vec());
    assert_eq!(join(b"a", b"b/c"), b"a/b/c".to_vec());
}

#[test]
fn join_adds_no_separator_after_one() {
    assert_eq!(join(b"/a/", b"c"), b"/a/c".to_vec());
    assert_eq!(join(b"/", b"c"), b"/c".to_vec());
}

#[test]
fn join_to_nothing_is_the_name() {
    assert_eq!(join(b"", b"c"), b"c".to_vec());
    assert_eq!(join(b"", b""), b"".to_vec());
}

#[test]
fn join_of_an_absolute_path_replaces() {
    assert_eq!(join(b"/a/b", b"/etc"), b"/etc".to_vec());
    assert_eq!(join(b"", b"/"), b"/".to_vec());
}

#[test]
fn join_of_nothing_ends_in_a_separator() {
    assert_eq!(join(b"/a", b""), b"/a/".to_vec());
    assert_eq!(join(b"/a/", b""), b"/a/".to_vec());
}

#[test]
fn the_separator_and_the_dot() {
    assert_eq!(SEPARATOR, b'/');
    assert_eq!(DOT, b'.');
}

#[test]
fn entry_names() {
    assert!(check_entry_name(b"file.txt"));
    assert!(check_entry_name(b"..."));
    assert!(check_entry_name(b".hidden"));
    assert!(check_entry_name(b"a b"));
    assert!(check_entry_name(&[0xff]));
    assert!(!check_entry_name(b""));
    assert!(!check_entry_name(b"."));
    assert!(!check_entry_name(b".."));
    assert!(!check_entry_name(b"a/b"));
    assert!(!check_entry_name(b"/"));
    assert!(!check_entry_name(b"a/"));
    assert!(!check_entry_name(b"./"));
}

#[test]
fn bytes_are_copied_and_appended() {
    assert_eq!(copy_bytes(b"abc"), b"abc".to_vec());
    assert_eq!(copy_bytes(b""), Vec::<u8>::new());
    let mut out = b"ab".to_vec();
    push_bytes(&mut out, b"cd");
    assert_eq!(out, b"abcd".to_vec());
    push_bytes(&mut out, b"");
    assert_eq!(out, b"abcd".to_vec());
}

#[test]
fn the_root_name_is_prefix() {
    assert_eq!(root_name(), b"prefix".to_vec());
}

#[test]
fn a_snapshot_is_kept_under_its_name() {
    assert_eq!(archive_file(b"/data/snaps", "s1"), b"/data/snaps/s1.tar.zst".to_vec());
    assert_eq!(archive_file(b"snaps/", "eve-default-pre-update-17"), b"snaps/eve-default-pre-update-17.tar.zst".to_vec());
}

#[test]
fn the_same_name_gives_the_same_file() {
    assert_eq!(archive_file(b"/s", "n"), archive_file(b"/s", "n"));
    assert_ne!(archive_file(b"/s", "n"), archive_file(b"/s", "m"));
}

#[test]
fn engine_places() {
    let paths = engine_paths(b"/data/engines", "ge-proton-10-26");
    assert_eq!(paths.root, b"/data/engines/ge-proton-10-26".to_vec());
    assert_eq!(paths.dist, b"/data/engines/ge-proton-10-26/dist".to_vec());
    assert_eq!(paths.marker, b"/data/engines/ge-proton-10-26/installed.json".to_vec());
}

#[test]
fn an_absolute_engine_id_replaces_the_engines_directory() {
    let paths = engine_paths(b"/data/engines", "/opt/e");
    assert_eq!(paths.root, b"/opt/e".to_vec());
    assert_eq!(paths.dist, b"/opt/e/dist".to_vec());
    assert_eq!(paths.marker, b"/opt/e/installed.json".to_vec());
}
