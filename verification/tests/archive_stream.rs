use elm_core::rollback::archive::archive_file;
use elm_core::rollback::restore::{advance, ends, first_step, Report, Step};
use elm_core::rollback::walk::{Entry, EntryKind, Probe, Walker};
use std::collections::BTreeMap;
use std::io::Read;

/// What lies at one path of a tree held in memory.
#[derive(Debug, Clone, PartialEq)]
enum Node {
    Dir,
    File(Vec<u8>),
    Link(String),
}

/// A file system held in memory: every path with what lies there.
type Disk = BTreeMap<String, Node>;

fn look(disk: &Disk, inodes: &mut BTreeMap<String, u64>, source: &str) -> Probe {
    match disk.get(source) {
        None => Probe::Missing,
        Some(Node::File(_)) => Probe::File { readable: true },
        Some(Node::Link(target)) => Probe::Symlink { target: Some(target.as_bytes().to_vec()) },
        Some(Node::Dir) => {
            let next = inodes.len() as u64 + 1;
            let inode = *inodes.entry(source.to_string()).or_insert(next);
            let below = format!("{}/", source);
            let children = disk
                .keys()
                .filter(|p| p.starts_with(&below) && !p[below.len()..].contains('/'))
                .map(|p| p[below.len()..].as_bytes().to_vec())
                .collect();
            Probe::Directory { inode, children: Some(children) }
        }
    }
}

fn write(builder: &mut tar::Builder<zstd::Encoder<'static, Vec<u8>>>, disk: &Disk, entry: &Entry) {
    let path = String::from_utf8(entry.path.clone()).unwrap();
    let source = String::from_utf8(entry.source.clone()).unwrap();
    let mut header = tar::Header::new_gnu();
    match &entry.kind {
        EntryKind::Directory => {
            header.set_entry_type(tar::EntryType::Directory);
            header.set_mode(0o755);
            header.set_size(0);
            builder.append_data(&mut header, path, std::io::empty()).unwrap();
        }
        EntryKind::File => {
            let content = match &disk[&source] {
                Node::File(content) => content.clone(),
                other => panic!("{} is {:?}", source, other),
            };
            header.set_entry_type(tar::EntryType::Regular);
            header.set_mode(0o644);
            header.set_size(content.len() as u64);
            builder.append_data(&mut header, path, content.as_slice()).unwrap();
        }
        EntryKind::Symlink { target } => {
            header.set_entry_type(tar::EntryType::Symlink);
            header.set_size(0);
            builder
                .append_link(&mut header, path, String::from_utf8(target.clone()).unwrap())
                .unwrap();
        }
    }
}

/// Archives the tree at `source` into the snapshots held in `shelf`.
fn snapshot(disk: &Disk, shelf: &mut BTreeMap<Vec<u8>, Vec<u8>>, source: &str, name: &str) -> Vec<u8> {
    let file = archive_file(b"/snaps", name);
    let encoder = zstd::Encoder::new(Vec::new(), 3).unwrap();
    let mut builder = tar::Builder::new(encoder);
    let mut walker = Walker::new(source.as_bytes());
    let mut inodes = BTreeMap::new();
    while !walker.is_done() {
        let at = String::from_utf8(walker.current().unwrap().source.clone()).unwrap();
        if let Some(entry) = walker.step(look(disk, &mut inodes, &at)) {
            write(&mut builder, disk, &entry);
        }
    }
    assert!(walker.skipped().is_empty());
    let bytes = builder.into_inner().unwrap().finish().unwrap();
    shelf.insert(file.clone(), bytes);
    file
}

fn remove(disk: &mut Disk, root: &str) {
    let below = format!("{}/", root);
    disk.retain(|p, _| p != root && !p.starts_with(&below));
}

/// Restores the archive `bytes` to `dest`, whose parent is `parent`, by the
/// steps that the library names.
fn restore(disk: &mut Disk, bytes: Option<&Vec<u8>>, parent: &str, dest: &str) -> Step {
    let staged = format!("{}/prefix", parent);
    let mut step = first_step();
    while !ends(step) {
        let report = match step {
            Step::OpenArchive => match bytes {
                Some(b) if zstd::Decoder::new(b.as_slice()).is_ok() => Report::Succeeded,
                _ => Report::Failed,
            },
            Step::ProbeDestination | Step::ProbePlace => Report::Exists(disk.contains_key(dest)),
            Step::RemoveDestination | Step::ClearPlace => {
                remove(disk, dest);
                Report::Succeeded
            }
            Step::CreateDestination => {
                disk.entry(dest.to_string()).or_insert(Node::Dir);
                Report::Succeeded
            }
            Step::Unpack => unpack(disk, bytes.unwrap(), parent),
            Step::ProbeStaged => {
                Report::Staged { exists: disk.contains_key(&staged), in_place: staged == dest }
            }
            Step::Rename => {
                let moved: Vec<(String, Node)> = disk
                    .iter()
                    .filter(|(p, _)| *p == &staged || p.starts_with(&format!("{}/", staged)))
                    .map(|(p, n)| (format!("{}{}", dest, &p[staged.len()..]), n.clone()))
                    .collect();
                remove(disk, &staged);
                disk.extend(moved);
                Report::Succeeded
            }
            Step::Done | Step::Failed(_) => unreachable!(),
        };
        step = advance(step, report);
    }
    step
}

fn unpack(disk: &mut Disk, bytes: &[u8], into: &str) -> Report {
    let decoder = match zstd::Decoder::new(bytes) {
        Ok(decoder) => decoder,
        Err(_) => return Report::Failed,
    };
    let mut archive = tar::Archive::new(decoder);
    let entries = match archive.entries() {
        Ok(entries) => entries,
        Err(_) => return Report::Failed,
    };
    for entry in entries {
        let mut entry = match entry {
            Ok(entry) => entry,
            Err(_) => return Report::Failed,
        };
        let path = format!("{}/{}", into, entry.path().unwrap().to_str().unwrap().trim_end_matches('/'));
        let node = match entry.header().entry_type() {
            tar::EntryType::Directory => Node::Dir,
            tar::EntryType::Symlink => {
                Node::Link(entry.link_name().unwrap().unwrap().to_str().unwrap().to_string())
            }
            tar::EntryType::Regular => {
                let mut content = Vec::new();
                if entry.read_to_end(&mut content).is_err() {
                    return Report::Failed;
                }
                Node::File(content)
            }
            _ => return Report::Failed,
        };
        disk.insert(path, node);
    }
    Report::Succeeded
}

fn example() -> Disk {
    let mut disk = Disk::new();
    disk.insert("/home/u/wine".into(), Node::Dir);
    disk.insert("/home/u/wine/drive_c".into(), Node::Dir);
    disk.insert("/home/u/wine/drive_c/file.txt".into(), Node::File(b"abc".to_vec()));
    disk.insert("/home/u/wine/link".into(), Node::Link("drive_c/file.txt".into()));
    disk.insert("/home/u/wine/empty_dir".into(), Node::Dir);
    disk
}

fn tree_at(disk: &Disk, root: &str) -> Vec<(String, Node)> {
    let below = format!("{}/", root);
    disk.iter()
        .filter(|(p, _)| p.starts_with(&below))
        .map(|(p, n)| (p[below.len()..].to_string(), n.clone()))
        .collect()
}

#[test]
fn the_example_comes_back_as_it_was() {
    let mut disk = example();
    let mut shelf = BTreeMap::new();
    let file = snapshot(&disk, &mut shelf, "/home/u/wine", "s1");
    assert_eq!(file, b"/snaps/s1.tar.zst".to_vec());
    let bytes = shelf[&file].clone();
    assert_eq!(restore(&mut disk, Some(&bytes), "/restored", "/restored/dest"), Step::Done);
    assert_eq!(disk["/restored/dest/drive_c/file.txt"], Node::File(b"abc".to_vec()));
    assert_eq!(disk["/restored/dest/link"], Node::Link("drive_c/file.txt".into()));
    assert_eq!(disk["/restored/dest/empty_dir"], Node::Dir);
    assert!(!disk.keys().any(|p| p.starts_with("/restored/dest/empty_dir/")));
    assert_eq!(tree_at(&disk, "/restored/dest"), tree_at(&disk, "/home/u/wine"));
    assert!(!disk.contains_key("/restored/prefix"));
}

#[test]
fn a_restore_replaces_what_the_destination_held() {
    let mut disk = example();
    let mut shelf = BTreeMap::new();
    let file = snapshot(&disk, &mut shelf, "/home/u/wine", "s1");
    disk.insert("/r/dest".into(), Node::Dir);
    disk.insert("/r/dest/old.txt".into(), Node::File(b"old".to_vec()));
    disk.insert("/r/dest/drive_c".into(), Node::Dir);
    disk.insert("/r/dest/drive_c/stale.dll".into(), Node::File(b"stale".to_vec()));
    let bytes = shelf[&file].clone();
    assert_eq!(restore(&mut disk, Some(&bytes), "/r", "/r/dest"), Step::Done);
    assert!(!disk.contains_key("/r/dest/old.txt"));
    assert!(!disk.contains_key("/r/dest/drive_c/stale.dll"));
    assert_eq!(tree_at(&disk, "/r/dest"), tree_at(&disk, "/home/u/wine"));
}

#[test]
fn a_second_restore_gives_the_same_tree() {
    let mut disk = example();
    let mut shelf = BTreeMap::new();
    let file = snapshot(&disk, &mut shelf, "/home/u/wine", "s1");
    let bytes = shelf[&file].clone();
    assert_eq!(restore(&mut disk, Some(&bytes), "/r", "/r/dest"), Step::Done);
    let once = tree_at(&disk, "/r/dest");
    disk.insert("/r/dest/made_in_between".into(), Node::File(b"x".to_vec()));
    assert_eq!(restore(&mut disk, Some(&bytes), "/r", "/r/dest"), Step::Done);
    assert_eq!(tree_at(&disk, "/r/dest"), once);
    assert!(!disk.contains_key("/r/prefix"));
}

#[test]
fn a_destination_called_prefix_is_restored_in_place() {
    let mut disk = example();
    let mut shelf = BTreeMap::new();
    let file = snapshot(&disk, &mut shelf, "/home/u/wine", "s1");
    disk.insert("/r/prefix".into(), Node::Dir);
    disk.insert("/r/prefix/old.txt".into(), Node::File(b"old".to_vec()));
    let bytes = shelf[&file].clone();
    assert_eq!(restore(&mut disk, Some(&bytes), "/r", "/r/prefix"), Step::Done);
    assert_eq!(tree_at(&disk, "/r/prefix"), tree_at(&disk, "/home/u/wine"));
}

#[test]
fn a_second_snapshot_of_one_name_takes_the_place_of_the_first() {
    let mut disk = example();
    let mut shelf = BTreeMap::new();
    let first = snapshot(&disk, &mut shelf, "/home/u/wine", "s1");
    disk.remove("/home/u/wine/link");
    disk.insert("/home/u/wine/new.txt".into(), Node::File(b"new".to_vec()));
    let second = snapshot(&disk, &mut shelf, "/home/u/wine", "s1");
    assert_eq!(first, second);
    assert_eq!(shelf.len(), 1);
    let bytes = shelf[&second].clone();
    assert_eq!(restore(&mut disk, Some(&bytes), "/r", "/r/dest"), Step::Done);
    assert!(!disk.contains_key("/r/dest/link"));
    assert_eq!(disk["/r/dest/new.txt"], Node::File(b"new".to_vec()));
    assert_eq!(tree_at(&disk, "/r/dest"), tree_at(&disk, "/home/u/wine"));
}

#[test]
fn a_foreign_file_is_refused_and_the_destination_kept() {
    let mut disk = example();
    disk.insert("/r/dest".into(), Node::Dir);
    disk.insert("/r/dest/keep.txt".into(), Node::File(b"keep".to_vec()));
    let before = disk.clone();
    let step = restore(&mut disk, None, "/r", "/r/dest");
    assert_eq!(step, Step::Failed(elm_core::rollback::restore::RestoreError::ArchiveUnreadable));
    assert_eq!(disk, before);
}

#[test]
fn a_corrupt_archive_fails_the_unpack() {
    let mut disk = example();
    let garbage = b"this is no archive at all".to_vec();
    let step = restore(&mut disk, Some(&garbage), "/r", "/r/dest");
    assert_eq!(step, Step::Failed(elm_core::rollback::restore::RestoreError::UnpackFailed));
    assert!(!disk.contains_key("/r/dest/drive_c"));
}

#[test]
fn a_truncated_archive_fails_the_unpack() {
    let disk0 = example();
    let mut shelf = BTreeMap::new();
    let file = snapshot(&disk0, &mut shelf, "/home/u/wine", "s1");
    let mut bytes = shelf[&file].clone();
    bytes.truncate(bytes.len() / 2);
    let mut disk = example();
    let step = restore(&mut disk, Some(&bytes), "/r", "/r/dest");
    assert_eq!(step, Step::Failed(elm_core::rollback::restore::RestoreError::UnpackFailed));
}
