use cap_std::ambient_authority;
use cap_std::fs::Dir;
use rgnix::proxy::files::{choose_file, range, relative, Choice, Probe};
use std::io::ErrorKind;

#[test]
fn capability_root_blocks_symlink_escape_and_ranges_are_bounded() {
    let dir = tempfile::tempdir().unwrap();
    let outside = tempfile::NamedTempFile::new().unwrap();
    let root = Dir::open_ambient_dir(dir.path(), ambient_authority()).unwrap();
    root.symlink_contents(outside.path(), "escape").unwrap();
    let probe = match root.metadata(relative("/escape")) {
        Ok(_) => Probe::File,
        Err(e) if e.kind() == ErrorKind::PermissionDenied => Probe::Denied,
        Err(_) => Probe::Failed,
    };
    assert!(matches!(choose_file("/escape", probe, &vec![], 0), Choice::Forbidden | Choice::Failed));
    assert_eq!(range("bytes=-5", 3), Ok(Some((0, 2))));
    assert_eq!(range("bytes=3-", 3), Err(()));
}

#[test]
fn the_first_index_is_served() {
    use_index(&[], Choice::Try(0));
    use_index(&[Probe::File], Choice::Index(0));
    use_index(&[Probe::Missing], Choice::Try(1));
    use_index(&[Probe::Directory, Probe::File], Choice::Index(1));
    use_index(&[Probe::Missing, Probe::Special], Choice::Forbidden);
    use_index(&[Probe::Denied], Choice::Forbidden);
    use_index(&[Probe::NoDirectory], Choice::NotFound);
    use_index(&[Probe::Failed], Choice::Failed);
    assert_eq!(choose_file("/a/", Probe::Directory, &vec![], 0), Choice::Forbidden);
    assert_eq!(choose_file("/a", Probe::Directory, &vec![], 2), Choice::Directory);
    assert_eq!(choose_file("/a", Probe::File, &vec![], 2), Choice::Named);
    assert_eq!(choose_file("/a", Probe::Missing, &vec![], 2), Choice::NotFound);
    assert_eq!(choose_file("/a/b", Probe::NoDirectory, &vec![], 2), Choice::NotFound);
    assert_eq!(choose_file("/a", Probe::Special, &vec![], 2), Choice::Forbidden);
    assert_eq!(choose_file("/a", Probe::Denied, &vec![], 2), Choice::Forbidden);
    assert_eq!(choose_file("/a", Probe::Failed, &vec![], 2), Choice::Failed);
}

fn use_index(probes: &[Probe], expected: Choice) {
    assert_eq!(choose_file("/a/", Probe::Directory, &probes.to_vec(), 2), expected);
}
