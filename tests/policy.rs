use dir_diff::{AssertionKind, Component, Contents, DiffEntry, DirEntry, FileKind, IntoIter, IoError};

fn path(s: &str) -> Vec<Component> {
    s.split('/')
        .filter(|c| !c.is_empty())
        .map(|c| Component::Normal(c.to_string()))
        .collect()
}

fn pair(left: Option<FileKind>, right: Option<FileKind>) -> DiffEntry {
    match left {
        Some(k) => IntoIter::pair_left(path("l/x"), k, path("r/x"), right),
        None => IntoIter::pair_right(path("l/x"), path("r/x"), right.unwrap()),
    }
}

fn io_error() -> IoError {
    IoError::Io(std::io::Error::new(std::io::ErrorKind::Other, "oh no!"))
}

#[test]
fn assertion_kind_predicates() {
    assert!(AssertionKind::Missing.is_missing());
    assert!(!AssertionKind::Missing.is_file_type());
    assert!(AssertionKind::FileType.is_file_type());
    assert!(!AssertionKind::FileType.is_content());
    assert!(AssertionKind::Content.is_content());
    assert!(!AssertionKind::Content.is_missing());
}

#[test]
fn missing_side_is_classified_missing_first() {
    let e = pair(Some(FileKind::File), None);
    let err = e.assert_all(Contents::Read(b"a".to_vec(), b"b".to_vec())).unwrap_err();
    assert!(err.cause().is_none());
    assert_eq!(err.kind(), AssertionKind::Missing);
    let e = pair(None, Some(FileKind::Dir));
    assert_eq!(e.assert_all(Contents::Unread).unwrap_err().kind(), AssertionKind::Missing);
}

#[test]
fn dir_and_file_are_a_file_type_difference() {
    let e = pair(Some(FileKind::Dir), Some(FileKind::File));
    assert!(!e.are_files());
    assert_eq!(e.assert_all(Contents::Unread).unwrap_err().kind(), AssertionKind::FileType);
    let e = pair(Some(FileKind::File), Some(FileKind::Symlink));
    let err = e.assert_all(Contents::Failed(io_error())).unwrap_err();
    assert!(err.cause().is_none());
    assert_eq!(err.kind(), AssertionKind::FileType);
}

#[test]
fn equal_bytes_pass_and_one_byte_fails() {
    let e = pair(Some(FileKind::File), Some(FileKind::File));
    assert!(e.are_files());
    let e = e.assert_all(Contents::Read(b"abc\n".to_vec(), b"abc\n".to_vec())).unwrap();
    let err = e.assert_all(Contents::Read(b"abc\n".to_vec(), b"abd\n".to_vec())).unwrap_err();
    assert_eq!(err.kind(), AssertionKind::Content);
    let e = pair(Some(FileKind::File), Some(FileKind::File));
    let err = e.assert_all(Contents::Read(b"abc".to_vec(), b"abc\n".to_vec())).unwrap_err();
    assert_eq!(err.kind(), AssertionKind::Content);
}

#[test]
fn unreadable_file_is_a_content_difference_with_cause() {
    let e = pair(Some(FileKind::File), Some(FileKind::File));
    let err = e.assert_all(Contents::Failed(io_error())).unwrap_err();
    match err.cause() {
        Some(IoError::Io(inner)) => assert_eq!(inner.to_string(), "oh no!"),
        _ => panic!("expected an I/O cause"),
    }
    assert_eq!(err.kind(), AssertionKind::Content);
}

#[test]
fn same_kind_directories_pass() {
    let e = pair(Some(FileKind::Dir), Some(FileKind::Dir));
    assert!(e.assert_all(Contents::Unread).is_ok());
}

#[test]
fn granular_checks() {
    let e = pair(Some(FileKind::File), None);
    assert_eq!(e.assert_exists().unwrap_err().kind(), AssertionKind::Missing);
    let e = pair(Some(FileKind::File), None);
    let e = e.assert_file_type().unwrap();
    let e = e.assert_content(Contents::Unread).unwrap();
    assert_eq!(e.right().file_type(), None);

    let e = pair(Some(FileKind::Dir), Some(FileKind::File));
    let e = e.assert_exists().unwrap();
    assert_eq!(e.assert_file_type().unwrap_err().kind(), AssertionKind::FileType);

    let e = pair(Some(FileKind::File), Some(FileKind::File));
    let e = e.assert_file_type().unwrap();
    assert_eq!(
        e.assert_content(Contents::Read(vec![1], vec![2])).unwrap_err().kind(),
        AssertionKind::Content
    );
}

#[test]
fn error_keeps_entry_message_and_cause() {
    let e = pair(Some(FileKind::Fifo), Some(FileKind::Socket));
    let err = e.into_error(AssertionKind::FileType);
    assert!(err.msg().is_none());
    let err = err.with_msg("types".to_string()).with_cause(io_error());
    assert_eq!(err.msg().map(|m| m.as_str()), Some("types"));
    assert!(err.cause().is_some());
    assert_eq!(err.entry().left().file_type(), Some(FileKind::Fifo));
    assert_eq!(err.entry().right().file_type(), Some(FileKind::Socket));
    assert_eq!(err.kind(), AssertionKind::FileType);
}

#[test]
fn dir_entry_accessors() {
    let e = DirEntry::existing(path("top/sub/name.txt"), FileKind::File);
    assert_eq!(e.file_type(), Some(FileKind::File));
    assert!(e.file_type().unwrap().is_file());
    assert_eq!(e.file_name().len(), 1);
    assert!(matches!(&e.file_name()[0], Component::Normal(s) if s == "name.txt"));
    assert_eq!(e.path().len(), 3);

    let root = DirEntry::missing(vec![Component::RootDir]);
    assert_eq!(root.file_type(), None);
    assert!(matches!(root.file_name()[..], [Component::RootDir]));

    let up = DirEntry::missing(vec![Component::Normal("a".to_string()), Component::ParentDir]);
    assert_eq!(up.file_name().len(), 2);
    assert!(FileKind::Dir.is_dir() && FileKind::Symlink.is_symlink() && !FileKind::Dir.is_file());
}

#[test]
fn new_pairs_two_entries() {
    let e = DiffEntry::new(DirEntry::missing(path("l/q")), DirEntry::existing(path("r/q"), FileKind::Dir));
    assert_eq!(e.assert_exists().unwrap_err().kind(), AssertionKind::Missing);
}

#[test]
fn component_helpers() {
    let a = Component::Normal("x".to_string());
    assert!(a.same(&a.duplicate()));
    assert!(!a.same(&Component::Normal("y".to_string())));
    assert!(!a.same(&Component::CurDir));
    assert!(a.is_normal() && !Component::ParentDir.is_normal());
}
