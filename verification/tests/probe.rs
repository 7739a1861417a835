use dirwatch::PathKind;
use dirwatch::is_dir;

#[test]
fn is_dir_existing_directory() {
    assert_eq!(is_dir(PathKind::Directory), Ok(true));
}

#[test]
fn is_dir_existing_non_directory() {
    assert_eq!(is_dir(PathKind::Other), Ok(false));
}

#[test]
fn is_dir_unreadable_path() {
    assert_eq!(is_dir(PathKind::Unreadable), Err("Failed to get metadata".to_string()));
}
