use dir_browser::fs_tree::{aggregate_size, FsNode};
use dir_browser::listing::{list_dir, FileItem, FileList, ScanError};
use dir_browser::nav::{NavError, NavigationState};

fn file(name: &str, size: u64) -> FsNode {
    FsNode::File { name: name.to_string(), byte_size: size }
}

fn dir(name: &str, children: Vec<FsNode>) -> FsNode {
    FsNode::Dir { name: name.to_string(), children }
}

fn unreadable(name: &str) -> FsNode {
    FsNode::Unreadable { name: name.to_string() }
}

fn segs(parts: &[&str]) -> Vec<String> {
    parts.iter().map(|p| p.to_string()).collect()
}

/// The tree used by most scenarios: `/root` holds `f.txt` (10 bytes) and
/// `sub`, which holds `g.txt` (5 bytes).
fn sample_tree() -> FsNode {
    dir(
        "",
        vec![dir(
            "root",
            vec![file("f.txt", 10), dir("sub", vec![file("g.txt", 5)])],
        )],
    )
}

#[test]
fn aggregate_dir_equals_sum_of_children() {
    let root = dir(
        "root",
        vec![file("f.txt", 10), dir("sub", vec![file("g.txt", 5)])],
    );
    let child_sum =
        aggregate_size(&file("f.txt", 10)) + aggregate_size(&dir("sub", vec![file("g.txt", 5)]));
    assert_eq!(aggregate_size(&root), child_sum);
    assert_eq!(aggregate_size(&root), 15);
}

#[test]
fn aggregate_skips_unreadable_descendants() {
    let root = dir(
        "root",
        vec![
            file("f.txt", 10),
            unreadable("secret"),
            dir("sub", vec![file("g.txt", 5), unreadable("hidden")]),
        ],
    );
    assert_eq!(aggregate_size(&root), 15);
}

#[test]
fn aggregate_of_empty_dir_is_zero() {
    assert_eq!(aggregate_size(&dir("empty", vec![])), 0);
    assert_eq!(aggregate_size(&unreadable("locked")), 0);
    assert_eq!(aggregate_size(&file("f", 7)), 7);
}

#[test]
fn scan_lists_entries_with_sizes() {
    let tree = sample_tree();
    let items = list_dir(&tree, &segs(&["root"])).unwrap();
    assert_eq!(items.len(), 2);
    assert_eq!(items[0].name(), "f.txt");
    assert_eq!(items[0].byte_size, 10);
    assert!(!items[0].is_dir());
    assert_eq!(items[1].name(), "sub");
    assert_eq!(items[1].byte_size, 5);
    assert!(items[1].is_dir());
}

#[test]
fn scan_omits_unreadable_children() {
    let tree = dir("", vec![dir("root", vec![unreadable("x"), file("f", 1)])]);
    let items = list_dir(&tree, &segs(&["root"])).unwrap();
    assert_eq!(items.len(), 1);
    assert_eq!(items[0].name(), "f");
}

#[test]
fn scan_errors_name_the_cause() {
    let tree = dir(
        "",
        vec![file("f.txt", 1), unreadable("locked"), dir("root", vec![])],
    );
    assert_eq!(
        list_dir(&tree, &segs(&["missing"])).unwrap_err(),
        ScanError::NotFound
    );
    assert_eq!(
        list_dir(&tree, &segs(&["locked"])).unwrap_err(),
        ScanError::Unreadable
    );
    assert_eq!(
        list_dir(&tree, &segs(&["f.txt"])).unwrap_err(),
        ScanError::NotADirectory
    );
}

#[test]
fn size_is_rendered_as_text() {
    let it = FileItem { name: "f".to_string(), byte_size: 200, is_dir: false };
    assert_eq!(it.size(), "200 bytes");
    let big = FileItem { name: "g".to_string(), byte_size: 2048 * 1024, is_dir: false };
    assert_eq!(big.size(), "2.00 MiB");
}

#[test]
fn file_list_from_path_starts_unselected() {
    let tree = sample_tree();
    let fl = FileList::from_path(&tree, &segs(&["root"]));
    assert_eq!(fl.state, None);
    assert_eq!(fl.files.len(), 2);
}

#[test]
fn selection_clamps_at_both_ends() {
    let tree = sample_tree();
    let mut fl = FileList::from_path(&tree, &segs(&["root"]));
    fl.select_previous();
    assert_eq!(fl.selected(), Some(1));
    fl.select_previous();
    assert_eq!(fl.selected(), Some(0));
    fl.select_previous();
    assert_eq!(fl.selected(), Some(0));
    fl.select_next();
    assert_eq!(fl.selected(), Some(1));
    fl.select_next();
    assert_eq!(fl.selected(), Some(1));
}

#[test]
fn selection_on_empty_listing_stays_clear() {
    let mut fl = FileList { files: vec![], state: None };
    fl.select_next();
    assert_eq!(fl.selected(), None);
    fl.select_previous();
    assert_eq!(fl.selected(), None);
}

#[test]
fn enter_directory_resets_cursor_and_rescans() {
    let tree = sample_tree();
    let mut st = NavigationState::new(&tree, segs(&["root"])).unwrap();
    assert_eq!(st.current_path(), "/root");
    st.select_next();
    st.select_next();
    assert_eq!(st.listing.selected(), Some(1));
    st.enter(&tree).unwrap();
    assert_eq!(st.current_path(), "/root/sub");
    assert_eq!(st.stack, segs(&["sub"]));
    assert_eq!(st.listing.state, None);
    assert_eq!(st.listing.files.len(), 1);
    assert_eq!(st.listing.files[0].name(), "g.txt");
}

#[test]
fn go_back_returns_to_parent_with_cursor_reset() {
    let tree = sample_tree();
    let mut st = NavigationState::new(&tree, segs(&["root"])).unwrap();
    st.select_next();
    st.select_next();
    st.enter(&tree).unwrap();
    assert_eq!(st.current_path(), "/root/sub");
    st.go_back(&tree).unwrap();
    assert_eq!(st.current_path(), "/root");
    assert_eq!(st.stack, segs(&[]));
    assert_eq!(st.listing.state, None);
    assert_eq!(st.listing.files.len(), 2);
}

#[test]
fn go_back_ascends_above_the_anchor() {
    let tree = sample_tree();
    let mut st = NavigationState::new(&tree, segs(&["root"])).unwrap();
    st.go_back(&tree).unwrap();
    assert_eq!(st.stack, segs(&[".."]));
    assert_eq!(st.current_path(), "/");
    assert_eq!(st.listing.files.len(), 1);
    assert_eq!(st.listing.files[0].name(), "root");
    assert!(st.listing.files[0].is_dir());
}

#[test]
fn go_back_beyond_the_tree_root_fails_cleanly() {
    let tree = sample_tree();
    let mut st = NavigationState::new(&tree, segs(&["root"])).unwrap();
    st.go_back(&tree).unwrap();
    let err = st.go_back(&tree).unwrap_err();
    assert_eq!(err, NavError::DirectoryUnreadable);
    assert_eq!(st.stack, segs(&[".."]));
    assert_eq!(st.current_path(), "/");
}

#[test]
fn view_file_and_back_preserves_selection() {
    let tree = sample_tree();
    let mut st = NavigationState::new(&tree, segs(&["root"])).unwrap();
    st.select_next();
    assert_eq!(st.listing.selected(), Some(0));
    st.enter(&tree).unwrap();
    assert_eq!(st.open_file, Some("f.txt".to_string()));
    assert_eq!(st.listing.selected(), Some(0));
    assert_eq!(st.stack, segs(&[]));
    st.go_back(&tree).unwrap();
    assert_eq!(st.open_file, None);
    assert_eq!(st.listing.selected(), Some(0));
    assert_eq!(st.current_path(), "/root");
}

#[test]
fn enter_with_no_selection_does_nothing() {
    let tree = sample_tree();
    let mut st = NavigationState::new(&tree, segs(&["root"])).unwrap();
    st.enter(&tree).unwrap();
    assert_eq!(st.current_path(), "/root");
    assert_eq!(st.listing.files.len(), 2);
    assert_eq!(st.open_file, None);
}

#[test]
fn failed_enter_preserves_state() {
    let tree = dir("", vec![dir("root", vec![dir("sub", vec![])])]);
    let mut st = NavigationState::new(&tree, segs(&["root"])).unwrap();
    let changed = dir("", vec![dir("root", vec![])]);
    st.select_next();
    let err = st.enter(&changed).unwrap_err();
    assert_eq!(err, NavError::DirectoryUnreadable);
    assert_eq!(st.current_path(), "/root");
    assert_eq!(st.stack, segs(&[]));
    assert_eq!(st.listing.selected(), Some(0));
    assert_eq!(st.listing.files.len(), 1);
}

#[test]
fn failed_file_open_preserves_state() {
    let tree = dir("", vec![dir("root", vec![file("f.txt", 3)])]);
    let mut st = NavigationState::new(&tree, segs(&["root"])).unwrap();
    let changed = dir("", vec![dir("root", vec![])]);
    st.select_next();
    let err = st.enter(&changed).unwrap_err();
    assert_eq!(err, NavError::FileUnreadable);
    assert_eq!(st.open_file, None);
    assert_eq!(st.current_path(), "/root");
    assert_eq!(st.listing.selected(), Some(0));
}

#[test]
fn new_fails_when_the_anchor_cannot_be_scanned() {
    let tree = sample_tree();
    match NavigationState::new(&tree, segs(&["missing"])) {
        Ok(_) => panic!("scan of a missing anchor must fail"),
        Err(err) => assert_eq!(err, ScanError::NotFound),
    }
}
