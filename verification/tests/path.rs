use imgdupes::path::{walk_files, walk_files_in_dir, InputPath, WalkEntry};

fn file(path: &str) -> WalkEntry {
    WalkEntry::Found { path: path.to_string(), is_dir: false }
}

fn dir(path: &str) -> WalkEntry {
    WalkEntry::Found { path: path.to_string(), is_dir: true }
}

fn plain(path: &str) -> InputPath {
    InputPath { path: path.to_string(), is_dir: false, entries: Vec::new() }
}

fn folder(path: &str, entries: Vec<WalkEntry>) -> InputPath {
    InputPath { path: path.to_string(), is_dir: true, entries }
}

#[test]
fn walk_files_of_nothing() {
    assert_eq!(walk_files(Vec::new()), Vec::<String>::new());
}

#[test]
fn walk_files_keeps_plain_paths_as_given() {
    let files = walk_files(vec![plain("b.png"), plain("./a.png"), plain("missing")]);
    assert_eq!(files, vec!["b.png", "./a.png", "missing"]);
}

#[test]
fn walk_files_expands_a_directory_in_place() {
    let files = walk_files(vec![
        plain("first.png"),
        folder("pics", vec![dir("pics"), file("pics/a.png"), dir("pics/sub"), file("pics/sub/b.jpg")]),
        plain("last.png"),
    ]);
    assert_eq!(files, vec!["first.png", "pics/a.png", "pics/sub/b.jpg", "last.png"]);
}

#[test]
fn walk_files_leaves_the_directory_itself_out() {
    let files = walk_files(vec![folder("empty", vec![dir("empty")])]);
    assert_eq!(files, Vec::<String>::new());
}

#[test]
fn walk_files_ignores_entries_of_a_plain_path() {
    let input = InputPath {
        path: "a.png".to_string(),
        is_dir: false,
        entries: vec![file("other.png")],
    };
    assert_eq!(walk_files(vec![input]), vec!["a.png"]);
}

#[test]
fn walk_files_in_dir_of_nothing() {
    assert_eq!(walk_files_in_dir(Vec::new()), Vec::<String>::new());
}

#[test]
fn walk_files_in_dir_skips_directories_and_unreadable_entries() {
    let files = walk_files_in_dir(vec![
        dir("root"),
        file("root/z.png"),
        WalkEntry::Unreadable,
        dir("root/sub"),
        file("root/sub/a.txt"),
        WalkEntry::Unreadable,
        file("root/b.gif"),
    ]);
    assert_eq!(files, vec!["root/z.png", "root/sub/a.txt", "root/b.gif"]);
}

#[test]
fn walk_files_in_dir_keeps_the_order_of_the_walk() {
    let files = walk_files_in_dir(vec![file("c"), file("a"), file("b")]);
    assert_eq!(files, vec!["c", "a", "b"]);
}
