use ferry_runtime::core_errors::OpError;
use ferry_runtime::folder::{
    after_page, join, FoundFile, ListRecursiveError, Paged, Paging, Walk, MAX_FOLDER_DEPTH,
    MAX_FOLDER_FILES,
};
use ferry_runtime::limits::{MAX_LIST_ENTRIES, MAX_LIST_PAGES};
use ferry_runtime::path::RemotePath;
use ferry_runtime::types::{Entry, EntryKind};
use std::collections::BTreeMap;

/// A tree of files in memory, whose folders are listed on one page.
struct MemoryFs {
    files: BTreeMap<String, u64>,
    dirs: BTreeMap<String, ()>,
}

impl MemoryFs {
    fn new() -> MemoryFs {
        MemoryFs { files: BTreeMap::new(), dirs: BTreeMap::new() }
    }

    fn insert_dir(&mut self, path: &str) {
        let mut upto = String::new();
        for part in path.split('/') {
            if !upto.is_empty() {
                upto.push('/');
            }
            upto.push_str(part);
            self.dirs.insert(upto.clone(), ());
        }
    }

    fn insert_file(&mut self, path: &str, bytes: Vec<u8>) {
        if let Some((dir, _)) = path.rsplit_once('/') {
            self.insert_dir(dir);
        }
        self.files.insert(path.to_owned(), bytes.len() as u64);
    }

    fn list(&self, dir: &str) -> Vec<Entry> {
        let mut found: BTreeMap<String, Entry> = BTreeMap::new();
        let prefix = format!("{dir}/");
        for (path, size) in &self.files {
            if let Some(name) = path.strip_prefix(&prefix) {
                if !name.contains('/') {
                    found.insert(name.to_owned(), Entry {
                        name: name.to_owned(),
                        kind: EntryKind::File,
                        size: *size,
                        modified_unix_secs: 0,
                    });
                }
            }
        }
        for path in self.dirs.keys() {
            if let Some(name) = path.strip_prefix(&prefix) {
                if !name.contains('/') {
                    found.insert(name.to_owned(), Entry {
                        name: name.to_owned(),
                        kind: EntryKind::Directory,
                        size: 0,
                        modified_unix_secs: 0,
                    });
                }
            }
        }
        found.into_values().collect()
    }
}

fn list_recursive(fs: &MemoryFs, root: &RemotePath) -> Result<Vec<FoundFile>, ListRecursiveError> {
    let mut walk = Walk::start(root);
    loop {
        let page = match walk.request() {
            None => break,
            Some((dir, _cursor)) => fs.list(dir.as_str()),
        };
        walk.feed(page, None)?;
    }
    Ok(walk.into_found().0)
}

fn path(text: &str) -> RemotePath {
    RemotePath::parse(text).expect("a valid path")
}

#[test]
fn a_folder_within_bounds_lists_every_file_with_its_relative_path() {
    let mut fs = MemoryFs::new();
    fs.insert_file("Camera/a.jpg", b"a".to_vec());
    fs.insert_file("Camera/b.jpg", b"b".to_vec());
    fs.insert_dir("Camera/sub");
    fs.insert_file("Camera/sub/c.jpg", b"c".to_vec());

    let files = list_recursive(&fs, &path("Camera")).expect("within bounds");
    let names: Vec<String> = files.iter().map(|f| f.path.as_str().to_owned()).collect();
    assert_eq!(
        names,
        vec![
            "Camera/a.jpg".to_owned(),
            "Camera/b.jpg".to_owned(),
            "Camera/sub/c.jpg".to_owned(),
        ],
        "every file is found, each with its full path from the fs root"
    );
    let sizes: Vec<u64> = files.iter().map(|f| f.size).collect();
    assert_eq!(sizes, vec![1, 1, 1], "each file's size travels with its path");
}

#[test]
fn an_empty_folder_lists_no_files() {
    let mut fs = MemoryFs::new();
    fs.insert_dir("Camera");
    let files = list_recursive(&fs, &path("Camera")).expect("an empty folder is within bounds");
    assert!(files.is_empty());
}

#[test]
fn exactly_the_file_cap_is_within_bounds() {
    let mut fs = MemoryFs::new();
    for i in 0..MAX_FOLDER_FILES {
        fs.insert_file(&format!("Camera/{i:05}.jpg"), Vec::new());
    }
    let files = list_recursive(&fs, &path("Camera")).expect("exactly at the cap");
    assert_eq!(files.len(), MAX_FOLDER_FILES);
}

#[test]
fn folder_one_file_over_the_cap_is_too_large() {
    let mut fs = MemoryFs::new();
    for i in 0..=MAX_FOLDER_FILES {
        fs.insert_file(&format!("Camera/{i:05}.jpg"), Vec::new());
    }
    let error = list_recursive(&fs, &path("Camera")).expect_err("one over the cap");
    assert!(matches!(error, ListRecursiveError::TooLarge));
}

#[test]
fn nested_exactly_to_the_depth_cap_is_within_bounds() {
    let mut fs = MemoryFs::new();
    let mut path_text = "Camera".to_owned();
    for _ in 1..MAX_FOLDER_DEPTH {
        path_text.push_str("/Sub");
    }
    fs.insert_file(&format!("{path_text}/deep.jpg"), Vec::new());

    let files = list_recursive(&fs, &path("Camera")).expect("exactly at the depth cap");
    assert_eq!(files.len(), 1);
}

#[test]
fn one_folder_deeper_than_the_cap_is_too_large() {
    let mut fs = MemoryFs::new();
    let mut path_text = "Camera".to_owned();
    for _ in 1..=MAX_FOLDER_DEPTH {
        path_text.push_str("/Sub");
    }
    fs.insert_file(&format!("{path_text}/deep.jpg"), Vec::new());

    let error = list_recursive(&fs, &path("Camera")).expect_err("one folder past the cap");
    assert!(matches!(error, ListRecursiveError::TooLarge));
}

#[test]
fn a_name_that_climbs_out_of_its_folder_ends_the_walk() {
    let mut walk = Walk::start(&path("Camera"));
    let bad = Entry {
        name: "..".to_owned(),
        kind: EntryKind::File,
        size: 1,
        modified_unix_secs: 0,
    };
    let fed = walk.feed(vec![bad], None);
    assert!(matches!(fed, Err(ListRecursiveError::Op(OpError::InvalidPath))));
    assert!(join(&path("Camera"), "..").is_err());
    assert_eq!(join(&path("Camera"), "a").unwrap().as_str(), "Camera/a");
}

#[test]
fn a_listing_ends_when_its_cursor_does_not_move_on() {
    assert!(matches!(after_page(5, None, 0, 0), Ok(None)));
    assert!(matches!(after_page(5, Some(6), 0, 0), Ok(Some(6))));
    assert!(after_page(5, Some(6), MAX_LIST_PAGES, 0).is_err());
    assert!(after_page(5, Some(6), 0, MAX_LIST_ENTRIES + 1).is_err());
}

#[test]
fn pages_come_together_in_order() {
    let file = |name: &str| Entry {
        name: name.to_owned(),
        kind: EntryKind::File,
        size: 0,
        modified_unix_secs: 0,
    };
    let mut paging = Paging::new();
    assert_eq!(paging.cursor(), 0);
    assert!(matches!(paging.take(vec![file("a")], Some(1)), Paged::More));
    assert_eq!(paging.cursor(), 1);
    assert!(matches!(paging.take(vec![file("b")], None), Paged::Whole));
    let names: Vec<String> = paging.into_entries().into_iter().map(|e| e.name).collect();
    assert_eq!(names, vec!["a".to_owned(), "b".to_owned()]);
}

#[test]
fn a_walk_over_pages_finds_every_file_once_and_in_order() {
    let file = |name: &str| Entry {
        name: name.to_owned(),
        kind: EntryKind::File,
        size: 1,
        modified_unix_secs: 0,
    };
    let dir = |name: &str| Entry { kind: EntryKind::Directory, ..file(name) };
    let mut walk = Walk::start(&path("Camera"));
    let mut asked = Vec::new();
    loop {
        let (entries, next) = match walk.request() {
            None => break,
            Some((at, cursor)) => {
                asked.push(format!("{}@{cursor}", at.as_str()));
                match (at.as_str(), cursor) {
                    ("Camera", 0) => (vec![file("a"), dir("sub"), file("b")], Some(3)),
                    ("Camera", 3) => (vec![file("c")], None),
                    ("Camera/sub", 0) => (vec![file("x")], Some(1)),
                    ("Camera/sub", 1) => (vec![dir("deep"), file("y")], None),
                    _ => (Vec::new(), None),
                }
            }
        };
        walk.feed(entries, next).expect("within bounds");
    }
    assert_eq!(
        asked,
        ["Camera@0", "Camera/sub@0", "Camera/sub@1", "Camera/sub/deep@0", "Camera@3"]
    );
    let (files, dirs) = walk.into_found();
    let files: Vec<&str> = files.iter().map(|f| f.path.as_str()).collect();
    let dirs: Vec<&str> = dirs.iter().map(|d| d.as_str()).collect();
    assert_eq!(files, ["Camera/a", "Camera/sub/x", "Camera/sub/y", "Camera/b", "Camera/c"]);
    assert_eq!(dirs, ["Camera/sub/deep", "Camera/sub", "Camera"]);
}
