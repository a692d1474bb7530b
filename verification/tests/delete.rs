use ferry_runtime::dav::handlers::write::{delete_verb, DeleteAll, DeleteStep};
use ferry_runtime::dav::lock::LockTable;
use ferry_runtime::dav::reply::Outcome;
use ferry_runtime::folder::MAX_FOLDER_FILES;
use ferry_runtime::path::RemotePath;
use ferry_runtime::types::{AccessVerb, Entry, EntryKind};
use std::collections::BTreeMap;

/// A tree of files in memory, whose folders are listed on one page.
struct MemoryFs {
    nodes: BTreeMap<String, EntryKind>,
}

impl MemoryFs {
    fn new() -> MemoryFs {
        MemoryFs { nodes: BTreeMap::new() }
    }

    fn insert_dir(&mut self, path: &str) {
        let mut upto = String::new();
        for part in path.split('/') {
            if !upto.is_empty() {
                upto.push('/');
            }
            upto.push_str(part);
            self.nodes.insert(upto.clone(), EntryKind::Directory);
        }
    }

    fn insert_file(&mut self, path: &str) {
        if let Some((dir, _)) = path.rsplit_once('/') {
            self.insert_dir(dir);
        }
        self.nodes.insert(path.to_owned(), EntryKind::File);
    }

    fn list(&self, dir: &str) -> Vec<Entry> {
        let prefix = format!("{dir}/");
        let mut found = Vec::new();
        for (path, kind) in &self.nodes {
            if let Some(name) = path.strip_prefix(&prefix) {
                if !name.contains('/') {
                    found.push(entry(name, *kind));
                }
            }
        }
        found
    }
}

fn entry(name: &str, kind: EntryKind) -> Entry {
    Entry { name: name.to_owned(), kind, size: 0, modified_unix_secs: 0 }
}

/// What the deletion of the folder comes to: its plan, or the answer.
fn plan(fs: &MemoryFs, folder: &str, locks: &LockTable) -> Result<DeleteAll, Outcome> {
    let mut step = delete_verb(folder, None, locks, 0);
    loop {
        step = match step {
            DeleteStep::Stat(target) => {
                target.described(Ok(entry(folder, EntryKind::Directory)))
            }
            DeleteStep::List(walk) => {
                let page = match walk.walk.request() {
                    Some((dir, _cursor)) => fs.list(dir.as_str()),
                    None => panic!("the walk wants a page"),
                };
                walk.listed(Ok((page, None)), None, locks, 0)
            }
            DeleteStep::Remove(all) => return Ok(all),
            DeleteStep::Answer(outcome) => return Err(outcome),
            _ => panic!("a folder is deleted by a plan"),
        };
    }
}

#[test]
fn a_nested_folder_deletes_leaves_first_then_folders_deepest_first() {
    let mut fs = MemoryFs::new();
    fs.insert_file("Camera/a.jpg");
    fs.insert_dir("Camera/Sub");
    fs.insert_file("Camera/Sub/b.jpg");

    let all = plan(&fs, "Camera", &LockTable::new()).ok().expect("within bounds");
    let mut files: Vec<&str> = all.plan.files.iter().map(|f| f.path.as_str()).collect();
    files.sort_unstable();
    assert_eq!(files, vec!["Camera/Sub/b.jpg", "Camera/a.jpg"]);

    let dirs: Vec<&str> = all.plan.dirs.iter().map(RemotePath::as_str).collect();
    assert_eq!(dirs, vec!["Camera/Sub", "Camera"], "deepest first, root last");
    assert_eq!(all.plan.file_count(), 2);
}

#[test]
fn an_empty_folder_plans_only_itself() {
    let mut fs = MemoryFs::new();
    fs.insert_dir("Camera");
    let all = plan(&fs, "Camera", &LockTable::new()).ok().expect("an empty folder is within bounds");
    assert!(all.plan.files.is_empty());
    assert_eq!(
        all.plan.dirs.iter().map(RemotePath::as_str).collect::<Vec<_>>(),
        vec!["Camera"]
    );
}

#[test]
fn delete_one_file_over_the_cap_is_too_large() {
    let mut fs = MemoryFs::new();
    for i in 0..=MAX_FOLDER_FILES {
        fs.insert_file(&format!("Camera/{i:05}.jpg"));
    }
    let answer = plan(&fs, "Camera", &LockTable::new()).err().expect("one over the cap");
    assert_eq!(answer.reply.status, "507 Insufficient Storage");
}

#[test]
fn a_plan_deletes_its_files_before_its_folders() {
    let mut fs = MemoryFs::new();
    fs.insert_file("Camera/Sub/b.jpg");
    let mut all = plan(&fs, "Camera", &LockTable::new()).ok().expect("within bounds");
    let mut order = Vec::new();
    let outcome = loop {
        order.push(all.next().as_str().to_owned());
        match all.removed(Ok(())) {
            DeleteStep::Remove(next) => all = next,
            DeleteStep::Answer(outcome) => break outcome,
            _ => panic!("a deletion goes on or is over"),
        }
    };
    assert_eq!(order, vec!["Camera/Sub/b.jpg", "Camera/Sub", "Camera"]);
    assert_eq!(outcome.reply.status, "204 No Content");
    assert_eq!(outcome.logged.len(), 1);
    assert_eq!(outcome.logged[0].verb, AccessVerb::Delete);
    assert_eq!(outcome.logged[0].files, Some(1));
}

#[test]
fn a_locked_file_in_the_folder_keeps_the_folder() {
    let mut fs = MemoryFs::new();
    fs.insert_file("Camera/a.jpg");
    let mut locks = LockTable::new();
    locks.lock_path("Camera/a.jpg", 0).unwrap();
    let answer = plan(&fs, "Camera", &locks).err().expect("a file is locked");
    assert_eq!(answer.reply.status, "423 Locked");
}
