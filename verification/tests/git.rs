use std::collections::{BTreeMap, BTreeSet};

use mairu::git::{main_checkout_equivalent, resolve, Answer, Lookup, Query};
use mairu::path::UnixPath;

fn unix(s: &str) -> UnixPath {
    UnixPath { bytes: s.as_bytes().to_vec() }
}

fn show(p: &UnixPath) -> String {
    String::from_utf8(p.bytes.clone()).unwrap()
}

fn join(a: &str, b: &str) -> String {
    format!("{a}/{b}")
}

/// Directories and files in memory.
struct Files {
    directories: BTreeSet<String>,
    files: BTreeMap<String, String>,
    devices: BTreeMap<String, u64>,
    links: BTreeMap<String, String>,
    asked: Vec<String>,
}

impl Files {
    fn new(root: &str) -> Files {
        let mut fs = Files {
            directories: BTreeSet::new(),
            files: BTreeMap::new(),
            devices: BTreeMap::new(),
            links: BTreeMap::new(),
            asked: Vec::new(),
        };
        fs.create_dir_all(root);
        fs
    }

    fn create_dir_all(&mut self, dir: &str) {
        let mut at = String::new();
        self.directories.insert("/".to_string());
        for name in dir.split('/').filter(|n| !n.is_empty()) {
            at = join(&at, name);
            self.directories.insert(at.clone());
        }
    }

    fn write(&mut self, file: &str, contents: &str) {
        self.files.insert(file.to_string(), contents.to_string());
    }

    fn has(&self, p: &str) -> bool {
        self.directories.contains(p) || self.files.contains_key(p)
    }

    /// Takes a relative path from the directory `/scratch/here`; the empty path leads nowhere.
    fn locate(&self, p: &str) -> String {
        if p.is_empty() || p.starts_with('/') {
            return p.to_string();
        }
        let mut at = "/scratch/here".to_string();
        for name in p.split('/').filter(|n| !n.is_empty() && *n != ".") {
            at = join(&at, name);
        }
        at
    }

    fn canonicalize(&self, p: &str) -> Option<String> {
        let p = self.locate(p);
        if p.is_empty() {
            return None;
        }
        let mut at: Vec<String> = Vec::new();
        for name in p.split('/') {
            match name {
                "" | "." => {}
                ".." => {
                    at.pop();
                }
                _ => {
                    at.push(name.to_string());
                    if let Some(target) = self.links.get(&format!("/{}", at.join("/"))) {
                        at = target.split('/').filter(|n| !n.is_empty()).map(|n| n.to_string()).collect();
                    }
                }
            }
            if !self.has(&format!("/{}", at.join("/"))) {
                return None;
            }
        }
        Some(format!("/{}", at.join("/")))
    }

    fn answer(&mut self, query: Query<UnixPath>) -> Answer<UnixPath, String> {
        match query {
            Query::Device(p) => {
                let p = show(&p);
                self.asked.push(format!("device {p}"));
                if !self.has(&self.locate(&p)) {
                    return Answer::Device(None);
                }
                Answer::Device(Some(self.devices.get(&p).copied().unwrap_or(1)))
            }
            Query::IsDir(p) => Answer::IsDir(self.directories.contains(&self.locate(&show(&p)))),
            Query::IsFile(p) => Answer::IsFile(self.files.contains_key(&self.locate(&show(&p)))),
            Query::ReadText(p) => Answer::Text(self.files.get(&self.locate(&show(&p))).cloned()),
            Query::Canonicalize(p) => {
                Answer::Canonical(self.canonicalize(&show(&p)).map(|p| unix(&p)))
            }
        }
    }
}

fn equivalent(fs: &mut Files, path: &str) -> Option<String> {
    let mut lookup = main_checkout_equivalent(&unix(path));
    while let Some(query) = lookup.query() {
        let answer = fs.answer(query);
        lookup = lookup.resume(answer);
    }
    match lookup {
        Lookup::Done(found) => found.map(|p| show(&p)),
        _ => panic!("no question, but not done"),
    }
}

/// Builds `<root>/main/.git/worktrees/wt` plus `<root>/wt/.git` pointing at it, and returns
/// (main checkout root, linked worktree root).
fn fake_worktree(fs: &mut Files, root: &str) -> (String, String) {
    let main_root = join(root, "main");
    let gitdir = join(&join(&join(&main_root, ".git"), "worktrees"), "wt");
    fs.create_dir_all(&gitdir);
    fs.write(&join(&gitdir, "commondir"), "../..\n");

    let worktree_root = join(root, "wt");
    fs.create_dir_all(&worktree_root);
    fs.write(&join(&worktree_root, ".git"), &format!("gitdir: {gitdir}\n"));
    fs.write(&join(&gitdir, "gitdir"), &format!("{}\n", join(&worktree_root, ".git")));

    (main_root, worktree_root)
}

#[test]
fn maps_linked_worktree_to_main_checkout() {
    let root = "/scratch/linked";
    let mut fs = Files::new(root);
    let (main_root, worktree_root) = fake_worktree(&mut fs, root);
    fs.create_dir_all(&join(&worktree_root, "sub"));

    assert_eq!(
        equivalent(&mut fs, &join(&join(&worktree_root, "sub"), ".mairu.json")),
        Some(join(&join(&main_root, "sub"), ".mairu.json"))
    );
}

#[test]
fn returns_none_for_main_checkout() {
    let root = "/scratch/main";
    let mut fs = Files::new(root);
    let (main_root, _) = fake_worktree(&mut fs, root);

    assert_eq!(equivalent(&mut fs, &join(&main_root, ".mairu.json")), None);
}

#[test]
fn returns_none_outside_repository() {
    let root = "/scratch/bare";
    let mut fs = Files::new(root);
    fs.create_dir_all(&join(root, "plain"));

    assert_eq!(equivalent(&mut fs, &join(&join(root, "plain"), ".mairu.json")), None);
}

#[test]
fn returns_none_when_gitdir_is_not_a_worktree() {
    let root = "/scratch/submodule";
    let mut fs = Files::new(root);
    let gitdir = join(&join(&join(&join(root, "main"), ".git"), "modules"), "sub");
    fs.create_dir_all(&gitdir);
    fs.write(&join(&gitdir, "commondir"), "../..\n");

    let submodule_root = join(&join(root, "main"), "sub");
    fs.create_dir_all(&submodule_root);
    fs.write(&join(&submodule_root, ".git"), &format!("gitdir: {gitdir}\n"));

    assert_eq!(equivalent(&mut fs, &join(&submodule_root, ".mairu.json")), None);
}

/// A directory that is not registered in the main checkout must not inherit its trust, even
/// though every file it controls claims the relationship.
#[test]
fn returns_none_when_gitdir_is_outside_the_common_dir() {
    let root = "/scratch/forged";
    let mut fs = Files::new(root);
    let (main_root, _) = fake_worktree(&mut fs, root);

    let gitdir = join(&join(&join(root, "forged-meta"), "worktrees"), "wt");
    fs.create_dir_all(&gitdir);
    fs.write(&join(&gitdir, "commondir"), &format!("{}\n", join(&main_root, ".git")));

    let forged_root = join(root, "forged");
    fs.create_dir_all(&forged_root);
    fs.write(&join(&forged_root, ".git"), &format!("gitdir: {gitdir}\n"));
    fs.write(&join(&gitdir, "gitdir"), &format!("{}\n", join(&forged_root, ".git")));

    assert_eq!(equivalent(&mut fs, &join(&forged_root, ".mairu.json")), None);
}

/// Pointing at a worktree the main checkout does register is not enough either: its
/// administrative `gitdir` file names the one directory allowed to claim it.
#[test]
fn returns_none_when_the_registered_worktree_points_elsewhere() {
    let root = "/scratch/hijack";
    let mut fs = Files::new(root);
    let (main_root, _) = fake_worktree(&mut fs, root);

    let hijack_root = join(root, "hijack");
    fs.create_dir_all(&hijack_root);
    fs.write(
        &join(&hijack_root, ".git"),
        &format!("gitdir: {}\n", join(&join(&join(&main_root, ".git"), "worktrees"), "wt")),
    );

    assert_eq!(equivalent(&mut fs, &join(&hijack_root, ".mairu.json")), None);
}

#[test]
fn supports_relative_gitdir() {
    let root = "/scratch/relative";
    let mut fs = Files::new(root);
    let main_root = join(root, "main");
    let gitdir = join(&join(&join(&main_root, ".git"), "worktrees"), "wt");
    fs.create_dir_all(&gitdir);
    fs.write(&join(&gitdir, "commondir"), "../..\n");

    let worktree_root = join(root, "wt");
    fs.create_dir_all(&worktree_root);
    fs.write(&join(&worktree_root, ".git"), "gitdir: ../main/.git/worktrees/wt\n");
    fs.write(&join(&gitdir, "gitdir"), "../../../../wt/.git\n");

    assert_eq!(
        equivalent(&mut fs, &join(&worktree_root, ".mairu.json")),
        Some(join(&main_root, ".mairu.json"))
    );
}

#[test]
fn stops_where_the_device_changes() {
    let root = "/scratch/mount";
    let mut fs = Files::new(root);
    let (_, worktree_root) = fake_worktree(&mut fs, root);
    let mounted = join(&worktree_root, "mounted");
    fs.create_dir_all(&mounted);
    fs.devices.insert(mounted.clone(), 2);

    assert_eq!(equivalent(&mut fs, &join(&mounted, ".mairu.json")), None);
    assert_eq!(
        fs.asked,
        vec![
            format!("device {mounted}"),
            format!("device {mounted}"),
            format!("device {worktree_root}"),
        ]
    );
}

#[test]
fn stops_at_a_nearer_git_directory() {
    let root = "/scratch/nested";
    let mut fs = Files::new(root);
    let (_, worktree_root) = fake_worktree(&mut fs, root);
    let inner = join(&worktree_root, "inner");
    fs.create_dir_all(&join(&inner, ".git"));

    assert_eq!(equivalent(&mut fs, &join(&inner, ".mairu.json")), None);
}

#[test]
fn passes_a_nearer_git_file_that_leads_nowhere() {
    let root = "/scratch/passed";
    let mut fs = Files::new(root);
    let (main_root, worktree_root) = fake_worktree(&mut fs, root);
    let inner = join(&worktree_root, "inner");
    fs.create_dir_all(&inner);
    fs.write(&join(&inner, ".git"), "something else\n");

    assert_eq!(
        equivalent(&mut fs, &join(&inner, ".mairu.json")),
        Some(join(&join(&main_root, "inner"), ".mairu.json"))
    );
}

#[test]
fn returns_none_when_the_directory_is_missing() {
    let mut fs = Files::new("/scratch");
    assert_eq!(equivalent(&mut fs, "/scratch/missing/.mairu.json"), None);
}

#[test]
fn returns_none_without_a_parent() {
    let mut fs = Files::new("/scratch");
    assert_eq!(equivalent(&mut fs, "/"), None);
    assert_eq!(equivalent(&mut fs, ""), None);
    assert!(fs.asked.is_empty());
}

#[test]
fn returns_none_when_the_common_directory_has_another_name() {
    let root = "/scratch/named";
    let mut fs = Files::new(root);
    let gitdir = join(root, "main.git/worktrees/wt");
    fs.create_dir_all(&gitdir);
    fs.write(&join(&gitdir, "commondir"), "../..\n");
    let worktree_root = join(root, "wt");
    fs.create_dir_all(&worktree_root);
    fs.write(&join(&worktree_root, ".git"), &format!("gitdir: {gitdir}\n"));
    fs.write(&join(&gitdir, "gitdir"), &format!("{}\n", join(&worktree_root, ".git")));

    assert_eq!(equivalent(&mut fs, &join(&worktree_root, ".mairu.json")), None);
}

/// A `.git` file that is, at the same time, the common directory it points into.
#[test]
fn returns_none_when_the_equivalent_is_the_path_itself() {
    let root = "/scratch/itself";
    let mut fs = Files::new(root);
    let dotgit = join(root, ".git");
    let gitdir = join(&dotgit, "worktrees/wt");
    fs.directories.insert(join(&dotgit, "worktrees"));
    fs.directories.insert(gitdir.clone());
    fs.write(&dotgit, &format!("gitdir:{gitdir}"));
    fs.write(&join(&gitdir, "commondir"), "../..");
    fs.write(&join(&gitdir, "gitdir"), &dotgit);

    assert_eq!(equivalent(&mut fs, &join(root, ".mairu.json")), None);

    let mut moved = Files::new(root);
    let main = "/scratch/main/.git";
    let gitdir = join(main, "worktrees/wt");
    moved.create_dir_all(&gitdir);
    moved.write(&dotgit, &format!("gitdir:{gitdir}"));
    moved.write(&join(&gitdir, "commondir"), "../..");
    moved.write(&join(&gitdir, "gitdir"), &dotgit);

    assert_eq!(
        equivalent(&mut moved, &join(root, ".mairu.json")),
        Some("/scratch/main/.mairu.json".to_string())
    );
}

#[test]
fn resolves_links_on_the_way() {
    let root = "/scratch/links";
    let mut fs = Files::new(root);
    let (main_root, worktree_root) = fake_worktree(&mut fs, root);
    fs.links.insert("/alias".to_string(), join(&main_root, ".git/worktrees/wt"));
    fs.write(&join(&worktree_root, ".git"), "gitdir: \u{3000}/alias\t\r\n");

    assert_eq!(
        equivalent(&mut fs, &join(&worktree_root, ".mairu.json")),
        Some(join(&main_root, ".mairu.json"))
    );
}

#[test]
fn an_answer_of_another_kind_changes_nothing() {
    let lookup = main_checkout_equivalent(&unix("/a/b"));
    let lookup = lookup.resume(Answer::IsDir(true));
    match lookup.query() {
        Some(Query::Device(p)) => assert_eq!(show(&p), "/a"),
        other => panic!("{other:?}"),
    }
}

#[test]
fn pointers_are_taken_relative_to_their_base() {
    assert_eq!(show(&resolve(" ../x\n", &unix("/a/b"))), "/a/b/../x");
    assert_eq!(show(&resolve("/x\n", &unix("/a/b"))), "/x");
    assert_eq!(show(&resolve("\n", &unix("/a/b"))), "/a/b/");
}

#[test]
fn a_resolved_path_resolves_to_itself() {
    let root = "/scratch/fixed";
    let mut fs = Files::new(root);
    fs.create_dir_all("/scratch/fixed/a/b");
    let resolved = fs.canonicalize(&show(&resolve("../b/.\n", &unix("/scratch/fixed/a/b")))).unwrap();
    assert_eq!(resolved, "/scratch/fixed/a/b");
    for base in ["/", "/elsewhere", "relative", ""] {
        assert_eq!(show(&resolve(&resolved, &unix(base))), resolved);
        assert_eq!(fs.canonicalize(&show(&resolve(&resolved, &unix(base)))), Some(resolved.clone()));
    }
}

#[test]
fn the_equivalent_keeps_its_place_below_the_checkout() {
    let root = "/scratch/place";
    let mut fs = Files::new(root);
    let (main_root, worktree_root) = fake_worktree(&mut fs, root);
    fs.create_dir_all(&join(&worktree_root, "sub/deep"));
    for below in [".mairu.json", "sub/.mairu.json", "sub/deep/other"] {
        let found = equivalent(&mut fs, &join(&worktree_root, below)).unwrap();
        assert!(found.starts_with('/'));
        assert_eq!(found, join(&main_root, below));
        assert_eq!(found.rsplit('/').next(), below.rsplit('/').next());
    }
}

#[test]
fn the_equivalent_of_a_relative_path_is_absolute() {
    let root = "/scratch/here";
    let mut fs = Files::new(root);
    let (main_root, worktree_root) = fake_worktree(&mut fs, root);
    fs.create_dir_all(&join(&worktree_root, "sub"));
    for (path, below) in [
        ("wt/.mairu.json", ".mairu.json"),
        ("./wt/.mairu.json", ".mairu.json"),
        ("wt/sub/.mairu.json", "sub/.mairu.json"),
    ] {
        assert_eq!(equivalent(&mut fs, path), Some(join(&main_root, below)));
    }
    assert_eq!(equivalent(&mut fs, ".mairu.json"), None);
}

#[test]
fn a_leading_dot_counts_as_the_root_of_a_worktree() {
    let root = "/scratch";
    let mut fs = Files::new(root);
    let gitdir = "/scratch/main/.git/worktrees/here";
    fs.create_dir_all(gitdir);
    fs.create_dir_all("/scratch/here");
    fs.write("/scratch/main/.git/worktrees/here/commondir", "../..\n");
    fs.write("/scratch/main/.git/worktrees/here/gitdir", "/scratch/here/.git\n");
    fs.write("/scratch/here/.git", &format!("gitdir: {gitdir}\n"));
    assert_eq!(equivalent(&mut fs, "./.mairu.json"), Some("/scratch/main/.mairu.json".to_string()));
    assert_eq!(equivalent(&mut fs, ".mairu.json"), None);
}
