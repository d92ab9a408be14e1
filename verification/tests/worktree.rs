use mairu::auto::{Auto, AutoData};
use mairu::git::{Answer, Lookup, Query};
use mairu::path::UnixPath;
use mairu::worktree::EquivalentLookup;

fn unix(s: &str) -> UnixPath {
    UnixPath { bytes: s.as_bytes().to_vec() }
}

fn show(p: &UnixPath) -> String {
    String::from_utf8(p.bytes.clone()).unwrap()
}

fn auto_at(path: &str) -> Auto {
    Auto {
        path: unix(path),
        data: vec![],
        inner: AutoData {
            server: String::new(),
            role: String::new(),
            mode: None,
            assume_role: None,
        },
    }
}

/// Answers for a worktree `/wt` of the main checkout `/main`, with `/link` leading to `/wt`.
fn answer(query: Query<UnixPath>) -> Answer<UnixPath, String> {
    match query {
        Query::Device(_) => Answer::Device(Some(1)),
        Query::IsDir(p) => Answer::IsDir(show(&p) == "/main/.git"),
        Query::IsFile(p) => Answer::IsFile(show(&p) == "/wt/.git"),
        Query::ReadText(p) => Answer::Text(match show(&p).as_str() {
            "/wt/.git" => Some("gitdir: /main/.git/worktrees/wt\n".to_string()),
            "/main/.git/worktrees/wt/commondir" => Some("/main/.git\n".to_string()),
            "/main/.git/worktrees/wt/gitdir" => Some("/wt/.git\n".to_string()),
            _ => None,
        }),
        Query::Canonicalize(p) => Answer::Canonical(match show(&p).as_str() {
            "/link" => Some(unix("/wt")),
            "/missing" => None,
            s => Some(unix(s)),
        }),
    }
}

fn equivalent(path: &str, sharing_disabled: bool) -> Option<String> {
    let mut lookup = auto_at(path).main_checkout_equivalent_path(sharing_disabled);
    while let Some(query) = lookup.query() {
        lookup = lookup.resume(answer(query));
    }
    match lookup {
        EquivalentLookup::Search(Lookup::Done(found)) => found.map(|p| show(&p)),
        _ => panic!("no question, but not done"),
    }
}

#[test]
fn the_directory_is_resolved_but_not_the_file() {
    assert_eq!(equivalent("/link/.mairu.json", false), Some("/main/.mairu.json".to_string()));
    assert_eq!(equivalent("/wt/.mairu.json", false), Some("/main/.mairu.json".to_string()));
}

#[test]
fn sharing_can_be_disabled() {
    assert_eq!(equivalent("/wt/.mairu.json", true), None);
    assert!(auto_at("/wt/.mairu.json").main_checkout_equivalent_path(true).query().is_none());
}

#[test]
fn a_directory_that_cannot_be_resolved_has_no_equivalent() {
    assert_eq!(equivalent("/missing/.mairu.json", false), None);
}

#[test]
fn a_path_without_file_name_has_no_equivalent() {
    assert_eq!(equivalent("/wt/..", false), None);
    assert_eq!(equivalent("/", false), None);
}

#[test]
fn the_main_checkout_has_no_equivalent() {
    assert_eq!(equivalent("/main/.mairu.json", false), None);
}
