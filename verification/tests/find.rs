use mairu::auto::{Auto, AutoData};
use mairu::find::{
    find_auto_file_path, not_absolute_message, Error, FileSearch, FindAnswer, FindAuto, FindQuery,
};
use mairu::path::UnixPath;

fn unix(s: &str) -> UnixPath {
    UnixPath { bytes: s.as_bytes().to_vec() }
}

fn show(p: &UnixPath) -> String {
    String::from_utf8(p.bytes.clone()).unwrap()
}

fn parse(json: &[u8]) -> Result<AutoData, String> {
    if json == b"bad" {
        return Err("expected value at line 1 column 1".to_string());
    }
    Ok(AutoData {
        server: String::from_utf8(json.to_vec()).unwrap(),
        role: "r".to_string(),
        mode: None,
        assume_role: None,
    })
}

/// Runs a search on files in memory; a file without contents cannot be read.
fn find(
    dir: &str,
    files: &[(&str, Option<&[u8]>)],
) -> (Result<Option<Auto>, Error<String>>, Vec<String>) {
    let mut asked = Vec::new();
    let mut search = Auto::find_for(&unix(dir));
    while let Some(query) = search.query() {
        let answer = match query {
            FindQuery::Exists(p) => {
                asked.push(show(&p));
                FindAnswer::Exists(files.iter().any(|(at, _)| *at == show(&p)))
            }
            FindQuery::Read(p) => FindAnswer::Contents(
                files
                    .iter()
                    .find(|(at, _)| *at == show(&p))
                    .and_then(|(_, contents)| contents.map(|c| c.to_vec())),
            ),
            FindQuery::Parse(json) => FindAnswer::Parsed(parse(&json)),
        };
        search = search.resume(answer);
    }
    match search {
        FindAuto::Done(result) => (result, asked),
        _ => panic!("no question, but not done"),
    }
}

#[test]
fn finds_the_nearest_file() {
    let files: [(&str, Option<&[u8]>); 2] =
        [("/a/b/.mairu.json", Some(b"near")), ("/.mairu.json", Some(b"far"))];
    let (found, asked) = find("/a/b/c", &files);
    let auto = found.unwrap().unwrap();
    assert_eq!(show(&auto.path), "/a/b/.mairu.json");
    assert_eq!(auto.data, b"near".to_vec());
    assert_eq!(auto.inner.server, "near");
    assert_eq!(asked, vec!["/a/b/c/.mairu.json", "/a/b/.mairu.json"]);
}

#[test]
fn looks_as_far_as_the_root() {
    let (found, asked) = find("/a/b", &[]);
    assert!(found.unwrap().is_none());
    assert_eq!(asked, vec!["/a/b/.mairu.json", "/a/.mairu.json", "/.mairu.json"]);
}

#[test]
fn a_file_that_cannot_be_read_is_no_configuration() {
    let (found, _) = find("/a", &[("/a/.mairu.json", None), ("/.mairu.json", Some(b"far"))]);
    assert!(found.unwrap().is_none());
}

#[test]
fn a_file_that_is_no_json_is_an_error() {
    match find("/a", &[("/a/.mairu.json", Some(b"bad"))]).0 {
        Err(Error::Json(message)) => assert_eq!(message, "expected value at line 1 column 1"),
        other => panic!("{other:?}"),
    }
}

#[test]
fn a_relative_directory_is_an_error() {
    let (found, asked) = find("a/b", &[("a/b/.mairu.json", Some(b"near"))]);
    match found {
        Err(Error::UserError(message)) => assert_eq!(
            message,
            "Auto::find_for(dir): dir must be an absolute path, a/b given"
        ),
        other => panic!("{other:?}"),
    }
    assert!(asked.is_empty());
    assert_eq!(
        not_absolute_message("x"),
        "Auto::find_for(dir): dir must be an absolute path, x given"
    );
}

#[test]
fn a_relative_directory_that_is_no_text_is_shown_all_the_same() {
    let dir = UnixPath { bytes: vec![b'a', 0xff, b'b'] };
    match find_auto_file_path(&dir) {
        Err(Error::UserError(message)) => assert_eq!(
            message,
            "Auto::find_for(dir): dir must be an absolute path, a\u{fffd}b given"
        ),
        other => panic!("{other:?}"),
    }
}

#[test]
fn the_file_search_stands_alone() {
    let search = find_auto_file_path(&unix("/a")).unwrap();
    match search.resume(false).resume(true) {
        FileSearch::Done(Some(path)) => assert_eq!(show(&path), "/.mairu.json"),
        other => panic!("{other:?}"),
    }
}

#[test]
fn the_file_search_asks_for_what_it_needs() {
    let mut asked = Vec::new();
    let mut search = find_auto_file_path(&unix("/a/b")).unwrap();
    while let Some(candidate) = search.query() {
        asked.push(show(&candidate));
        search = search.resume(false);
    }
    assert_eq!(asked, ["/a/b/.mairu.json", "/a/.mairu.json", "/.mairu.json"]);
    assert!(matches!(search, FileSearch::Done(None)));
    assert!(matches!(search.resume(true), FileSearch::Done(None)));
}

#[test]
fn a_search_asks_nothing_once_the_file_search_is_done() {
    let search: FindAuto<UnixPath, Vec<u8>, Auto, String> = FindAuto::Locate(FileSearch::Done(None));
    assert!(search.query().is_none());
}
