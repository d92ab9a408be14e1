use mairu::path::UnixPath;

fn unix(s: &str) -> UnixPath {
    UnixPath { bytes: s.as_bytes().to_vec() }
}

fn show(p: &UnixPath) -> String {
    String::from_utf8(p.bytes.clone()).unwrap()
}

/// Paths with roots, dots, doubled and trailing separators.
fn samples() -> Vec<String> {
    let mut found = vec![String::new()];
    let alphabet = ["/", ".", "a"];
    let mut last = vec![String::new()];
    for _ in 0..6 {
        let mut longer = Vec::new();
        for s in &last {
            for c in alphabet {
                longer.push(format!("{s}{c}"));
            }
        }
        found.extend(longer.iter().cloned());
        last = longer;
    }
    found
}

#[test]
fn parent_is_that_of_the_standard_library() {
    for s in samples() {
        let expected = std::path::Path::new(&s).parent().map(|p| p.to_str().unwrap().to_string());
        assert_eq!(unix(&s).parent().map(|p| show(&p)), expected, "{s:?}");
    }
}

#[test]
fn file_name_is_that_of_the_standard_library() {
    for s in samples() {
        let expected = std::path::Path::new(&s).file_name().map(|n| n.to_str().unwrap().to_string());
        let actual = unix(&s).file_name().map(|n| String::from_utf8(n).unwrap());
        assert_eq!(actual, expected, "{s:?}");
    }
}

#[test]
fn is_absolute_is_that_of_the_standard_library() {
    for s in samples() {
        assert_eq!(unix(&s).is_absolute(), std::path::Path::new(&s).is_absolute(), "{s:?}");
    }
}

#[test]
fn join_is_that_of_the_standard_library() {
    let all: Vec<String> = samples().into_iter().filter(|s| s.len() <= 4).collect();
    for a in &all {
        for b in &all {
            let expected = std::path::Path::new(a).join(b);
            assert_eq!(show(&unix(a).join(b.as_bytes())), expected.to_str().unwrap(), "{a:?} {b:?}");
        }
    }
}

#[test]
fn strip_prefix_is_that_of_the_standard_library() {
    let all: Vec<String> = samples().into_iter().filter(|s| s.len() <= 5).collect();
    for a in &all {
        for b in &all {
            let expected = std::path::Path::new(a)
                .strip_prefix(b)
                .ok()
                .map(|p| p.to_str().unwrap().to_string());
            let actual = unix(a).strip_prefix(&unix(b)).map(|p| show(&p));
            assert_eq!(actual, expected, "{a:?} {b:?}");
        }
    }
}

#[test]
fn same_path_is_equality_of_the_standard_library() {
    let all: Vec<String> = samples().into_iter().filter(|s| s.len() <= 5).collect();
    for a in &all {
        for b in &all {
            let expected = std::path::Path::new(a) == std::path::Path::new(b);
            assert_eq!(unix(a).same_path(&unix(b)), expected, "{a:?} {b:?}");
        }
    }
}

#[test]
fn parent_of_two_dots_is_taken_as_a_name() {
    assert_eq!(unix("/a/..").parent().map(|p| show(&p)), Some("/a".to_string()));
    assert!(unix("/a/..").file_name().is_none());
}

#[test]
fn bytes_that_are_not_text_are_kept() {
    let p = UnixPath { bytes: vec![b'/', 0xff, b'/', 0xfe] };
    assert_eq!(p.parent().unwrap().bytes, vec![b'/', 0xff]);
    assert_eq!(p.file_name().unwrap(), vec![0xfe]);
}
