use mairu::auto::{
    key_file_name, trust_path_of, AssumeRoleData, Auto, AutoData, Trust, TrustDigest, Trustability,
};
use mairu::path::UnixPath;
use mairu::time::Timestamp;
use mairu::trust::{TrustAnswer, TrustFile, TrustLookup, TrustQuery};

fn unix(s: &str) -> UnixPath {
    UnixPath { bytes: s.as_bytes().to_vec() }
}

fn show(p: &UnixPath) -> String {
    String::from_utf8(p.bytes.clone()).unwrap()
}

fn now() -> Timestamp {
    Timestamp { seconds: 1_700_000_000, nanos: 5 }
}

fn auto_at(path: &str, data: &[u8]) -> Auto {
    Auto {
        path: unix(path),
        data: data.to_vec(),
        inner: AutoData {
            server: "s".to_string(),
            role: "r".to_string(),
            mode: Some("shared".to_string()),
            assume_role: Some(AssumeRoleData {
                role_arn: "arn".to_string(),
                duration_seconds: Some(3600),
                external_id: None,
                role_session_name: Some("name".to_string()),
            }),
        },
    }
}

const PROJECT: &str = "/home/u/proj/.mairu.json";
const MAIN: &str = "/home/u/main/.mairu.json";
const DATA: &[u8] = b"{\"server\":\"s\",\"role\":\"r\"}";

fn hash(digest: &TrustDigest) -> Vec<u8> {
    match digest {
        TrustDigest::Sha384 { hash } => hash.clone(),
    }
}

fn is_matched(t: &Trustability) -> bool {
    matches!(t, Trustability::Matched(_))
}

#[test]
fn digest_has_its_exact_value() {
    let auto = auto_at(PROJECT, DATA);
    let expected = "63a6f0c52c6b0b147f8bbd588d93965d998d527e24f504d572be17b41e0f42c5\
                    10f0fd98fb86154a5ecbaee6e8a7f259";
    let hex: String = auto.digest_sha384().iter().map(|b| format!("{b:02x}")).collect();
    assert_eq!(hex, expected);
    assert_eq!(hash(&auto.digest()), auto.digest_sha384().to_vec());
}

#[test]
fn digest_is_shown_as_base64() {
    let auto = auto_at(PROJECT, DATA);
    assert_eq!(
        auto.digest().to_string(),
        "Y6bwxSxrCxR_i71YjZOWXZmNUn4k9QTVcr4XtB4PQsUQ8P2Y-4YVSl7Lrubop_JZ"
    );
}

#[test]
fn base64_has_no_padding() {
    for (bytes, expected) in [
        (vec![], ""),
        (vec![0xfb], "-w"),
        (vec![0xff, 0xff], "__8"),
        (vec![0x66, 0x6f, 0x6f], "Zm9v"),
        (vec![0x66, 0x6f, 0x6f, 0x62], "Zm9vYg"),
    ] {
        assert_eq!(TrustDigest::Sha384 { hash: bytes }.to_string(), expected);
    }
}

#[test]
fn digest_depends_on_path_and_data() {
    let auto = auto_at(PROJECT, DATA);
    assert_ne!(auto.digest_sha384(), auto_at(MAIN, DATA).digest_sha384());
    assert_ne!(auto.digest_sha384(), auto_at(PROJECT, b"{}").digest_sha384());
    assert_eq!(auto.digest_sha384_as(&unix(MAIN)), auto_at(MAIN, DATA).digest_sha384());
}

/// Without NUL bytes in the path, what is hashed tells path and data apart.
#[test]
fn digest_frames_path_and_data() {
    assert_ne!(auto_at("/a", b"b").digest_sha384(), auto_at("/ab", b"").digest_sha384());
    assert_eq!(auto_at("a\0\0b", b"").digest_sha384(), auto_at("a", b"b\0\0").digest_sha384());
}

#[test]
fn trust_path_has_its_exact_value() {
    let auto = auto_at(PROJECT, DATA);
    assert_eq!(
        show(&auto.trust_path(&unix("/state/trust"))),
        "/state/trust/trust.hYXpvMC8VhcNdD4ySwSmQReanBufKKMt3Pj7mZfIcrY.json"
    );
    assert_eq!(
        show(&trust_path_of(&unix("/state/trust/"), &unix(MAIN))),
        "/state/trust/trust.ZquEsTGdu6kgeFL7MIgomplMq7O0mOAbErrh4G1ZKmw.json"
    );
    assert_eq!(key_file_name("k"), "trust.k.json");
}

#[test]
fn hashes_have_their_lengths() {
    for path in ["", "/", PROJECT, MAIN] {
        let file = show(&trust_path_of(&unix("/t"), &unix(path)));
        assert_eq!(file.len(), "/t/trust.".len() + 43 + ".json".len());
        assert_eq!(hash(&auto_at(path, DATA).digest()).len(), 48);
    }
}

#[test]
fn a_marked_trust_matches() {
    let auto = auto_at(PROJECT, DATA);
    let file = auto.mark_trust(&unix("/t"), now());
    assert_eq!(show(&file.path), show(&auto.trust_path(&unix("/t"))));
    assert_eq!(file.mode, 0o600);
    assert!(file.trust.trust);
    assert_eq!(show(&file.trust.path), PROJECT);
    assert_eq!(hash(&file.trust.digest), auto.digest_sha384().to_vec());
    assert_eq!(file.trust.content.server, "s");
    assert_eq!(file.trust.content.mode, Some("shared".to_string()));
    let assume_role = file.trust.content.assume_role.as_ref().unwrap();
    assert_eq!(assume_role.duration_seconds, Some(3600));
    assert_eq!(assume_role.external_id, None);
    assert_eq!(assume_role.role_session_name, Some("name".to_string()));
    assert_eq!(file.trust.updated_at.seconds, 1_700_000_000);
    assert_eq!(file.trust.updated_at.nanos, 5);
    assert!(is_matched(&Trustability::verify(&auto, file.trust)));
}

#[test]
fn a_trust_for_other_data_or_another_path_diverges() {
    let auto = auto_at(PROJECT, DATA);
    let trust = auto.mark_trust(&unix("/t"), now()).trust;
    assert!(!is_matched(&Trustability::verify(&auto_at(PROJECT, b"{}"), trust.clone())));
    assert!(!is_matched(&Trustability::verify(&auto_at(MAIN, DATA), trust.clone())));
    assert!(is_matched(&Trustability::verify_as(&auto_at(MAIN, DATA), &unix(PROJECT), trust)));
}

#[test]
fn a_hash_of_another_length_diverges() {
    let auto = auto_at(PROJECT, DATA);
    let mut trust = auto.mark_trust(&unix("/t"), now()).trust;
    let mut short = auto.digest_sha384().to_vec();
    short.pop();
    trust.digest = TrustDigest::Sha384 { hash: short };
    assert!(!is_matched(&Trustability::verify(&auto, trust.clone())));
    trust.digest = TrustDigest::Sha384 { hash: vec![] };
    assert!(!is_matched(&Trustability::verify(&auto, trust)));
}

#[test]
fn a_trust_file_ends_with_a_newline() {
    assert_eq!(TrustFile::contents("{}"), "{}\n");
}

/// Runs a lookup on the given trust files.
fn find(
    auto: &Auto,
    files: &[(UnixPath, Trust)],
    equivalent: Option<&str>,
) -> (Option<Trustability>, Vec<String>) {
    let dir = unix("/t");
    let mut asked = Vec::new();
    let mut lookup = auto.find_trust(&dir);
    while let Some(query) = lookup.query() {
        let answer = match query {
            TrustQuery::Recorded(p) => {
                asked.push(show(&p));
                TrustAnswer::Recorded(
                    files.iter().find(|(at, _)| at.bytes == p.bytes).map(|(_, t)| t.clone()),
                )
            }
            TrustQuery::MainCheckoutEquivalent => {
                asked.push("equivalent".to_string());
                TrustAnswer::Equivalent(equivalent.map(unix))
            }
        };
        lookup = auto.resume_find_trust(&dir, lookup, answer);
    }
    match lookup {
        TrustLookup::Done(result) => (result, asked),
        _ => panic!("no question, but not done"),
    }
}

#[test]
fn own_trust_that_matches_is_found_first() {
    let auto = auto_at(PROJECT, DATA);
    let own = auto.mark_trust(&unix("/t"), now());
    let (found, asked) = find(&auto, &[(own.path.clone(), own.trust)], Some(MAIN));
    assert!(is_matched(&found.unwrap()));
    assert_eq!(asked, vec![show(&own.path)]);
}

#[test]
fn a_worktree_inherits_trust_in_the_same_data() {
    let auto = auto_at(PROJECT, DATA);
    let main = auto_at(MAIN, DATA).mark_trust(&unix("/t"), now());
    let (found, asked) = find(&auto, &[(main.path.clone(), main.trust)], Some(MAIN));
    match found {
        Some(Trustability::Matched(trust)) => assert_eq!(show(&trust.path), MAIN),
        other => panic!("{other:?}"),
    }
    assert_eq!(
        asked,
        vec![show(&auto.trust_path(&unix("/t"))), "equivalent".to_string(), show(&main.path)]
    );
}

#[test]
fn a_worktree_does_not_inherit_trust_in_other_data() {
    let auto = auto_at(PROJECT, DATA);
    let own = auto_at(PROJECT, b"old").mark_trust(&unix("/t"), now());
    let main = auto_at(MAIN, b"other").mark_trust(&unix("/t"), now());
    let files = [(own.path, own.trust), (main.path, main.trust)];
    match find(&auto, &files, Some(MAIN)).0 {
        Some(Trustability::Diverged(trust)) => assert_eq!(show(&trust.path), PROJECT),
        other => panic!("{other:?}"),
    }
    assert!(find(&auto, &files[1..], Some(MAIN)).0.is_none());
    assert!(find(&auto, &[], None).0.is_none());
}

#[test]
fn a_trust_answer_of_another_kind_changes_nothing() {
    let auto = auto_at(PROJECT, DATA);
    let lookup = auto.find_trust(&unix("/t"));
    let lookup = auto.resume_find_trust(&unix("/t"), lookup, TrustAnswer::Equivalent(None));
    assert!(matches!(lookup.query(), Some(TrustQuery::Recorded(_))));
}
