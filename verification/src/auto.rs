//! A `.mairu.json` file, its digest, and the trust that was recorded for it.
use vstd::prelude::*;
use vstd::slice::slice_to_vec;

use crate::digest;
use crate::path;
use crate::path::UnixPath;
use crate::text;
use crate::time::Timestamp;

verus! {

/// A configuration file: where it was found, its bytes, and what they say.
#[derive(Debug)]
pub struct Auto {
    pub path: UnixPath,
    pub data: Vec<u8>,
    pub inner: AutoData,
}

#[derive(Debug)]
pub struct AutoData {
    pub server: String,
    pub role: String,
    /// Name of the provider mode.
    pub mode: Option<String>,
    pub assume_role: Option<AssumeRoleData>,
}

#[derive(Debug)]
pub struct AssumeRoleData {
    pub role_arn: String,
    pub duration_seconds: Option<i32>,
    pub external_id: Option<String>,
    pub role_session_name: Option<String>,
}

/// A recorded trust, compared with the configuration that it is meant for.
#[derive(Debug)]
pub enum Trustability {
    Matched(Trust),
    Diverged(Trust),
}

/// The record that a configuration is trusted.
#[derive(Debug)]
pub struct Trust {
    pub path: UnixPath,
    pub trust: bool,
    pub digest: TrustDigest,
    pub content: AutoData,
    pub updated_at: Timestamp,
}

#[derive(Debug)]
pub enum TrustDigest {
    Sha384 { hash: Vec<u8> },
}

/// What an [`Auto`] holds.
#[verifier::ext_equal]
pub struct AutoView {
    pub path: Seq<u8>,
    pub data: Seq<u8>,
    pub inner: AutoData,
}

/// What a [`Trust`] holds.
#[verifier::ext_equal]
pub struct TrustView {
    pub path: Seq<u8>,
    pub trust: bool,
    pub hash: Seq<u8>,
    pub content: AutoData,
    pub updated_at: Timestamp,
}

/// What a [`Trustability`] holds.
#[verifier::ext_equal]
pub enum TrustabilityView {
    Matched(TrustView),
    Diverged(TrustView),
}

impl View for Auto {
    type V = AutoView;

    open spec fn view(&self) -> AutoView {
        AutoView { path: self.path@, data: self.data@, inner: self.inner }
    }
}

impl DeepView for Auto {
    type V = AutoView;

    open spec fn deep_view(&self) -> AutoView {
        self@
    }
}

impl View for TrustDigest {
    type V = Seq<u8>;

    open spec fn view(&self) -> Seq<u8> {
        match self {
            TrustDigest::Sha384 { hash } => hash@,
        }
    }
}

impl View for Trust {
    type V = TrustView;

    open spec fn view(&self) -> TrustView {
        TrustView {
            path: self.path@,
            trust: self.trust,
            hash: self.digest@,
            content: self.content,
            updated_at: self.updated_at,
        }
    }
}

impl DeepView for Trust {
    type V = TrustView;

    open spec fn deep_view(&self) -> TrustView {
        self@
    }
}

impl View for Trustability {
    type V = TrustabilityView;

    open spec fn view(&self) -> TrustabilityView {
        match self {
            Trustability::Matched(trust) => TrustabilityView::Matched(trust@),
            Trustability::Diverged(trust) => TrustabilityView::Diverged(trust@),
        }
    }
}

impl DeepView for Trustability {
    type V = TrustabilityView;

    open spec fn deep_view(&self) -> TrustabilityView {
        self@
    }
}

/// What is hashed for a configuration with these bytes at this path.
pub open spec fn digest_message(path: Seq<u8>, data: Seq<u8>) -> Seq<u8> {
    text::utf8("v0.auto\0\0"@) + path + text::utf8("\0\0"@) + data
}

/// The digest of a configuration with these bytes at this path.
pub open spec fn digest_as(path: Seq<u8>, data: Seq<u8>) -> Seq<u8> {
    digest::sha384_of(digest_message(path, data))
}

/// What is hashed for the name of the trust file of a path.
pub open spec fn trust_path_message(path: Seq<u8>) -> Seq<u8> {
    text::utf8("v0.trust_path\0\0"@) + path
}

/// Name of the trust file for a key.
pub open spec fn trust_file_name(key: Seq<char>) -> Seq<u8> {
    text::utf8("trust."@ + key + ".json"@)
}

/// The file in which the trust for a path is recorded.
pub open spec fn trust_location(trust_dir: Seq<u8>, path: Seq<u8>) -> Seq<u8> {
    let key = digest::base64url_of(digest::sha256_of(trust_path_message(path)));
    path::join(trust_dir, trust_file_name(key))
}

/// A trust that was recorded for `path`, compared with a configuration that has the bytes `data`.
pub open spec fn verified_as(path: Seq<u8>, data: Seq<u8>, trust: TrustView) -> TrustabilityView {
    if trust.hash == digest_as(path, data) {
        TrustabilityView::Matched(trust)
    } else {
        TrustabilityView::Diverged(trust)
    }
}

fn clone_text(s: &Option<String>) -> (r: Option<String>)
    ensures
        r == *s,
{
    match s {
        Some(s) => Some(s.clone()),
        None => None,
    }
}

impl Clone for AssumeRoleData {
    fn clone(&self) -> (r: Self)
        ensures
            r == *self,
    {
        AssumeRoleData {
            role_arn: self.role_arn.clone(),
            duration_seconds: self.duration_seconds,
            external_id: clone_text(&self.external_id),
            role_session_name: clone_text(&self.role_session_name),
        }
    }
}

impl Clone for AutoData {
    fn clone(&self) -> (r: Self)
        ensures
            r == *self,
    {
        AutoData {
            server: self.server.clone(),
            role: self.role.clone(),
            mode: clone_text(&self.mode),
            assume_role: match &self.assume_role {
                Some(assume_role) => Some(assume_role.clone()),
                None => None,
            },
        }
    }
}

impl Clone for Auto {
    fn clone(&self) -> (r: Self)
        ensures
            r@ == self@,
    {
        Auto {
            path: self.path.clone(),
            data: slice_to_vec(self.data.as_slice()),
            inner: self.inner.clone(),
        }
    }
}

impl Clone for TrustDigest {
    fn clone(&self) -> (r: Self)
        ensures
            r@ == self@,
    {
        match self {
            TrustDigest::Sha384 { hash } => TrustDigest::Sha384 {
                hash: slice_to_vec(hash.as_slice()),
            },
        }
    }
}

impl Clone for Trust {
    fn clone(&self) -> (r: Self)
        ensures
            r@ == self@,
    {
        Trust {
            path: self.path.clone(),
            trust: self.trust,
            digest: self.digest.clone(),
            content: self.content.clone(),
            updated_at: self.updated_at,
        }
    }
}

impl Clone for Trustability {
    fn clone(&self) -> (r: Self)
        ensures
            r@ == self@,
    {
        match self {
            Trustability::Matched(trust) => Trustability::Matched(trust.clone()),
            Trustability::Diverged(trust) => Trustability::Diverged(trust.clone()),
        }
    }
}

/// The file in which the trust for a path is recorded.
pub fn trust_path_of(trust_dir: &UnixPath, path: &UnixPath) -> (r: UnixPath)
    ensures
        r@ == trust_location(trust_dir@, path@),
        digest::sha256_of(trust_path_message(path@)).len() == 32,
{
    let mut message = slice_to_vec("v0.trust_path\0\0".as_bytes());
    message.extend_from_slice(path.bytes.as_slice());
    assert(message@ =~= trust_path_message(path@));
    let hash = digest::sha256(message.as_slice());
    let key = digest::base64url(hash.as_slice());
    trust_dir.join(key_file_name(key.as_str()).as_str().as_bytes())
}

/// Name of the trust file for a key.
pub fn key_file_name(key: &str) -> (r: String)
    ensures
        text::utf8(r@) == trust_file_name(key@),
        r@ == "trust."@ + key@ + ".json"@,
{
    let mut name = String::from_str("trust.");
    name.append(key);
    name.append(".json");
    name
}

impl Auto {
    pub fn digest(&self) -> (r: TrustDigest)
        ensures
            r@ == digest_as(self.path@, self.data@),
            r@.len() == 48,
    {
        TrustDigest::Sha384 { hash: slice_to_vec(self.digest_sha384().as_slice()) }
    }

    pub fn digest_sha384(&self) -> (r: [u8; 48])
        ensures
            r@ == digest_as(self.path@, self.data@),
    {
        self.digest_sha384_as(&self.path)
    }

    /// Computes the digest as if this configuration were located at the given path. The path is
    /// bound into the digest, so trusting the same content at another path yields another digest.
    pub fn digest_sha384_as(&self, path: &UnixPath) -> (r: [u8; 48])
        ensures
            r@ == digest_as(path@, self.data@),
    {
        let mut message = slice_to_vec("v0.auto\0\0".as_bytes());
        message.extend_from_slice(path.bytes.as_slice());
        message.extend_from_slice("\0\0".as_bytes());
        message.extend_from_slice(self.data.as_slice());
        assert(message@ =~= digest_message(path@, self.data@));
        digest::sha384(message.as_slice())
    }

    /// The file in which the trust for this configuration is recorded.
    pub fn trust_path(&self, trust_dir: &UnixPath) -> (r: UnixPath)
        ensures
            r@ == trust_location(trust_dir@, self.path@),
            digest::sha256_of(trust_path_message(self.path@)).len() == 32,
    {
        trust_path_of(trust_dir, &self.path)
    }
}

impl Trustability {
    pub fn verify(auto: &Auto, trust: Trust) -> (r: Self)
        ensures
            r@ == verified_as(auto.path@, auto.data@, trust@),
            digest_as(auto.path@, auto.data@).len() == 48,
            trust.digest@.len() != 48 ==> r is Diverged,
            match r {
                Trustability::Matched(kept) => kept == trust && trust.digest@ == digest::sha384_of(
                    text::utf8("v0.auto\0\0"@) + auto.path@ + text::utf8("\0\0"@) + auto.data@,
                ),
                Trustability::Diverged(kept) => kept == trust && trust.digest@
                    != digest::sha384_of(
                    text::utf8("v0.auto\0\0"@) + auto.path@ + text::utf8("\0\0"@) + auto.data@,
                ),
            },
    {
        Self::verify_as(auto, &auto.path, trust)
    }

    /// Verifies against a trust that was recorded for the given path, which may differ from the
    /// configuration's own path when the trust is inherited from the main checkout of a worktree.
    pub fn verify_as(auto: &Auto, path: &UnixPath, trust: Trust) -> (r: Self)
        ensures
            r@ == verified_as(path@, auto.data@, trust@),
            digest_as(path@, auto.data@).len() == 48,
            trust.digest@.len() != 48 ==> r is Diverged,
            match r {
                Trustability::Matched(kept) => kept == trust && trust.digest@ == digest::sha384_of(
                    text::utf8("v0.auto\0\0"@) + path@ + text::utf8("\0\0"@) + auto.data@,
                ),
                Trustability::Diverged(kept) => kept == trust && trust.digest@
                    != digest::sha384_of(
                    text::utf8("v0.auto\0\0"@) + path@ + text::utf8("\0\0"@) + auto.data@,
                ),
            },
    {
        let expected = auto.digest_sha384_as(path);
        let matched = match &trust.digest {
            TrustDigest::Sha384 { hash } => path::bytes_equal(hash.as_slice(), expected.as_slice()),
        };
        if matched {
            Trustability::Matched(trust)
        } else {
            Trustability::Diverged(trust)
        }
    }
}

impl TrustDigest {
    /// The hash as URL-safe base64 without padding.
    pub fn to_string(&self) -> (r: String)
        requires
            digest::base64url_len(self@.len()) <= isize::MAX,
        ensures
            r@ == digest::base64url_of(self@),
    {
        match self {
            TrustDigest::Sha384 { hash } => digest::base64url(hash.as_slice()),
        }
    }
}

/// The digest is the SHA-384 hash of the bytes `v0.auto`, two NUL bytes, the path, two NUL bytes and
/// the bytes of the configuration.
pub proof fn lemma_digest(path: Seq<u8>, data: Seq<u8>)
    ensures
        digest_as(path, data) == digest::sha384_of(
            seq![0x76u8, 0x30, 0x2e, 0x61, 0x75, 0x74, 0x6f, 0, 0] + path + seq![0u8, 0] + data,
        ),
        digest_as(path, data) == digest::sha384_of(digest_message(path, data)),
        digest_message(path, data) == seq![0x76u8, 0x30, 0x2e, 0x61, 0x75, 0x74, 0x6f, 0, 0] + path
            + seq![0u8, 0] + data,
{
    reveal_strlit("v0.auto\0\0");
    reveal_strlit("\0\0");
    assert(vstd::utf8::is_ascii_chars("v0.auto\0\0"@));
    vstd::utf8::is_ascii_chars_encode_utf8("v0.auto\0\0"@);
    assert(vstd::utf8::is_ascii_chars("\0\0"@));
    vstd::utf8::is_ascii_chars_encode_utf8("\0\0"@);
    assert(text::utf8("v0.auto\0\0"@) =~= seq![0x76u8, 0x30, 0x2e, 0x61, 0x75, 0x74, 0x6f, 0, 0]);
    assert(text::utf8("\0\0"@) =~= seq![0u8, 0]);
}

/// The trust for a path is recorded in the trust directory, in a file named after the SHA-256 hash
/// of the bytes `v0.trust_path`, two NUL bytes and the path.
pub proof fn lemma_trust_location(trust_dir: Seq<u8>, path: Seq<u8>)
    ensures
        trust_location(trust_dir, path) == path::join(
            trust_dir,
            text::utf8(
                "trust."@ + digest::base64url_of(
                    digest::sha256_of(text::utf8("v0.trust_path\0\0"@) + path),
                ) + ".json"@,
            ),
        ),
{
}

/// Comparing a recorded trust leaves it as it is. Whether it matches depends on its hash alone, not
/// on what else was recorded.
pub proof fn lemma_verified(path: Seq<u8>, data: Seq<u8>, trust: TrustView)
    ensures
        verified_as(path, data, trust) == TrustabilityView::Matched(trust) <==> trust.hash
            == digest::sha384_of(
            seq![0x76u8, 0x30, 0x2e, 0x61, 0x75, 0x74, 0x6f, 0, 0] + path + seq![0u8, 0] + data,
        ),
        verified_as(path, data, trust) == TrustabilityView::Diverged(trust) <==> trust.hash
            != digest::sha384_of(
            seq![0x76u8, 0x30, 0x2e, 0x61, 0x75, 0x74, 0x6f, 0, 0] + path + seq![0u8, 0] + data,
        ),
{
    lemma_digest(path, data);
}

/// What a trust holds is what was recorded, field for field.
pub proof fn lemma_trust_view(trust: Trust)
    ensures
        trust@.path == trust.path.bytes@,
        trust@.trust == trust.trust,
        trust.digest matches TrustDigest::Sha384 { hash } && trust@.hash == hash@,
        trust@.content == trust.content,
        trust@.updated_at == trust.updated_at,
        (Trustability::Matched(trust))@ == TrustabilityView::Matched(trust@),
        (Trustability::Diverged(trust))@ == TrustabilityView::Diverged(trust@),
{
}

} // verus!
