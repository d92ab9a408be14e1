//! Looking up and recording the trust in a configuration.
//!
//! A lookup asks step by step: [`TrustLookup::query`] says what it wants to know,
//! [`Auto::resume_find_trust`] takes the answer.
use vstd::prelude::*;

use crate::auto::{Auto, Trust, TrustView, Trustability, TrustabilityView};
use crate::digest;
use crate::path;
use crate::path::UnixPath;
use crate::text;
use crate::time::Timestamp;

verus! {

/// Access mode of a trust file: read and write for its owner alone.
pub const TRUST_FILE_MODE: u32 = 0o600;

/// A trust to be saved.
#[derive(Debug)]
pub struct TrustFile {
    pub path: UnixPath,
    pub mode: u32,
    pub trust: Trust,
}

impl TrustFile {
    /// What is written to the file for the given JSON text of the trust.
    pub fn contents(json: &str) -> (r: String)
        ensures
            r@ == json@ + "\n"@,
    {
        let mut contents = String::from_str(json);
        contents.append("\n");
        contents
    }
}

/// A trust lookup, by what it waits for. Here and below `P` stands for paths, `V` for verified
/// trusts and `T` for recorded ones: the values themselves, or what contracts say of them.
#[derive(Debug)]
pub enum TrustLookup<P, V> {
    Own { trust_path: P },
    Equivalent { own: Option<V> },
    Inherited { own: Option<V>, equivalent: P, trust_path: P },
    Done(Option<V>),
}

/// A question of a trust lookup.
#[derive(Debug)]
pub enum TrustQuery<P> {
    /// The trust that is recorded in the file.
    Recorded(P),
    /// The path of the configuration in the main checkout.
    MainCheckoutEquivalent,
}

/// The answer to a [`TrustQuery`].
#[derive(Debug)]
pub enum TrustAnswer<P, T> {
    /// `None` where the file is missing, cannot be read or does not hold a trust.
    Recorded(Option<T>),
    Equivalent(Option<P>),
}

/// What is recorded, and where the main checkout is.
pub struct TrustRecords {
    pub trusts: Map<Seq<u8>, TrustView>,
    pub equivalent: Option<Seq<u8>>,
}

impl TrustRecords {
    pub open spec fn answer(self, query: TrustQuery<Seq<u8>>) -> TrustAnswer<Seq<u8>, TrustView> {
        match query {
            TrustQuery::Recorded(p) => TrustAnswer::Recorded(self.trusts.get(p)),
            TrustQuery::MainCheckoutEquivalent => TrustAnswer::Equivalent(self.equivalent),
        }
    }
}

/// A trust that was recorded for `path`, if any, compared with the bytes `data`.
pub open spec fn verified_if_any(
    path: Seq<u8>,
    data: Seq<u8>,
    recorded: Option<TrustView>,
) -> Option<TrustabilityView> {
    match recorded {
        Some(trust) => Some(crate::auto::verified_as(path, data, trust)),
        None => None,
    }
}

/// The trust that is recorded for `path`, compared with the bytes `data`.
pub open spec fn trust_at(
    records: TrustRecords,
    trust_dir: Seq<u8>,
    path: Seq<u8>,
    data: Seq<u8>,
) -> Option<TrustabilityView> {
    verified_if_any(path, data, records.trusts.get(crate::auto::trust_location(trust_dir, path)))
}

pub open spec fn is_matched(t: Option<TrustabilityView>) -> bool {
    t matches Some(TrustabilityView::Matched(_))
}

/// The inherited trust where it matches, else the own one.
pub open spec fn inherited_or_own(
    inherited: Option<TrustabilityView>,
    own: Option<TrustabilityView>,
) -> Option<TrustabilityView> {
    if is_matched(inherited) {
        inherited
    } else {
        own
    }
}

/// The trust in a configuration: its own where that matches, else the one of the equivalent path in
/// the main checkout where that matches, else its own.
pub open spec fn trust_of(
    records: TrustRecords,
    trust_dir: Seq<u8>,
    path: Seq<u8>,
    data: Seq<u8>,
) -> Option<TrustabilityView> {
    let own = trust_at(records, trust_dir, path, data);
    match records.equivalent {
        Some(equivalent) if !is_matched(own) => inherited_or_own(
            trust_at(records, trust_dir, equivalent, data),
            own,
        ),
        _ => own,
    }
}

impl TrustLookup<Seq<u8>, TrustabilityView> {
    pub open spec fn begin(trust_dir: Seq<u8>, path: Seq<u8>) -> Self {
        TrustLookup::Own { trust_path: crate::auto::trust_location(trust_dir, path) }
    }

    /// The question that is open; `None` when the lookup is done.
    pub open spec fn pending(self) -> Option<TrustQuery<Seq<u8>>> {
        match self {
            TrustLookup::Own { trust_path } => Some(TrustQuery::Recorded(trust_path)),
            TrustLookup::Equivalent { own } => Some(TrustQuery::MainCheckoutEquivalent),
            TrustLookup::Inherited { own, equivalent, trust_path } => Some(
                TrustQuery::Recorded(trust_path),
            ),
            TrustLookup::Done(_) => None,
        }
    }

    /// The lookup for the configuration with these bytes at this path, after an answer. An answer
    /// of another kind than the question is passed over.
    pub open spec fn next(
        self,
        trust_dir: Seq<u8>,
        path: Seq<u8>,
        data: Seq<u8>,
        answer: TrustAnswer<Seq<u8>, TrustView>,
    ) -> Self {
        match (self, answer) {
            (TrustLookup::Own { trust_path }, TrustAnswer::Recorded(recorded)) => {
                let own = verified_if_any(path, data, recorded);
                if is_matched(own) {
                    TrustLookup::Done(own)
                } else {
                    TrustLookup::Equivalent { own }
                }
            },
            (TrustLookup::Equivalent { own }, TrustAnswer::Equivalent(equivalent)) => {
                match equivalent {
                    Some(equivalent) => TrustLookup::Inherited {
                        own,
                        equivalent,
                        trust_path: crate::auto::trust_location(trust_dir, equivalent),
                    },
                    None => TrustLookup::Done(own),
                }
            },
            (
                TrustLookup::Inherited { own, equivalent, trust_path },
                TrustAnswer::Recorded(recorded),
            ) => TrustLookup::Done(
                inherited_or_own(verified_if_any(equivalent, data, recorded), own),
            ),
            _ => self,
        }
    }

    /// How many questions can be left.
    pub open spec fn questions_left(self) -> nat {
        match self {
            TrustLookup::Own { .. } => 3,
            TrustLookup::Equivalent { .. } => 2,
            TrustLookup::Inherited { .. } => 1,
            TrustLookup::Done(_) => 0,
        }
    }

    /// The lookup run to its end on records that stay as they are.
    pub open spec fn run(
        self,
        records: TrustRecords,
        trust_dir: Seq<u8>,
        path: Seq<u8>,
        data: Seq<u8>,
    ) -> Option<TrustabilityView>
        decreases self.questions_left(),
    {
        match (self.pending(), self) {
            (Some(query), _) => self.next(trust_dir, path, data, records.answer(query)).run(
                records,
                trust_dir,
                path,
                data,
            ),
            (None, TrustLookup::Done(result)) => result,
            (None, _) => None,
        }
    }
}

/// On records that stay as they are, the lookup ends with the trust in the configuration.
pub proof fn lemma_find_trust(
    records: TrustRecords,
    trust_dir: Seq<u8>,
    path: Seq<u8>,
    data: Seq<u8>,
)
    ensures
        TrustLookup::begin(trust_dir, path).run(records, trust_dir, path, data) == trust_of(
            records,
            trust_dir,
            path,
            data,
        ),
{
    reveal_with_fuel(TrustLookup::run, 4);
}

impl View for TrustLookup<UnixPath, Trustability> {
    type V = TrustLookup<Seq<u8>, TrustabilityView>;

    open spec fn view(&self) -> TrustLookup<Seq<u8>, TrustabilityView> {
        match self {
            TrustLookup::Own { trust_path } => TrustLookup::Own { trust_path: trust_path@ },
            TrustLookup::Equivalent { own } => TrustLookup::Equivalent { own: own.deep_view() },
            TrustLookup::Inherited { own, equivalent, trust_path } => TrustLookup::Inherited {
                own: own.deep_view(),
                equivalent: equivalent@,
                trust_path: trust_path@,
            },
            TrustLookup::Done(result) => TrustLookup::Done(result.deep_view()),
        }
    }
}

impl DeepView for TrustQuery<UnixPath> {
    type V = TrustQuery<Seq<u8>>;

    open spec fn deep_view(&self) -> TrustQuery<Seq<u8>> {
        match self {
            TrustQuery::Recorded(p) => TrustQuery::Recorded(p@),
            TrustQuery::MainCheckoutEquivalent => TrustQuery::MainCheckoutEquivalent,
        }
    }
}

impl DeepView for TrustAnswer<UnixPath, Trust> {
    type V = TrustAnswer<Seq<u8>, TrustView>;

    open spec fn deep_view(&self) -> TrustAnswer<Seq<u8>, TrustView> {
        match self {
            TrustAnswer::Recorded(trust) => TrustAnswer::Recorded(trust.deep_view()),
            TrustAnswer::Equivalent(p) => TrustAnswer::Equivalent(p.deep_view()),
        }
    }
}

impl TrustLookup<UnixPath, Trustability> {
    /// What the lookup wants to know, or `None` when it is done.
    pub fn query(&self) -> (r: Option<TrustQuery<UnixPath>>)
        ensures
            r.deep_view() == self@.pending(),
            r is None <==> self is Done,
    {
        match self {
            TrustLookup::Own { trust_path } => Some(TrustQuery::Recorded(trust_path.clone())),
            TrustLookup::Equivalent { .. } => Some(TrustQuery::MainCheckoutEquivalent),
            TrustLookup::Inherited { trust_path, .. } => Some(
                TrustQuery::Recorded(trust_path.clone()),
            ),
            TrustLookup::Done(_) => None,
        }
    }
}

impl Auto {
    /// Begins the lookup of the trust in this configuration.
    pub fn find_trust(&self, trust_dir: &UnixPath) -> (r: TrustLookup<UnixPath, Trustability>)
        ensures
            r@ == TrustLookup::begin(trust_dir@, self.path@),
            forall|records: TrustRecords| #[trigger]
                r@.run(records, trust_dir@, self.path@, self.data@) == trust_of(
                    records,
                    trust_dir@,
                    self.path@,
                    self.data@,
                ),
    {
        proof {
            assert forall|records: TrustRecords| #[trigger]
                TrustLookup::begin(trust_dir@, self.path@).run(
                    records,
                    trust_dir@,
                    self.path@,
                    self.data@,
                ) == trust_of(records, trust_dir@, self.path@, self.data@) by {
                lemma_find_trust(records, trust_dir@, self.path@, self.data@);
            }
        }
        TrustLookup::Own { trust_path: self.trust_path(trust_dir) }
    }

    /// Verifies the trust recorded for the given path, if any, against this configuration.
    pub fn find_trust_at(&self, path: &UnixPath, recorded: Option<Trust>) -> (r: Option<
        Trustability,
    >)
        ensures
            r.deep_view() == verified_if_any(path@, self.data@, recorded.deep_view()),
            match (recorded, r) {
                (None, None) => true,
                (Some(trust), Some(Trustability::Matched(kept))) => kept == trust
                    && trust.digest@ == crate::auto::digest_as(path@, self.data@),
                (Some(trust), Some(Trustability::Diverged(kept))) => kept == trust
                    && trust.digest@ != crate::auto::digest_as(path@, self.data@),
                _ => false,
            },
    {
        match recorded {
            Some(trust) => Some(Trustability::verify_as(self, path, trust)),
            None => None,
        }
    }

    /// Takes the answer to the open question of a trust lookup. An answer of another kind changes
    /// nothing.
    pub fn resume_find_trust(
        &self,
        trust_dir: &UnixPath,
        lookup: TrustLookup<UnixPath, Trustability>,
        answer: TrustAnswer<UnixPath, Trust>,
    ) -> (r: TrustLookup<UnixPath, Trustability>)
        ensures
            r@ == lookup@.next(trust_dir@, self.path@, self.data@, answer.deep_view()),
            forall|records: TrustRecords|
                lookup@.pending() is Some && records.answer(lookup@.pending()->0)
                    == answer.deep_view() ==> #[trigger] r@.run(
                    records,
                    trust_dir@,
                    self.path@,
                    self.data@,
                ) == lookup@.run(records, trust_dir@, self.path@, self.data@),
    {
        match (lookup, answer) {
            (TrustLookup::Own { .. }, TrustAnswer::Recorded(recorded)) => {
                let own = self.find_trust_at(&self.path, recorded);
                match own {
                    Some(Trustability::Matched(trust)) => TrustLookup::Done(
                        Some(Trustability::Matched(trust)),
                    ),
                    own => TrustLookup::Equivalent { own },
                }
            },
            (TrustLookup::Equivalent { own }, TrustAnswer::Equivalent(equivalent)) => {
                match equivalent {
                    Some(equivalent) => {
                        let trust_path = crate::auto::trust_path_of(trust_dir, &equivalent);
                        TrustLookup::Inherited { own, equivalent, trust_path }
                    },
                    None => TrustLookup::Done(own),
                }
            },
            (
                TrustLookup::Inherited { own, equivalent, .. },
                TrustAnswer::Recorded(recorded),
            ) => {
                match self.find_trust_at(&equivalent, recorded) {
                    Some(Trustability::Matched(trust)) => TrustLookup::Done(
                        Some(Trustability::Matched(trust)),
                    ),
                    _ => TrustLookup::Done(own),
                }
            },
            (lookup, _) => lookup,
        }
    }

    /// The record that this configuration is trusted as of now, and the file to save it in.
    pub fn mark_trust(&self, trust_dir: &UnixPath, updated_at: Timestamp) -> (r: TrustFile)
        ensures
            r.path@ == crate::auto::trust_location(trust_dir@, self.path@),
            r.mode == TRUST_FILE_MODE,
            r.mode == 0o600,
            r.trust@ == marked(self@, updated_at),
            r.trust.path@ == self.path@,
            r.trust.trust,
            r.trust.digest@ == crate::auto::digest_as(self.path@, self.data@),
            r.trust.content == self.inner,
            r.trust.updated_at == updated_at,
    {
        TrustFile {
            path: self.trust_path(trust_dir),
            mode: TRUST_FILE_MODE,
            trust: Trust {
                path: self.path.clone(),
                trust: true,
                digest: self.digest(),
                content: self.inner.clone(),
                updated_at,
            },
        }
    }
}

/// The trust that marking a configuration records.
pub open spec fn marked(a: crate::auto::AutoView, updated_at: Timestamp) -> TrustView {
    TrustView {
        path: a.path,
        trust: true,
        hash: crate::auto::digest_as(a.path, a.data),
        content: a.inner,
        updated_at,
    }
}

/// The path holds no NUL byte, as is true of every path on a Unix system.
pub open spec fn no_nul(path: Seq<u8>) -> bool {
    forall|i: int| 0 <= i < path.len() ==> path[i] != 0
}

/// Two different messages with the same SHA-384 hash.
pub open spec fn sha384_collision(a: Seq<u8>, b: Seq<u8>) -> bool {
    a != b && digest::sha384_of(a) == digest::sha384_of(b)
}

/// Two different messages with the same SHA-256 hash.
pub open spec fn sha256_collision(a: Seq<u8>, b: Seq<u8>) -> bool {
    a != b && digest::sha256_of(a) == digest::sha256_of(b)
}

/// Path and bytes can be told from what is hashed: the path is bound into the digest. Left out are
/// paths with NUL bytes, where the end of the path is not marked.
pub proof fn lemma_digest_message_injective(
    path: Seq<u8>,
    data: Seq<u8>,
    other_path: Seq<u8>,
    other_data: Seq<u8>,
)
    requires
        no_nul(path),
        no_nul(other_path),
        crate::auto::digest_message(path, data) == crate::auto::digest_message(
            other_path,
            other_data,
        ),
    ensures
        path == other_path,
        data == other_data,
{
    let head = text::utf8("v0.auto\0\0"@);
    let nul = text::utf8("\0\0"@);
    reveal_strlit("\0\0");
    vstd::utf8::is_ascii_chars_encode_utf8("\0\0"@);
    assert(nul =~= seq![0u8, 0u8]);
    let m = crate::auto::digest_message(path, data);
    let o = crate::auto::digest_message(other_path, other_data);
    let h = head.len() as int;
    assert(forall|i: int| 0 <= i < path.len() ==> m[h + i] == path[i]);
    assert(forall|i: int| 0 <= i < other_path.len() ==> o[h + i] == other_path[i]);
    assert(m[h + path.len()] == 0);
    assert(o[h + other_path.len()] == 0);
    if path.len() < other_path.len() {
        assert(o[h + path.len()] == other_path[path.len() as int]);
    } else if other_path.len() < path.len() {
        assert(m[h + other_path.len()] == path[other_path.len() as int]);
    }
    assert(path.len() == other_path.len());
    assert forall|i: int| 0 <= i < path.len() implies path[i] == other_path[i] by {
        assert(m[h + i] == o[h + i]);
    }
    assert(path =~= other_path);
    let d = h + path.len() + 2;
    assert(m.len() == o.len());
    assert(data.len() == other_data.len());
    assert forall|i: int| 0 <= i < data.len() implies data[i] == other_data[i] by {
        assert(m[d + i] == data[i]);
        assert(o[d + i] == other_data[i]);
    }
    assert(data =~= other_data);
}

/// Trusting the same bytes at another path, or other bytes at the same path, yields another digest,
/// short of a SHA-384 collision.
pub proof fn lemma_digest_binds(
    path: Seq<u8>,
    data: Seq<u8>,
    other_path: Seq<u8>,
    other_data: Seq<u8>,
)
    requires
        no_nul(path),
        no_nul(other_path),
        crate::auto::digest_as(path, data) == crate::auto::digest_as(other_path, other_data),
        !sha384_collision(
            crate::auto::digest_message(path, data),
            crate::auto::digest_message(other_path, other_data),
        ),
    ensures
        path == other_path,
        data == other_data,
{
    lemma_digest_message_injective(path, data, other_path, other_data);
}

/// The trust that marking a configuration records matches that configuration.
pub proof fn lemma_marked_matches(a: crate::auto::AutoView, updated_at: Timestamp)
    ensures
        crate::auto::verified_as(a.path, a.data, marked(a, updated_at))
            == TrustabilityView::Matched(marked(a, updated_at)),
{
}

/// The trust that marking a configuration records matches no configuration with other bytes and
/// none at another path, short of a SHA-384 collision.
pub proof fn lemma_marked_matches_only(
    a: crate::auto::AutoView,
    updated_at: Timestamp,
    path: Seq<u8>,
    data: Seq<u8>,
)
    requires
        no_nul(a.path),
        no_nul(path),
        path != a.path || data != a.data,
        !sha384_collision(
            crate::auto::digest_message(a.path, a.data),
            crate::auto::digest_message(path, data),
        ),
    ensures
        crate::auto::verified_as(path, data, marked(a, updated_at))
            == TrustabilityView::Diverged(marked(a, updated_at)),
{
    if crate::auto::digest_as(a.path, a.data) == crate::auto::digest_as(path, data) {
        lemma_digest_binds(a.path, a.data, path, data);
    }
}

/// Once a configuration is marked as trusted and the record is saved, its trust is found.
pub proof fn lemma_find_after_mark(
    records: TrustRecords,
    trust_dir: Seq<u8>,
    a: crate::auto::AutoView,
    updated_at: Timestamp,
)
    requires
        records.trusts.get(crate::auto::trust_location(trust_dir, a.path)) == Some(
            marked(a, updated_at),
        ),
    ensures
        trust_of(records, trust_dir, a.path, a.data) == Some(
            TrustabilityView::Matched(marked(a, updated_at)),
        ),
{
}

/// A configuration in a linked worktree inherits the trust in the equivalent configuration of the
/// main checkout if that has the same bytes, unless a trust of its own matches.
pub proof fn lemma_worktree_inherits(
    records: TrustRecords,
    trust_dir: Seq<u8>,
    main: crate::auto::AutoView,
    updated_at: Timestamp,
    path: Seq<u8>,
)
    requires
        records.equivalent == Some(main.path),
        records.trusts.get(crate::auto::trust_location(trust_dir, main.path)) == Some(
            marked(main, updated_at),
        ),
    ensures
        trust_of(records, trust_dir, path, main.data) == if is_matched(
            trust_at(records, trust_dir, path, main.data),
        ) {
            trust_at(records, trust_dir, path, main.data)
        } else {
            Some(TrustabilityView::Matched(marked(main, updated_at)))
        },
{
}

/// A trust that is not the configuration's own is only ever a matching one, recorded for the
/// equivalent path in the main checkout.
pub proof fn lemma_inherited_only_if_matched(
    records: TrustRecords,
    trust_dir: Seq<u8>,
    path: Seq<u8>,
    data: Seq<u8>,
)
    ensures
        trust_of(records, trust_dir, path, data) != trust_at(records, trust_dir, path, data)
            ==> {
            &&& is_matched(trust_of(records, trust_dir, path, data))
            &&& records.equivalent matches Some(equivalent)
            &&& trust_of(records, trust_dir, path, data) == trust_at(
                records,
                trust_dir,
                equivalent,
                data,
            )
        },
        is_matched(trust_at(records, trust_dir, path, data)) ==> trust_of(
            records,
            trust_dir,
            path,
            data,
        ) == trust_at(records, trust_dir, path, data),
        records.equivalent is None ==> trust_of(records, trust_dir, path, data) == trust_at(
            records,
            trust_dir,
            path,
            data,
        ),
{
}

/// The name of a trust file is a single path component.
proof fn lemma_trust_file_name(data: Seq<u8>)
    ensures
        ({
            let name = crate::auto::trust_file_name(digest::base64url_of(data));
            &&& name.len() > 1
            &&& forall|i: int| 0 <= i < name.len() ==> name[i] != path::SEPARATOR
        }),
{
    let key = digest::base64url_of(data);
    let chars = "trust."@ + key + ".json"@;
    reveal_strlit("trust.");
    reveal_strlit(".json");
    assert forall|i: int| 0 <= i < chars.len() implies chars[i] as nat <= 0x7f && chars[i]
        != '/' by {
        if 6 <= i < 6 + key.len() {
            digest::lemma_sextet_range(data, i - 6);
            assert(chars[i] == digest::base64url_char(digest::sextet(data, i - 6)));
        }
    }
    assert(vstd::utf8::is_ascii_chars(chars));
    vstd::utf8::is_ascii_chars_encode_utf8(chars);
    let name = text::utf8(chars);
    assert(name.len() == chars.len());
    assert forall|i: int| 0 <= i < name.len() implies name[i] != path::SEPARATOR by {
        assert(name[i] == chars[i] as u8);
    }
}

/// Every trust file lies directly in the trust directory.
pub proof fn lemma_trust_location_place(trust_dir: Seq<u8>, path: Seq<u8>)
    ensures
        path::components(crate::auto::trust_location(trust_dir, path)) == path::components(
            trust_dir,
        ).push(
            path::Component::Name(
                crate::auto::trust_file_name(
                    digest::base64url_of(
                        digest::sha256_of(crate::auto::trust_path_message(path)),
                    ),
                ),
            ),
        ),
{
    let hash = digest::sha256_of(crate::auto::trust_path_message(path));
    let name = crate::auto::trust_file_name(digest::base64url_of(hash));
    lemma_trust_file_name(hash);
    path::lemma_single_name(name);
    path::lemma_join_components(trust_dir, name);
    assert(path::components(trust_dir) + seq![path::Component::Name(name)]
        =~= path::components(trust_dir).push(path::Component::Name(name)));
}

/// Different paths have different trust files, short of a SHA-256 collision.
pub proof fn lemma_trust_location_binds(trust_dir: Seq<u8>, path: Seq<u8>, other: Seq<u8>)
    requires
        crate::auto::trust_location(trust_dir, path) == crate::auto::trust_location(
            trust_dir,
            other,
        ),
        !sha256_collision(
            crate::auto::trust_path_message(path),
            crate::auto::trust_path_message(other),
        ),
    ensures
        path == other,
{
    let hash = digest::sha256_of(crate::auto::trust_path_message(path));
    let other_hash = digest::sha256_of(crate::auto::trust_path_message(other));
    let key = digest::base64url_of(hash);
    let other_key = digest::base64url_of(other_hash);
    lemma_trust_location_place(trust_dir, path);
    lemma_trust_location_place(trust_dir, other);
    let comps = path::components(crate::auto::trust_location(trust_dir, path));
    assert(comps.last() == path::Component::Name(crate::auto::trust_file_name(key)));
    assert(comps.last() == path::Component::Name(crate::auto::trust_file_name(other_key)));
    vstd::utf8::encode_utf8_decode_utf8("trust."@ + key + ".json"@);
    vstd::utf8::encode_utf8_decode_utf8("trust."@ + other_key + ".json"@);
    let full = "trust."@ + key + ".json"@;
    let other_full = "trust."@ + other_key + ".json"@;
    assert(full == other_full);
    let n = "trust."@.len() as int;
    assert(key =~= full.subrange(n, n + key.len()));
    assert(other_key =~= other_full.subrange(n, n + other_key.len()));
    assert(key.len() == other_key.len());
    digest::lemma_base64url_injective(hash, other_hash);
    let head = text::utf8("v0.trust_path\0\0"@);
    let m = crate::auto::trust_path_message(path);
    let o = crate::auto::trust_path_message(other);
    assert(m == o);
    assert(path =~= m.skip(head.len() as int));
    assert(other =~= o.skip(head.len() as int));
}

/// Marking a configuration records all that it says, under its path and with its digest, as trusted
/// at that moment.
pub proof fn lemma_marked_content(a: crate::auto::AutoView, updated_at: Timestamp)
    ensures
        marked(a, updated_at).trust,
        marked(a, updated_at).path == a.path,
        marked(a, updated_at).content == a.inner,
        marked(a, updated_at).content.server == a.inner.server,
        marked(a, updated_at).content.role == a.inner.role,
        marked(a, updated_at).content.mode == a.inner.mode,
        marked(a, updated_at).content.assume_role == a.inner.assume_role,
        marked(a, updated_at).updated_at == updated_at,
        marked(a, updated_at).hash == digest::sha384_of(
            seq![0x76u8, 0x30, 0x2e, 0x61, 0x75, 0x74, 0x6f, 0, 0] + a.path + seq![0u8, 0] + a.data,
        ),
{
    crate::auto::lemma_digest(a.path, a.data);
}

/// The trust was recorded for these bytes at this path: its hash is theirs.
pub open spec fn recorded_for(trust: TrustView, path: Seq<u8>, data: Seq<u8>) -> bool {
    trust.hash == digest::sha384_of(
        seq![0x76u8, 0x30, 0x2e, 0x61, 0x75, 0x74, 0x6f, 0, 0] + path + seq![0u8, 0] + data,
    )
}

/// What is recorded for a path is reported as it is: as matching where its hash is that of the
/// bytes at this path, and as diverging everywhere else.
pub proof fn lemma_trust_at(
    records: TrustRecords,
    trust_dir: Seq<u8>,
    path: Seq<u8>,
    data: Seq<u8>,
)
    ensures
        match records.trusts.get(crate::auto::trust_location(trust_dir, path)) {
            Some(trust) => trust_at(records, trust_dir, path, data) == if recorded_for(
                trust,
                path,
                data,
            ) {
                Some(TrustabilityView::Matched(trust))
            } else {
                Some(TrustabilityView::Diverged(trust))
            },
            None => trust_at(records, trust_dir, path, data) is None,
        },
{
    if let Some(trust) = records.trusts.get(crate::auto::trust_location(trust_dir, path)) {
        crate::auto::lemma_verified(path, data, trust);
    }
}

/// The lookup ends with the own trust as matching where it was recorded for these bytes at this
/// path. Else it ends with the trust of the equivalent path as matching, where there is one that was
/// recorded for these bytes at that path. Else it ends with the own trust as diverging, or with
/// nothing where none is recorded. No other field of a trust plays a part, and none is changed.
pub proof fn lemma_find_trust_result(
    records: TrustRecords,
    trust_dir: Seq<u8>,
    path: Seq<u8>,
    data: Seq<u8>,
)
    ensures
        ({
            let r = TrustLookup::begin(trust_dir, path).run(records, trust_dir, path, data);
            let own = records.trusts.get(crate::auto::trust_location(trust_dir, path));
            let own_matches = own matches Some(trust) && recorded_for(trust, path, data);
            let inherited = match records.equivalent {
                Some(equivalent) => match records.trusts.get(
                    crate::auto::trust_location(trust_dir, equivalent),
                ) {
                    Some(trust) if recorded_for(trust, equivalent, data) => Some(trust),
                    _ => None,
                },
                None => None,
            };
            &&& r == trust_of(records, trust_dir, path, data)
            &&& own_matches ==> r == Some(TrustabilityView::Matched(own->0))
            &&& !own_matches && inherited is Some ==> r == Some(
                TrustabilityView::Matched(inherited->0),
            )
            &&& !own_matches && inherited is None && own is Some ==> r == Some(
                TrustabilityView::Diverged(own->0),
            )
            &&& own is None && inherited is None ==> r is None
        }),
{
    lemma_find_trust(records, trust_dir, path, data);
    lemma_trust_at(records, trust_dir, path, data);
    if let Some(equivalent) = records.equivalent {
        lemma_trust_at(records, trust_dir, equivalent, data);
    }
}

/// Once the bytes of a marked configuration are changed, its trust is found as diverging, whatever
/// they say. Left out are paths with NUL bytes, SHA-384 collisions, and a trust that is inherited.
pub proof fn lemma_find_after_edit(
    records: TrustRecords,
    trust_dir: Seq<u8>,
    a: crate::auto::AutoView,
    updated_at: Timestamp,
    data: Seq<u8>,
)
    requires
        records.trusts.get(crate::auto::trust_location(trust_dir, a.path)) == Some(
            marked(a, updated_at),
        ),
        records.equivalent is None,
        data != a.data,
        no_nul(a.path),
        !sha384_collision(
            crate::auto::digest_message(a.path, a.data),
            crate::auto::digest_message(a.path, data),
        ),
    ensures
        TrustLookup::begin(trust_dir, a.path).run(records, trust_dir, a.path, data) == Some(
            TrustabilityView::Diverged(marked(a, updated_at)),
        ),
        trust_of(records, trust_dir, a.path, data) == Some(
            TrustabilityView::Diverged(marked(a, updated_at)),
        ),
{
    lemma_find_trust_result(records, trust_dir, a.path, data);
    lemma_marked_content(a, updated_at);
    crate::auto::lemma_digest(a.path, data);
    crate::auto::lemma_digest(a.path, a.data);
    if recorded_for(marked(a, updated_at), a.path, data) {
        lemma_digest_binds(a.path, a.data, a.path, data);
    }
}

/// An answer of another kind than the question changes nothing, and neither does an answer to a
/// lookup that is done.
pub proof fn lemma_trust_other_answer(
    lookup: TrustLookup<Seq<u8>, TrustabilityView>,
    trust_dir: Seq<u8>,
    path: Seq<u8>,
    data: Seq<u8>,
    answer: TrustAnswer<Seq<u8>, TrustView>,
)
    requires
        match lookup {
            TrustLookup::Own { .. } => answer is Equivalent,
            TrustLookup::Equivalent { .. } => answer is Recorded,
            TrustLookup::Inherited { .. } => answer is Equivalent,
            TrustLookup::Done(_) => true,
        },
    ensures
        lookup.next(trust_dir, path, data, answer) == lookup,
{
}

/// The records answer what is recorded in the file that is asked for.
pub proof fn lemma_records_answer(records: TrustRecords, p: Seq<u8>)
    ensures
        records.answer(TrustQuery::Recorded(p)) == TrustAnswer::<Seq<u8>, TrustView>::Recorded(
            records.trusts.get(p),
        ),
        records.answer(TrustQuery::MainCheckoutEquivalent) == TrustAnswer::<
            Seq<u8>,
            TrustView,
        >::Equivalent(records.equivalent),
{
}

/// Contracts speak of questions, answers and results by what they hold, and of nothing less.
pub proof fn lemma_trust_views(
    query: TrustQuery<UnixPath>,
    answer: TrustAnswer<UnixPath, Trust>,
    result: Option<Trustability>,
)
    ensures
        match query {
            TrustQuery::Recorded(p) => query.deep_view() == TrustQuery::Recorded(p.bytes@),
            TrustQuery::MainCheckoutEquivalent => query.deep_view() == TrustQuery::<
                Seq<u8>,
            >::MainCheckoutEquivalent,
        },
        match answer {
            TrustAnswer::Recorded(Some(trust)) => answer.deep_view() == TrustAnswer::<
                Seq<u8>,
                TrustView,
            >::Recorded(Some(trust@)),
            TrustAnswer::Recorded(None) => answer.deep_view() == TrustAnswer::<
                Seq<u8>,
                TrustView,
            >::Recorded(None),
            TrustAnswer::Equivalent(Some(p)) => answer.deep_view() == TrustAnswer::<
                Seq<u8>,
                TrustView,
            >::Equivalent(Some(p.bytes@)),
            TrustAnswer::Equivalent(None) => answer.deep_view() == TrustAnswer::<
                Seq<u8>,
                TrustView,
            >::Equivalent(None),
        },
        match result {
            Some(Trustability::Matched(trust)) => (TrustLookup::<UnixPath, Trustability>::Done(
                result,
            ))@ == TrustLookup::<Seq<u8>, TrustabilityView>::Done(
                Some(TrustabilityView::Matched(trust@)),
            ),
            Some(Trustability::Diverged(trust)) => (TrustLookup::<UnixPath, Trustability>::Done(
                result,
            ))@ == TrustLookup::<Seq<u8>, TrustabilityView>::Done(
                Some(TrustabilityView::Diverged(trust@)),
            ),
            None => (TrustLookup::<UnixPath, Trustability>::Done(result))@ == TrustLookup::<
                Seq<u8>,
                TrustabilityView,
            >::Done(None),
        },
{
}

} // verus!
