//! The equivalent of a configuration file in the main checkout of a git repository.
use vstd::prelude::*;

use crate::auto::Auto;
use crate::git;
use crate::git::{Answer, FileSystem, Lookup, Query};
use crate::path;
use crate::path::UnixPath;
use crate::trust;
use crate::trust::TrustRecords;

verus! {

/// A search for the equivalent of a configuration file, by what it waits for.
#[derive(Debug)]
pub enum EquivalentLookup<P> {
    ResolveDirectory { path: P, directory: P },
    Search(Lookup<P>),
}

/// Where the main checkout has the equivalent of the configuration file at `path`; `None` where
/// sharing with worktrees is switched off. Only the directory is resolved: trust in a file that is a
/// link is recorded under the path by which the file is reached.
pub open spec fn equivalent_path(fs: FileSystem, path: Seq<u8>, sharing_disabled: bool) -> Option<
    Seq<u8>,
> {
    if sharing_disabled {
        None
    } else {
        match path::parent(path) {
            Some(directory) => match (fs.canonical.get(directory), path::file_name(path)) {
                (Some(actual), Some(name)) => git::equivalent(fs, path::join(actual, name)),
                _ => None,
            },
            None => None,
        }
    }
}

impl EquivalentLookup<Seq<u8>> {
    pub open spec fn begin(path: Seq<u8>, sharing_disabled: bool) -> Self {
        match path::parent(path) {
            Some(directory) if !sharing_disabled => EquivalentLookup::ResolveDirectory {
                path,
                directory,
            },
            _ => EquivalentLookup::Search(Lookup::Done(None)),
        }
    }

    /// The question that is open; `None` when the search is done.
    pub open spec fn pending(self) -> Option<Query<Seq<u8>>> {
        match self {
            EquivalentLookup::ResolveDirectory { path, directory } => Some(
                Query::Canonicalize(directory),
            ),
            EquivalentLookup::Search(lookup) => lookup.pending(),
        }
    }

    /// The search after an answer. An answer of another kind than the question is passed over.
    pub open spec fn next(self, answer: Answer<Seq<u8>, Seq<char>>) -> Self {
        match (self, answer) {
            (
                EquivalentLookup::ResolveDirectory { path, directory },
                Answer::Canonical(actual),
            ) => match (actual, path::file_name(path)) {
                (Some(actual), Some(name)) => EquivalentLookup::Search(
                    Lookup::begin(path::join(actual, name)),
                ),
                _ => EquivalentLookup::Search(Lookup::Done(None)),
            },
            (EquivalentLookup::Search(lookup), answer) => EquivalentLookup::Search(
                lookup.next(answer),
            ),
            _ => self,
        }
    }

    /// How the search ends on a file system that stays as it is.
    pub open spec fn outcome(self, fs: FileSystem) -> Option<Seq<u8>> {
        match self {
            EquivalentLookup::ResolveDirectory { path, directory } => match (
                fs.canonical.get(directory),
                path::file_name(path),
            ) {
                (Some(actual), Some(name)) => git::equivalent(fs, path::join(actual, name)),
                _ => None,
            },
            EquivalentLookup::Search(lookup) => lookup.outcome(fs),
        }
    }

    /// A bound on the questions that are left once the directory is resolved.
    pub open spec fn questions_left(self) -> nat {
        match self {
            EquivalentLookup::ResolveDirectory { .. } => 0,
            EquivalentLookup::Search(lookup) => lookup.questions_left(),
        }
    }

    /// The search run to its end.
    pub open spec fn run(self, fs: FileSystem) -> Option<Seq<u8>>
        decreases
                if self is ResolveDirectory {
                    1nat
                } else {
                    0nat
                },
                self.questions_left(),
    {
        match self.pending() {
            Some(query) => {
                proof {
                    lemma_equivalent_lookup_step(fs, self);
                }
                self.next(fs.answer(query)).run(fs)
            },
            None => match self {
                EquivalentLookup::Search(Lookup::Done(result)) => result,
                _ => None,
            },
        }
    }
}

proof fn lemma_equivalent_lookup_run(fs: FileSystem, lookup: EquivalentLookup<Seq<u8>>)
    ensures
        lookup.run(fs) == lookup.outcome(fs),
    decreases
            if lookup is ResolveDirectory {
                1nat
            } else {
                0nat
            },
            lookup.questions_left(),
{
    if lookup.pending() is Some {
        lemma_equivalent_lookup_step(fs, lookup);
        lemma_equivalent_lookup_run(fs, lookup.next(fs.answer(lookup.pending()->0)));
    }
}

/// On a file system that stays as it is, the search ends with the equivalent of the configuration
/// file.
pub proof fn lemma_equivalent_path(fs: FileSystem, path: Seq<u8>, sharing_disabled: bool)
    ensures
        EquivalentLookup::begin(path, sharing_disabled).run(fs) == equivalent_path(
            fs,
            path,
            sharing_disabled,
        ),
{
    lemma_equivalent_lookup_run(fs, EquivalentLookup::begin(path, sharing_disabled));
}

/// With worktree sharing switched off, a configuration has no trust but its own.
pub proof fn lemma_sharing_disabled(
    fs: FileSystem,
    records: TrustRecords,
    trust_dir: Seq<u8>,
    path: Seq<u8>,
    data: Seq<u8>,
)
    requires
        records.equivalent == equivalent_path(fs, path, true),
    ensures
        trust::trust_of(records, trust_dir, path, data) == trust::trust_at(
            records,
            trust_dir,
            path,
            data,
        ),
{
}

/// A trust that is not the configuration's own comes from a main checkout that registers the
/// worktree in which the configuration lies. A directory that merely claims to be a worktree
/// inherits nothing.
pub proof fn lemma_inherits_only_if_registered(
    fs: FileSystem,
    sharing_disabled: bool,
    records: TrustRecords,
    trust_dir: Seq<u8>,
    path: Seq<u8>,
    data: Seq<u8>,
)
    requires
        records.equivalent == equivalent_path(fs, path, sharing_disabled),
        trust::trust_of(records, trust_dir, path, data) != trust::trust_at(
            records,
            trust_dir,
            path,
            data,
        ),
    ensures
        !sharing_disabled,
        exists|root: Seq<u8>, main_root: Seq<u8>, gitdir: Seq<u8>, last: path::Component|
            inherits_from(fs, path, records.equivalent->0, root, main_root, gitdir, last),
{
    let directory = path::parent(path)->0;
    let actual = path::join(fs.canonical.get(directory)->0, path::file_name(path)->0);
    let equivalent = records.equivalent->0;
    git::lemma_equivalent(fs, actual, equivalent);
    let k = choose|k: nat| git::equivalent_at(fs, actual, k, equivalent);
    let root = path::ancestor(path::parent(actual)->0, k)->0;
    let main_root = git::claimed_root(fs, root)->0;
    git::lemma_main_checkout_registers(fs, git::dotgit(root), main_root);
    let (gitdir, last) = choose|gitdir: Seq<u8>, last: path::Component|
        git::registers(fs, main_root, git::dotgit(root), gitdir, last);
    assert(inherits_from(fs, path, equivalent, root, main_root, gitdir, last));
}

/// The configuration at `path` lies below `root`, the `.git` file there is registered by the main
/// checkout at `main_root`, and `equivalent` is the same place in the main checkout.
pub open spec fn inherits_from(
    fs: FileSystem,
    path: Seq<u8>,
    equivalent: Seq<u8>,
    root: Seq<u8>,
    main_root: Seq<u8>,
    gitdir: Seq<u8>,
    last: path::Component,
) -> bool {
    &&& path::parent(path) matches Some(directory)
    &&& fs.canonical.get(directory) matches Some(actual)
    &&& path::file_name(path) matches Some(name)
    &&& git::relocated(path::join(actual, name), root, main_root) == Some(equivalent)
    &&& git::registers(fs, main_root, git::dotgit(root), gitdir, last)
}

/// An answer of the file system leaves the end of the search as it is.
pub proof fn lemma_equivalent_lookup_step(fs: FileSystem, lookup: EquivalentLookup<Seq<u8>>)
    requires
        lookup.pending() is Some,
    ensures
        lookup.next(fs.answer(lookup.pending()->0)).outcome(fs) == lookup.outcome(fs),
        lookup matches EquivalentLookup::Search(before) ==> (lookup.next(
            fs.answer(lookup.pending()->0),
        ) matches EquivalentLookup::Search(after) && after.questions_left()
            < before.questions_left()),
        lookup is ResolveDirectory ==> lookup.next(fs.answer(lookup.pending()->0)) is Search,
{
    if let EquivalentLookup::Search(search) = lookup {
        git::lemma_step(fs, search);
    }
}

impl View for EquivalentLookup<UnixPath> {
    type V = EquivalentLookup<Seq<u8>>;

    open spec fn view(&self) -> EquivalentLookup<Seq<u8>> {
        match self {
            EquivalentLookup::ResolveDirectory { path, directory } => {
                EquivalentLookup::ResolveDirectory { path: path@, directory: directory@ }
            },
            EquivalentLookup::Search(lookup) => EquivalentLookup::Search(lookup@),
        }
    }
}

impl Auto {
    /// Begins the search for the path of an equivalent configuration file in the main checkout,
    /// for a configuration in a linked git worktree, unless worktree sharing is disabled.
    pub fn main_checkout_equivalent_path(&self, sharing_disabled: bool) -> (r: EquivalentLookup<
        UnixPath,
    >)
        ensures
            r@ == EquivalentLookup::begin(self.path@, sharing_disabled),
            forall|fs: FileSystem| #[trigger]
                r@.outcome(fs) == equivalent_path(fs, self.path@, sharing_disabled),
    {
        if sharing_disabled {
            return EquivalentLookup::Search(Lookup::Done(None));
        }
        match self.path.parent() {
            Some(directory) => EquivalentLookup::ResolveDirectory {
                path: self.path.clone(),
                directory,
            },
            None => EquivalentLookup::Search(Lookup::Done(None)),
        }
    }
}

impl EquivalentLookup<UnixPath> {
    /// What the search wants to know, or `None` when it is done.
    pub fn query(&self) -> (r: Option<Query<UnixPath>>)
        ensures
            r.deep_view() == self@.pending(),
            r is None <==> (self matches EquivalentLookup::Search(lookup) && lookup is Done),
    {
        match self {
            EquivalentLookup::ResolveDirectory { directory, .. } => Some(
                Query::Canonicalize(directory.clone()),
            ),
            EquivalentLookup::Search(lookup) => lookup.query(),
        }
    }

    /// Takes the answer to the open question. An answer of another kind changes nothing.
    pub fn resume(self, answer: Answer<UnixPath, String>) -> (r: EquivalentLookup<UnixPath>)
        ensures
            r@ == self@.next(answer.deep_view()),
            forall|fs: FileSystem|
                self@.pending() is Some && fs.answer(self@.pending()->0) == answer.deep_view()
                    ==> #[trigger] r@.outcome(fs) == self@.outcome(fs),
    {
        proof {
            assert forall|fs: FileSystem|
                self@.pending() is Some && fs.answer(self@.pending()->0)
                    == answer.deep_view() implies #[trigger] self@.next(
                answer.deep_view(),
            ).outcome(fs) == self@.outcome(fs) by {
                lemma_equivalent_lookup_step(fs, self@);
            }
        }
        match (self, answer) {
            (
                EquivalentLookup::ResolveDirectory { path, .. },
                Answer::Canonical(actual),
            ) => match actual {
                Some(actual) => match path.file_name() {
                    Some(name) => EquivalentLookup::Search(
                        git::main_checkout_equivalent(&actual.join(name.as_slice())),
                    ),
                    None => EquivalentLookup::Search(Lookup::Done(None)),
                },
                None => EquivalentLookup::Search(Lookup::Done(None)),
            },
            (EquivalentLookup::Search(lookup), answer) => EquivalentLookup::Search(
                lookup.resume(answer),
            ),
            (lookup, _) => lookup,
        }
    }
}

/// The search runs on the path by which the file is reached, with its directory resolved and its own
/// name kept. It finds nothing where the directory cannot be resolved or the path has no file name.
pub proof fn lemma_only_directory_resolved(fs: FileSystem, path: Seq<u8>)
    ensures
        ({
            let r = EquivalentLookup::begin(path, false).run(fs);
            &&& r == equivalent_path(fs, path, false)
            &&& forall|directory: Seq<u8>, actual: Seq<u8>, name: Seq<u8>|
                path::parent(path) == Some(directory) && #[trigger] fs.canonical.get(directory)
                    == Some(actual) && path::components(path).last() == path::Component::Name(name)
                    && name != seq![0x2eu8, 0x2eu8] ==> r == #[trigger] Lookup::begin(
                    path::join(actual, name),
                ).run(fs)
            &&& path::parent(path) is None ==> r is None
            &&& path::parent(path) matches Some(directory) ==> fs.canonical.get(directory) is None
                ==> r is None
            &&& (path::components(path).len() == 0 || !(path::components(path).last() is Name)
                || path::components(path).last() == path::Component::Name(seq![0x2eu8, 0x2eu8]))
                ==> r is None
        }),
{
    lemma_equivalent_path(fs, path, false);
    let r = EquivalentLookup::begin(path, false).run(fs);
    assert forall|directory: Seq<u8>, actual: Seq<u8>, name: Seq<u8>|
        path::parent(path) == Some(directory) && #[trigger] fs.canonical.get(directory) == Some(
            actual,
        ) && path::components(path).last() == path::Component::Name(name) && name != seq![
            0x2eu8,
            0x2eu8,
        ] implies r == #[trigger] Lookup::begin(path::join(actual, name)).run(fs) by {
        path::lemma_parent(path);
        path::lemma_file_name(path, name);
        git::lemma_run(fs, path::join(actual, name));
    }
    if let Some(name) = path::file_name(path) {
        path::lemma_file_name(path, name);
    }
}

/// With worktree sharing switched off, nothing is asked and nothing found.
pub proof fn lemma_sharing_disabled_asks_nothing(fs: FileSystem, path: Seq<u8>)
    ensures
        EquivalentLookup::begin(path, true).pending() is None,
        EquivalentLookup::begin(path, true).run(fs) is None,
        equivalent_path(fs, path, true) is None,
{
}

/// A configuration in a linked worktree has the trust that was recorded for the same bytes in the
/// main checkout, unless a trust of its own matches.
pub proof fn lemma_linked_worktree_inherits(
    fs: FileSystem,
    records: TrustRecords,
    trust_dir: Seq<u8>,
    path: Seq<u8>,
    data: Seq<u8>,
    equivalent: Seq<u8>,
    trust: crate::auto::TrustView,
)
    requires
        EquivalentLookup::begin(path, false).run(fs) == Some(equivalent),
        records.equivalent == EquivalentLookup::begin(path, false).run(fs),
        records.trusts.get(crate::auto::trust_location(trust_dir, equivalent)) == Some(trust),
        trust::recorded_for(trust, equivalent, data),
        records.trusts.get(crate::auto::trust_location(trust_dir, path)) matches Some(own)
            ==> !trust::recorded_for(own, path, data),
    ensures
        trust::TrustLookup::begin(trust_dir, path).run(records, trust_dir, path, data) == Some(
            crate::auto::TrustabilityView::Matched(trust),
        ),
{
    trust::lemma_find_trust_result(records, trust_dir, path, data);
}

} // verus!
