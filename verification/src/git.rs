//! Where a path inside a linked git worktree lies in the main checkout.
//!
//! The search asks about the file system step by step: [`Lookup::query`] says what it wants to
//! know, [`Lookup::resume`] takes the answer.
use vstd::prelude::*;

use crate::path;
use crate::path::UnixPath;
use crate::text;

verus! {

/// A question about the file system. Here and below `P` stands for paths and `T` for texts: the
/// values themselves, or the sequences that contracts speak of.
#[derive(Debug)]
pub enum Query<P> {
    /// Device the path lives on.
    Device(P),
    /// Whether the path is a directory.
    IsDir(P),
    /// Whether the path is a regular file.
    IsFile(P),
    /// Contents of the file, as text.
    ReadText(P),
    /// The path with all links resolved.
    Canonicalize(P),
}

/// The answer to a [`Query`]; `None` where the file system reports an error.
#[derive(Debug)]
pub enum Answer<P, T> {
    Device(Option<u64>),
    IsDir(bool),
    IsFile(bool),
    Text(Option<T>),
    Canonical(Option<P>),
}

/// A walk up the ancestors of `path`, as far as the root of a worktree.
#[derive(Debug)]
pub struct Walk<P> {
    pub path: P,
    /// Device that the walk must not leave.
    pub device: u64,
    /// The ancestor looked at.
    pub root: P,
}

/// A search for the main checkout, by what it waits for.
#[derive(Debug)]
pub enum Lookup<P> {
    StartDevice { path: P, start: P },
    RootDevice { walk: Walk<P> },
    DotgitIsDir { walk: Walk<P> },
    DotgitIsFile { walk: Walk<P> },
    ReadDotgit { walk: Walk<P> },
    ResolveGitdir { walk: Walk<P>, target: P },
    ReadCommondir { walk: Walk<P>, gitdir: P },
    ResolveCommondir { walk: Walk<P>, gitdir: P, target: P },
    ReadBackPointer { walk: Walk<P>, gitdir: P, commondir: P },
    ResolveBackPointer { walk: Walk<P>, commondir: P, target: P },
    ResolveDotgit { walk: Walk<P>, commondir: P, back_pointer: P },
    Done(Option<P>),
}

/// What the file system answers, as long as nothing changes in it.
pub struct FileSystem {
    pub devices: Map<Seq<u8>, u64>,
    pub directories: Set<Seq<u8>>,
    pub files: Set<Seq<u8>>,
    pub texts: Map<Seq<u8>, Seq<char>>,
    pub canonical: Map<Seq<u8>, Seq<u8>>,
}

impl FileSystem {
    pub open spec fn answer(self, query: Query<Seq<u8>>) -> Answer<Seq<u8>, Seq<char>> {
        match query {
            Query::Device(p) => Answer::Device(self.devices.get(p)),
            Query::IsDir(p) => Answer::IsDir(self.directories.contains(p)),
            Query::IsFile(p) => Answer::IsFile(self.files.contains(p)),
            Query::ReadText(p) => Answer::Text(self.texts.get(p)),
            Query::Canonicalize(p) => Answer::Canonical(self.canonical.get(p)),
        }
    }
}

pub open spec fn dotgit(root: Seq<u8>) -> Seq<u8> {
    path::join(root, text::utf8(".git"@))
}

/// The path that a git pointer file names: relative to `base` unless it is absolute.
pub open spec fn pointer_target(pointer: Seq<char>, base: Seq<u8>) -> Seq<u8> {
    path::join(base, text::utf8(text::trimmed(pointer)))
}

/// The path that a git pointer file names, with all links resolved.
pub open spec fn resolved(fs: FileSystem, pointer: Seq<char>, base: Seq<u8>) -> Option<Seq<u8>> {
    fs.canonical.get(pointer_target(pointer, base))
}

/// The administrative directory that the `.git` file of a worktree points at.
pub open spec fn gitdir_of(fs: FileSystem, dotgit_file: Seq<u8>) -> Option<Seq<u8>> {
    match fs.texts.get(dotgit_file) {
        Some(contents) => match (text::after_prefix(contents, "gitdir:"@), path::parent(dotgit_file)) {
            (Some(pointer), Some(base)) => resolved(fs, pointer, base),
            _ => None,
        },
        None => None,
    }
}

/// What the pointer file `name` in the administrative directory points at.
pub open spec fn pointed_from(fs: FileSystem, gitdir: Seq<u8>, name: Seq<char>) -> Option<
    Seq<u8>,
> {
    match fs.texts.get(path::join(gitdir, text::utf8(name))) {
        Some(contents) => resolved(fs, contents, gitdir),
        None => None,
    }
}

/// The administrative directory sits in the `worktrees` directory of a common `.git`.
pub open spec fn administers(commondir: Seq<u8>, gitdir: Seq<u8>) -> bool {
    &&& path::file_name(commondir) == Some(text::utf8(".git"@))
    &&& path::parent(gitdir) matches Some(directory) && path::same_path(
        directory,
        path::join(commondir, text::utf8("worktrees"@)),
    )
}

/// Root of the main checkout, given the common `.git` and what its administrative directory points
/// back at: that has to be the `.git` file of the worktree.
pub open spec fn root_by_back_pointer(
    fs: FileSystem,
    dotgit_file: Seq<u8>,
    commondir: Seq<u8>,
    back_pointer: Seq<u8>,
) -> Option<Seq<u8>> {
    match fs.canonical.get(dotgit_file) {
        Some(actual) if path::same_path(back_pointer, actual) => path::parent(commondir),
        _ => None,
    }
}

/// Root of the main checkout, given the administrative directory and the common `.git`.
pub open spec fn root_by_commondir(
    fs: FileSystem,
    dotgit_file: Seq<u8>,
    gitdir: Seq<u8>,
    commondir: Seq<u8>,
) -> Option<Seq<u8>> {
    match pointed_from(fs, gitdir, "gitdir"@) {
        Some(back_pointer) if administers(commondir, gitdir) => root_by_back_pointer(
            fs,
            dotgit_file,
            commondir,
            back_pointer,
        ),
        _ => None,
    }
}

/// Root of the main checkout, given the administrative directory.
pub open spec fn root_by_gitdir(fs: FileSystem, dotgit_file: Seq<u8>, gitdir: Seq<u8>) -> Option<
    Seq<u8>,
> {
    match pointed_from(fs, gitdir, "commondir"@) {
        Some(commondir) => root_by_commondir(fs, dotgit_file, gitdir, commondir),
        None => None,
    }
}

/// Root of the main checkout that a `.git` file belongs to. The main checkout has to know of the
/// worktree: its administrative directory points back at that `.git` file.
pub open spec fn main_checkout_root(fs: FileSystem, dotgit_file: Seq<u8>) -> Option<Seq<u8>> {
    match gitdir_of(fs, dotgit_file) {
        Some(gitdir) => root_by_gitdir(fs, dotgit_file, gitdir),
        None => None,
    }
}

/// `path` moved from below `root` to below `main_root`; `None` where that is no other path.
pub open spec fn relocated(path: Seq<u8>, root: Seq<u8>, main_root: Seq<u8>) -> Option<Seq<u8>> {
    match path::strip_prefix(path, root) {
        Some(rest) if !path::same_path(path::join(main_root, rest), path) => Some(path::join(main_root, rest)),
        _ => None,
    }
}

/// What the walk finds from `root` upwards.
pub open spec fn found_from(fs: FileSystem, path: Seq<u8>, device: u64, root: Seq<u8>) -> Option<
    Seq<u8>,
>
    decreases root.len(),
{
    if fs.devices.get(root) != Some(device) || fs.directories.contains(dotgit(root)) {
        None
    } else {
        match main_checkout_root(fs, dotgit(root)) {
            Some(main_root) if fs.files.contains(dotgit(root)) => relocated(path, root, main_root),
            _ => match path::parent(root) {
                Some(up) => {
                    proof {
                        path::lemma_parent_shorter(root);
                    }
                    found_from(fs, path, device, up)
                },
                None => None,
            },
        }
    }
}

/// The path in the main checkout that is the equivalent of `path` in a linked worktree.
pub open spec fn equivalent(fs: FileSystem, path: Seq<u8>) -> Option<Seq<u8>> {
    match path::parent(path) {
        Some(start) => match fs.devices.get(start) {
            Some(device) => found_from(fs, path, device, start),
            None => None,
        },
        None => None,
    }
}

impl Walk<Seq<u8>> {
    pub open spec fn dotgit(self) -> Seq<u8> {
        dotgit(self.root)
    }

    pub open spec fn up(self) -> Lookup<Seq<u8>> {
        match path::parent(self.root) {
            Some(up) => Lookup::RootDevice {
                walk: Walk { path: self.path, device: self.device, root: up },
            },
            None => Lookup::Done(None),
        }
    }

    pub open spec fn arrive(self, main_root: Option<Seq<u8>>) -> Lookup<Seq<u8>> {
        match main_root {
            Some(main_root) => Lookup::Done(relocated(self.path, self.root, main_root)),
            None => self.up(),
        }
    }

    /// What the walk finds above `root`.
    pub open spec fn found_above(self, fs: FileSystem) -> Option<Seq<u8>> {
        match path::parent(self.root) {
            Some(up) => found_from(fs, self.path, self.device, up),
            None => None,
        }
    }

    /// What the walk finds once the root of the main checkout is known or known to be missing.
    pub open spec fn found_with(self, fs: FileSystem, main_root: Option<Seq<u8>>) -> Option<
        Seq<u8>,
    > {
        match main_root {
            Some(main_root) => relocated(self.path, self.root, main_root),
            None => self.found_above(fs),
        }
    }

    /// What the walk finds if `.git` is no directory.
    pub open spec fn found_unless_directory(self, fs: FileSystem) -> Option<Seq<u8>> {
        self.found_with(
            fs,
            if fs.files.contains(self.dotgit()) {
                main_checkout_root(fs, self.dotgit())
            } else {
                None
            },
        )
    }
}

impl Lookup<Seq<u8>> {
    /// The search for the equivalent of `path`, before its first question.
    pub open spec fn begin(path: Seq<u8>) -> Self {
        match path::parent(path) {
            Some(start) => Lookup::StartDevice { path, start },
            None => Lookup::Done(None),
        }
    }

    /// The question that is open; `None` when the search is done.
    pub open spec fn pending(self) -> Option<Query<Seq<u8>>> {
        match self {
            Lookup::StartDevice { path, start } => Some(Query::Device(start)),
            Lookup::RootDevice { walk } => Some(Query::Device(walk.root)),
            Lookup::DotgitIsDir { walk } => Some(Query::IsDir(walk.dotgit())),
            Lookup::DotgitIsFile { walk } => Some(Query::IsFile(walk.dotgit())),
            Lookup::ReadDotgit { walk } => Some(Query::ReadText(walk.dotgit())),
            Lookup::ResolveGitdir { walk, target } => Some(Query::Canonicalize(target)),
            Lookup::ReadCommondir { walk, gitdir } => Some(
                Query::ReadText(path::join(gitdir, text::utf8("commondir"@))),
            ),
            Lookup::ResolveCommondir { walk, gitdir, target } => Some(Query::Canonicalize(target)),
            Lookup::ReadBackPointer { walk, gitdir, commondir } => Some(
                Query::ReadText(path::join(gitdir, text::utf8("gitdir"@))),
            ),
            Lookup::ResolveBackPointer { walk, commondir, target } => Some(
                Query::Canonicalize(target),
            ),
            Lookup::ResolveDotgit { walk, commondir, back_pointer } => Some(
                Query::Canonicalize(walk.dotgit()),
            ),
            Lookup::Done(_) => None,
        }
    }

    /// The search after an answer. An answer of another kind than the question is passed over.
    pub open spec fn next(self, answer: Answer<Seq<u8>, Seq<char>>) -> Self {
        match (self, answer) {
            (Lookup::StartDevice { path, start }, Answer::Device(device)) => match device {
                Some(device) => Lookup::RootDevice { walk: Walk { path, device, root: start } },
                None => Lookup::Done(None),
            },
            (Lookup::RootDevice { walk }, Answer::Device(device)) => if device == Some(
                walk.device,
            ) {
                Lookup::DotgitIsDir { walk }
            } else {
                Lookup::Done(None)
            },
            (Lookup::DotgitIsDir { walk }, Answer::IsDir(is_dir)) => if is_dir {
                Lookup::Done(None)
            } else {
                Lookup::DotgitIsFile { walk }
            },
            (Lookup::DotgitIsFile { walk }, Answer::IsFile(is_file)) => if is_file {
                Lookup::ReadDotgit { walk }
            } else {
                walk.up()
            },
            (Lookup::ReadDotgit { walk }, Answer::Text(contents)) => match (
                contents,
                path::parent(walk.dotgit()),
            ) {
                (Some(contents), Some(base)) => match text::after_prefix(contents, "gitdir:"@) {
                    Some(pointer) => Lookup::ResolveGitdir {
                        walk,
                        target: pointer_target(pointer, base),
                    },
                    None => walk.up(),
                },
                _ => walk.up(),
            },
            (Lookup::ResolveGitdir { walk, target }, Answer::Canonical(gitdir)) => match gitdir {
                Some(gitdir) => Lookup::ReadCommondir { walk, gitdir },
                None => walk.up(),
            },
            (Lookup::ReadCommondir { walk, gitdir }, Answer::Text(contents)) => match contents {
                Some(contents) => Lookup::ResolveCommondir {
                    walk,
                    gitdir,
                    target: pointer_target(contents, gitdir),
                },
                None => walk.up(),
            },
            (
                Lookup::ResolveCommondir { walk, gitdir, target },
                Answer::Canonical(commondir),
            ) => match commondir {
                Some(commondir) if administers(commondir, gitdir) => Lookup::ReadBackPointer {
                    walk,
                    gitdir,
                    commondir,
                },
                _ => walk.up(),
            },
            (
                Lookup::ReadBackPointer { walk, gitdir, commondir },
                Answer::Text(contents),
            ) => match contents {
                Some(contents) => Lookup::ResolveBackPointer {
                    walk,
                    commondir,
                    target: pointer_target(contents, gitdir),
                },
                None => walk.up(),
            },
            (
                Lookup::ResolveBackPointer { walk, commondir, target },
                Answer::Canonical(back_pointer),
            ) => match back_pointer {
                Some(back_pointer) => Lookup::ResolveDotgit { walk, commondir, back_pointer },
                None => walk.up(),
            },
            (
                Lookup::ResolveDotgit { walk, commondir, back_pointer },
                Answer::Canonical(actual),
            ) => match actual {
                Some(actual) if path::same_path(back_pointer, actual) => walk.arrive(
                    path::parent(commondir),
                ),
                _ => walk.up(),
            },
            _ => self,
        }
    }

    /// How the search ends on a file system that stays as it is.
    pub open spec fn outcome(self, fs: FileSystem) -> Option<Seq<u8>> {
        match self {
            Lookup::StartDevice { path, start } => match fs.devices.get(start) {
                Some(device) => found_from(fs, path, device, start),
                None => None,
            },
            Lookup::RootDevice { walk } => found_from(fs, walk.path, walk.device, walk.root),
            Lookup::DotgitIsDir { walk } => if fs.directories.contains(walk.dotgit()) {
                None
            } else {
                walk.found_unless_directory(fs)
            },
            Lookup::DotgitIsFile { walk } => walk.found_unless_directory(fs),
            Lookup::ReadDotgit { walk } => walk.found_with(
                fs,
                main_checkout_root(fs, walk.dotgit()),
            ),
            Lookup::ResolveGitdir { walk, target } => walk.found_with(
                fs,
                match fs.canonical.get(target) {
                    Some(gitdir) => root_by_gitdir(fs, walk.dotgit(), gitdir),
                    None => None,
                },
            ),
            Lookup::ReadCommondir { walk, gitdir } => walk.found_with(
                fs,
                root_by_gitdir(fs, walk.dotgit(), gitdir),
            ),
            Lookup::ResolveCommondir { walk, gitdir, target } => walk.found_with(
                fs,
                match fs.canonical.get(target) {
                    Some(commondir) => root_by_commondir(fs, walk.dotgit(), gitdir, commondir),
                    None => None,
                },
            ),
            Lookup::ReadBackPointer { walk, gitdir, commondir } => walk.found_with(
                fs,
                match pointed_from(fs, gitdir, "gitdir"@) {
                    Some(back_pointer) => root_by_back_pointer(
                        fs,
                        walk.dotgit(),
                        commondir,
                        back_pointer,
                    ),
                    None => None,
                },
            ),
            Lookup::ResolveBackPointer { walk, commondir, target } => walk.found_with(
                fs,
                match fs.canonical.get(target) {
                    Some(back_pointer) => root_by_back_pointer(
                        fs,
                        walk.dotgit(),
                        commondir,
                        back_pointer,
                    ),
                    None => None,
                },
            ),
            Lookup::ResolveDotgit { walk, commondir, back_pointer } => walk.found_with(
                fs,
                root_by_back_pointer(fs, walk.dotgit(), commondir, back_pointer),
            ),
            Lookup::Done(result) => result,
        }
    }

    /// A bound on the questions that are left.
    pub open spec fn questions_left(self) -> nat {
        match self {
            Lookup::StartDevice { path, start } => 10 * start.len() + 11,
            Lookup::RootDevice { walk } => 10 * walk.root.len() + 10,
            Lookup::DotgitIsDir { walk } => 10 * walk.root.len() + 9,
            Lookup::DotgitIsFile { walk } => 10 * walk.root.len() + 8,
            Lookup::ReadDotgit { walk } => 10 * walk.root.len() + 7,
            Lookup::ResolveGitdir { walk, target } => 10 * walk.root.len() + 6,
            Lookup::ReadCommondir { walk, gitdir } => 10 * walk.root.len() + 5,
            Lookup::ResolveCommondir { walk, gitdir, target } => 10 * walk.root.len() + 4,
            Lookup::ReadBackPointer { walk, gitdir, commondir } => 10 * walk.root.len() + 3,
            Lookup::ResolveBackPointer { walk, commondir, target } => 10 * walk.root.len() + 2,
            Lookup::ResolveDotgit { walk, commondir, back_pointer } => 10 * walk.root.len() + 1,
            Lookup::Done(_) => 0,
        }
    }

    /// The search run to its end.
    pub open spec fn run(self, fs: FileSystem) -> Option<Seq<u8>>
        decreases self.questions_left(),
    {
        match self.pending() {
            Some(query) => {
                proof {
                    lemma_step(fs, self);
                }
                self.next(fs.answer(query)).run(fs)
            },
            None => match self {
                Lookup::Done(result) => result,
                _ => None,
            },
        }
    }
}

/// Each answer of the file system brings the search closer to its end and leaves that end as it is.
pub proof fn lemma_step(fs: FileSystem, lookup: Lookup<Seq<u8>>)
    requires
        !(lookup is Done),
    ensures
        lookup.pending() is Some,
        lookup.next(fs.answer(lookup.pending()->0)).questions_left() < lookup.questions_left(),
        lookup.next(fs.answer(lookup.pending()->0)).outcome(fs) == lookup.outcome(fs),
{
    match lookup {
        Lookup::StartDevice { .. } => {},
        Lookup::RootDevice { walk }
        | Lookup::DotgitIsDir { walk }
        | Lookup::DotgitIsFile { walk }
        | Lookup::ReadDotgit { walk }
        | Lookup::ResolveGitdir { walk, .. }
        | Lookup::ReadCommondir { walk, .. }
        | Lookup::ResolveCommondir { walk, .. }
        | Lookup::ReadBackPointer { walk, .. }
        | Lookup::ResolveBackPointer { walk, .. }
        | Lookup::ResolveDotgit { walk, .. } => {
            path::lemma_parent_shorter(walk.root);
        },
        Lookup::Done(_) => {},
    }
}

/// On a file system that stays as it is, the search ends with the equivalent of the path.
pub proof fn lemma_run(fs: FileSystem, path: Seq<u8>)
    ensures
        Lookup::begin(path).run(fs) == equivalent(fs, path),
{
    lemma_run_outcome(fs, Lookup::begin(path));
}

proof fn lemma_run_outcome(fs: FileSystem, lookup: Lookup<Seq<u8>>)
    ensures
        lookup.run(fs) == lookup.outcome(fs),
    decreases lookup.questions_left(),
{
    if !(lookup is Done) {
        lemma_step(fs, lookup);
        lemma_run_outcome(fs, lookup.next(fs.answer(lookup.pending()->0)));
    }
}

impl DeepView for Query<UnixPath> {
    type V = Query<Seq<u8>>;

    open spec fn deep_view(&self) -> Query<Seq<u8>> {
        match self {
            Query::Device(p) => Query::Device(p@),
            Query::IsDir(p) => Query::IsDir(p@),
            Query::IsFile(p) => Query::IsFile(p@),
            Query::ReadText(p) => Query::ReadText(p@),
            Query::Canonicalize(p) => Query::Canonicalize(p@),
        }
    }
}

impl DeepView for Answer<UnixPath, String> {
    type V = Answer<Seq<u8>, Seq<char>>;

    open spec fn deep_view(&self) -> Answer<Seq<u8>, Seq<char>> {
        match self {
            Answer::Device(device) => Answer::Device(*device),
            Answer::IsDir(is_dir) => Answer::IsDir(*is_dir),
            Answer::IsFile(is_file) => Answer::IsFile(*is_file),
            Answer::Text(contents) => Answer::Text(contents.deep_view()),
            Answer::Canonical(p) => Answer::Canonical(p.deep_view()),
        }
    }
}

impl View for Walk<UnixPath> {
    type V = Walk<Seq<u8>>;

    open spec fn view(&self) -> Walk<Seq<u8>> {
        Walk { path: self.path@, device: self.device, root: self.root@ }
    }
}

impl View for Lookup<UnixPath> {
    type V = Lookup<Seq<u8>>;

    open spec fn view(&self) -> Lookup<Seq<u8>> {
        match self {
            Lookup::StartDevice { path, start } => Lookup::StartDevice {
                path: path@,
                start: start@,
            },
            Lookup::RootDevice { walk } => Lookup::RootDevice { walk: walk@ },
            Lookup::DotgitIsDir { walk } => Lookup::DotgitIsDir { walk: walk@ },
            Lookup::DotgitIsFile { walk } => Lookup::DotgitIsFile { walk: walk@ },
            Lookup::ReadDotgit { walk } => Lookup::ReadDotgit { walk: walk@ },
            Lookup::ResolveGitdir { walk, target } => Lookup::ResolveGitdir {
                walk: walk@,
                target: target@,
            },
            Lookup::ReadCommondir { walk, gitdir } => Lookup::ReadCommondir {
                walk: walk@,
                gitdir: gitdir@,
            },
            Lookup::ResolveCommondir { walk, gitdir, target } => Lookup::ResolveCommondir {
                walk: walk@,
                gitdir: gitdir@,
                target: target@,
            },
            Lookup::ReadBackPointer { walk, gitdir, commondir } => Lookup::ReadBackPointer {
                walk: walk@,
                gitdir: gitdir@,
                commondir: commondir@,
            },
            Lookup::ResolveBackPointer { walk, commondir, target } => Lookup::ResolveBackPointer {
                walk: walk@,
                commondir: commondir@,
                target: target@,
            },
            Lookup::ResolveDotgit { walk, commondir, back_pointer } => Lookup::ResolveDotgit {
                walk: walk@,
                commondir: commondir@,
                back_pointer: back_pointer@,
            },
            Lookup::Done(result) => Lookup::Done(result.deep_view()),
        }
    }
}

/// The path that a git pointer file names, taking relative paths as relative to the given base.
/// Its links are still to be resolved.
pub fn resolve(pointer: &str, base: &UnixPath) -> (r: UnixPath)
    ensures
        r@ == pointer_target(pointer@, base@),
{
    base.join(text::trim(pointer).as_bytes())
}

/// Whether the administrative directory sits in the `worktrees` directory of a common `.git`.
fn check_layout(commondir: &UnixPath, gitdir: &UnixPath) -> (r: bool)
    ensures
        r == administers(commondir@, gitdir@),
{
    let named_git = match commondir.file_name() {
        Some(name) => path::bytes_equal(name.as_slice(), ".git".as_bytes()),
        None => false,
    };
    let in_worktrees = match gitdir.parent() {
        Some(directory) => directory.same_path(&commondir.join("worktrees".as_bytes())),
        None => false,
    };
    named_git && in_worktrees
}

impl Walk<UnixPath> {
    fn dotgit_file(&self) -> (r: UnixPath)
        ensures
            r@ == self@.dotgit(),
    {
        self.root.join(".git".as_bytes())
    }

    fn continue_above(self) -> (r: Lookup<UnixPath>)
        ensures
            r@ == self@.up(),
    {
        match self.root.parent() {
            Some(root) => Lookup::RootDevice {
                walk: Walk { path: self.path, device: self.device, root },
            },
            None => Lookup::Done(None),
        }
    }

    fn arrive_at(self, main_root: Option<UnixPath>) -> (r: Lookup<UnixPath>)
        ensures
            r@ == self@.arrive(main_root.deep_view()),
    {
        let main_root = match main_root {
            Some(main_root) => main_root,
            None => {
                return self.continue_above();
            },
        };
        match self.path.strip_prefix(&self.root) {
            Some(rest) => {
                let moved = main_root.join(rest.bytes.as_slice());
                if moved.same_path(&self.path) {
                    Lookup::Done(None)
                } else {
                    Lookup::Done(Some(moved))
                }
            },
            None => Lookup::Done(None),
        }
    }

    fn point_at_gitdir(self, contents: &str) -> (r: Lookup<UnixPath>)
        ensures
            r@ == (Lookup::ReadDotgit { walk: self@ }).next(Answer::Text(Some(contents@))),
    {
        let pointer = match text::strip_prefix(contents, "gitdir:") {
            Some(pointer) => pointer,
            None => {
                return self.continue_above();
            },
        };
        match self.dotgit_file().parent() {
            Some(base) => {
                let target = resolve(pointer, &base);
                Lookup::ResolveGitdir { walk: self, target }
            },
            None => self.continue_above(),
        }
    }
}

/// Begins the search for the equivalent path in the repository's main checkout, for a path inside a
/// linked git worktree. The search ends with `None` when the path is not in a linked worktree, or
/// when the equivalent path is the given path itself.
pub fn main_checkout_equivalent(path: &UnixPath) -> (r: Lookup<UnixPath>)
    ensures
        r@ == Lookup::begin(path@),
        forall|fs: FileSystem| #[trigger] r@.outcome(fs) == equivalent(fs, path@),
{
    match path.parent() {
        Some(start) => Lookup::StartDevice { path: path.clone(), start },
        None => Lookup::Done(None),
    }
}

impl Lookup<UnixPath> {
    /// What the search wants to know, or `None` when it is done.
    pub fn query(&self) -> (r: Option<Query<UnixPath>>)
        ensures
            r.deep_view() == self@.pending(),
            r is None <==> self is Done,
    {
        match self {
            Lookup::StartDevice { start, .. } => Some(Query::Device(start.clone())),
            Lookup::RootDevice { walk } => Some(Query::Device(walk.root.clone())),
            Lookup::DotgitIsDir { walk } => Some(Query::IsDir(walk.dotgit_file())),
            Lookup::DotgitIsFile { walk } => Some(Query::IsFile(walk.dotgit_file())),
            Lookup::ReadDotgit { walk } => Some(Query::ReadText(walk.dotgit_file())),
            Lookup::ResolveGitdir { target, .. } => Some(Query::Canonicalize(target.clone())),
            Lookup::ReadCommondir { gitdir, .. } => Some(
                Query::ReadText(gitdir.join("commondir".as_bytes())),
            ),
            Lookup::ResolveCommondir { target, .. } => Some(Query::Canonicalize(target.clone())),
            Lookup::ReadBackPointer { gitdir, .. } => Some(
                Query::ReadText(gitdir.join("gitdir".as_bytes())),
            ),
            Lookup::ResolveBackPointer { target, .. } => Some(
                Query::Canonicalize(target.clone()),
            ),
            Lookup::ResolveDotgit { walk, .. } => Some(Query::Canonicalize(walk.dotgit_file())),
            Lookup::Done(_) => None,
        }
    }

    /// Takes the answer to the open question. An answer of another kind changes nothing.
    pub fn resume(self, answer: Answer<UnixPath, String>) -> (r: Lookup<UnixPath>)
        ensures
            r@ == self@.next(answer.deep_view()),
            forall|fs: FileSystem|
                self@.pending() is Some && fs.answer(self@.pending()->0) == answer.deep_view()
                    ==> #[trigger] r@.outcome(fs) == self@.outcome(fs),
    {
        proof {
            assert forall|fs: FileSystem|
                self@.pending() is Some && fs.answer(self@.pending()->0)
                    == answer.deep_view() implies #[trigger] self@.next(
                answer.deep_view(),
            ).outcome(fs) == self@.outcome(fs) by {
                lemma_step(fs, self@);
            }
        }
        match (self, answer) {
            (Lookup::StartDevice { path, start }, Answer::Device(device)) => match device {
                Some(device) => Lookup::RootDevice { walk: Walk { path, device, root: start } },
                None => Lookup::Done(None),
            },
            (Lookup::RootDevice { walk }, Answer::Device(device)) => match device {
                Some(device) if device == walk.device => Lookup::DotgitIsDir { walk },
                _ => Lookup::Done(None),
            },
            (Lookup::DotgitIsDir { walk }, Answer::IsDir(is_dir)) => if is_dir {
                Lookup::Done(None)
            } else {
                Lookup::DotgitIsFile { walk }
            },
            (Lookup::DotgitIsFile { walk }, Answer::IsFile(is_file)) => if is_file {
                Lookup::ReadDotgit { walk }
            } else {
                walk.continue_above()
            },
            (Lookup::ReadDotgit { walk }, Answer::Text(contents)) => match contents {
                Some(contents) => walk.point_at_gitdir(contents.as_str()),
                None => walk.continue_above(),
            },
            (Lookup::ResolveGitdir { walk, .. }, Answer::Canonical(gitdir)) => match gitdir {
                Some(gitdir) => Lookup::ReadCommondir { walk, gitdir },
                None => walk.continue_above(),
            },
            (Lookup::ReadCommondir { walk, gitdir }, Answer::Text(contents)) => match contents {
                Some(contents) => {
                    let target = resolve(contents.as_str(), &gitdir);
                    Lookup::ResolveCommondir { walk, gitdir, target }
                },
                None => walk.continue_above(),
            },
            (
                Lookup::ResolveCommondir { walk, gitdir, .. },
                Answer::Canonical(commondir),
            ) => match commondir {
                Some(commondir) => if check_layout(&commondir, &gitdir) {
                    Lookup::ReadBackPointer { walk, gitdir, commondir }
                } else {
                    walk.continue_above()
                },
                None => walk.continue_above(),
            },
            (
                Lookup::ReadBackPointer { walk, gitdir, commondir },
                Answer::Text(contents),
            ) => match contents {
                Some(contents) => {
                    let target = resolve(contents.as_str(), &gitdir);
                    Lookup::ResolveBackPointer { walk, commondir, target }
                },
                None => walk.continue_above(),
            },
            (
                Lookup::ResolveBackPointer { walk, commondir, .. },
                Answer::Canonical(back_pointer),
            ) => match back_pointer {
                Some(back_pointer) => Lookup::ResolveDotgit { walk, commondir, back_pointer },
                None => walk.continue_above(),
            },
            (
                Lookup::ResolveDotgit { walk, commondir, back_pointer },
                Answer::Canonical(actual),
            ) => match actual {
                Some(actual) => if back_pointer.same_path(&actual) {
                    walk.arrive_at(commondir.parent())
                } else {
                    walk.continue_above()
                },
                None => walk.continue_above(),
            },
            (lookup, _) => lookup,
        }
    }
}

/// The `k`-th ancestor of `start` is on the given device and has no `.git` directory.
pub open spec fn passable(fs: FileSystem, start: Seq<u8>, device: u64, k: nat) -> bool {
    &&& path::ancestor(start, k) matches Some(root)
    &&& fs.devices.get(root) == Some(device)
    &&& !fs.directories.contains(dotgit(root))
}

/// Root of the main checkout that the `.git` file of `root` belongs to, if there is such a file.
pub open spec fn claimed_root(fs: FileSystem, root: Seq<u8>) -> Option<Seq<u8>> {
    if fs.files.contains(dotgit(root)) {
        main_checkout_root(fs, dotgit(root))
    } else {
        None
    }
}

/// The `k`-th ancestor of `start` is the nearest one that belongs to a main checkout, and the way
/// to it stays on the given device and meets no `.git` directory.
pub open spec fn worktree_root_at(fs: FileSystem, start: Seq<u8>, device: u64, k: nat) -> bool {
    &&& forall|j: nat| j <= k ==> #[trigger] passable(fs, start, device, j)
    &&& forall|j: nat|
        j < k ==> claimed_root(fs, (#[trigger] path::ancestor(start, j))->0) is None
    &&& claimed_root(fs, path::ancestor(start, k)->0) is Some
}

/// The equivalent path `q` comes from the `k`-th ancestor of the directory of `path`.
pub open spec fn equivalent_at(fs: FileSystem, path: Seq<u8>, k: nat, q: Seq<u8>) -> bool {
    &&& path::parent(path) matches Some(start)
    &&& fs.devices.get(start) matches Some(device)
    &&& worktree_root_at(fs, start, device, k)
    &&& path::ancestor(start, k) matches Some(root)
    &&& relocated(path, root, claimed_root(fs, root)->0) == Some(q)
}

proof fn lemma_found_from(
    fs: FileSystem,
    path: Seq<u8>,
    device: u64,
    start: Seq<u8>,
) -> (k: nat)
    ensures
        found_from(fs, path, device, start) is Some ==> {
            &&& worktree_root_at(fs, start, device, k)
            &&& path::ancestor(start, k) matches Some(root)
            &&& relocated(path, root, claimed_root(fs, root)->0) == found_from(
                fs,
                path,
                device,
                start,
            )
        },
    decreases start.len(),
{
    path::lemma_parent_shorter(start);
    if found_from(fs, path, device, start) is None {
        0
    } else if claimed_root(fs, start) is Some {
        assert(path::ancestor(start, 0) == Some(start));
        0
    } else {
        let up = path::parent(start)->0;
        let above = lemma_found_from(fs, path, device, up);
        let k = above + 1;
        assert forall|j: nat| j <= k implies #[trigger] passable(fs, start, device, j) by {
            if j > 0 {
                assert(passable(fs, up, device, (j - 1) as nat));
            }
        }
        assert forall|j: nat| j < k implies claimed_root(
            fs,
            (#[trigger] path::ancestor(start, j))->0,
        ) is None by {
            if j > 0 {
                assert(path::ancestor(up, (j - 1) as nat) == path::ancestor(start, j));
            }
        }
        k
    }
}

proof fn lemma_found_from_at(
    fs: FileSystem,
    path: Seq<u8>,
    device: u64,
    start: Seq<u8>,
    k: nat,
)
    requires
        worktree_root_at(fs, start, device, k),
    ensures
        found_from(fs, path, device, start) == relocated(
            path,
            path::ancestor(start, k)->0,
            claimed_root(fs, path::ancestor(start, k)->0)->0,
        ),
    decreases k,
{
    assert(passable(fs, start, device, 0));
    if k > 0 {
        assert(path::ancestor(start, 0) == Some(start));
        assert(claimed_root(fs, path::ancestor(start, 0)->0) is None);
        assert(passable(fs, start, device, 1));
        let up = path::parent(start)->0;
        let above = (k - 1) as nat;
        assert forall|j: nat| j <= above implies #[trigger] passable(fs, up, device, j) by {
            assert(passable(fs, start, device, j + 1));
        }
        assert forall|j: nat| j < above implies claimed_root(
            fs,
            (#[trigger] path::ancestor(up, j))->0,
        ) is None by {
            assert(path::ancestor(start, j + 1) == path::ancestor(up, j));
        }
        lemma_found_from_at(fs, path, device, up, above);
    }
}

/// A path has an equivalent exactly when the nearest ancestor that is registered with a main
/// checkout can be reached without leaving the device and without meeting a `.git` directory. The
/// equivalent is then the same place below the main checkout.
pub proof fn lemma_equivalent(fs: FileSystem, path: Seq<u8>, q: Seq<u8>)
    ensures
        equivalent(fs, path) == Some(q) <==> exists|k: nat| equivalent_at(fs, path, k, q),
{
    if let Some(start) = path::parent(path) {
        if let Some(device) = fs.devices.get(start) {
            let k = lemma_found_from(fs, path, device, start);
            if equivalent(fs, path) == Some(q) {
                assert(equivalent_at(fs, path, k, q));
            }
            if exists|k: nat| equivalent_at(fs, path, k, q) {
                let k = choose|k: nat| equivalent_at(fs, path, k, q);
                lemma_found_from_at(fs, path, device, start, k);
            }
        }
    }
}

/// The equivalent of a path is never the path itself.
pub proof fn lemma_equivalent_differs(fs: FileSystem, path: Seq<u8>)
    ensures
        equivalent(fs, path) matches Some(q) ==> !path::same_path(q, path),
{
    if let Some(q) = equivalent(fs, path) {
        lemma_equivalent(fs, path, q);
    }
}

/// A moved path lies at the same place below the main checkout as it did below the worktree. Left
/// out are paths like `./a` seen from the empty path: the leading `.` is lost.
pub proof fn lemma_relocated_place(path: Seq<u8>, root: Seq<u8>, main_root: Seq<u8>)
    requires
        path::components(root).len() > 0 || !path::has_leading_dot(path),
    ensures
        relocated(path, root, main_root) matches Some(q) ==> exists|below: Seq<path::Component>|
            path::components(path) == #[trigger] (path::components(root) + below)
                && path::components(q) == path::components(main_root) + below,
{
    if let Some(q) = relocated(path, root, main_root) {
        let rest = path::strip_prefix(path, root)->0;
        path::lemma_strip_prefix_components(path, root);
        if path::components(root).len() == 0 {
            path::lemma_trimmed_lead(path);
            if path::is_absolute(rest) {
                assert(path::components(root) + path::components(rest) =~= path::components(rest));
                assert(path::same_path(q, path));
            }
        }
        path::lemma_join_components(main_root, rest);
        assert(path::components(path) == path::components(root) + path::components(rest));
    }
}

/// On the way up from a path, moving it fails only where it would stay the same path.
pub proof fn lemma_relocated_from_ancestor(
    path: Seq<u8>,
    k: nat,
    root: Seq<u8>,
    main_root: Seq<u8>,
)
    requires
        path::ancestor(path, k) == Some(root),
    ensures
        path::strip_prefix(path, root) is Some,
        relocated(path, root, main_root) is None <==> path::same_path(
            path::join(main_root, path::strip_prefix(path, root)->0),
            path,
        ),
{
    path::lemma_ancestor_components(path, k);
}

/// Every resolved path is absolute, and resolves to itself.
pub open spec fn canonical_paths_are_fixed(fs: FileSystem) -> bool {
    forall|p: Seq<u8>|
        (#[trigger] fs.canonical.get(p)) matches Some(c) ==> path::is_absolute(c)
            && fs.canonical.get(c) == Some(c)
}

/// A pointer with the text of a resolved path resolves to that path, whatever it is taken relative
/// to. Left out are resolved paths that are no text, or end with white space.
pub proof fn lemma_resolved_is_fixed(
    fs: FileSystem,
    pointer: Seq<char>,
    base: Seq<u8>,
    resolved_text: Seq<char>,
    other_base: Seq<u8>,
)
    requires
        canonical_paths_are_fixed(fs),
        resolved(fs, pointer, base) == Some(text::utf8(resolved_text)),
        resolved_text.len() > 0 ==> !text::is_white_space(resolved_text.last()),
    ensures
        pointer_target(resolved_text, other_base) == text::utf8(resolved_text),
        resolved(fs, resolved_text, other_base) == Some(text::utf8(resolved_text)),
{
    let q = text::utf8(resolved_text);
    assert(fs.canonical.get(pointer_target(pointer, base)) == Some(q));
    assert(q[0] == path::SEPARATOR);
    vstd::utf8::encode_utf8_first_scalar(resolved_text);
    assert((0x2fu8 & 0x7fu8) as u32 == 0x2fu32) by (bit_vector);
    vstd::utf8::char_u32_cast(resolved_text[0], 0x2fu32);
    assert(resolved_text[0] == '/');
}

/// The components `below` lie below `root` in `path`, and below `main_root` in `q`.
pub open spec fn same_place(
    path: Seq<u8>,
    root: Seq<u8>,
    q: Seq<u8>,
    main_root: Seq<u8>,
    below: Seq<path::Component>,
) -> bool {
    &&& path::components(path) == path::components(root) + below
    &&& path::components(q) == path::components(main_root) + below
}

/// The equivalent `q` that comes from the `k`-th ancestor of the directory of `path` is another
/// absolute path with the same file name. It lies below the main checkout where the path lies below
/// that ancestor. Left out are paths like `./a` seen from the empty path: the leading `.` is lost.
pub proof fn lemma_equivalent_place_at(
    fs: FileSystem,
    path: Seq<u8>,
    k: nat,
    q: Seq<u8>,
) -> (below: Seq<path::Component>)
    requires
        equivalent_at(fs, path, k, q),
        path::ancestor(path::parent(path)->0, k) != Some(Seq::<u8>::empty())
            || !path::has_leading_dot(path),
        forall|p: Seq<u8>|
            (#[trigger] fs.canonical.get(p)) matches Some(c) ==> path::is_absolute(c),
    ensures
        !path::same_path(q, path),
        path::is_absolute(q),
        path::file_name(q) == path::file_name(path),
        below.len() > 0,
        path::ancestor(path::parent(path)->0, k) matches Some(root) && claimed_root(fs, root)
            matches Some(main_root) && same_place(path, root, q, main_root, below),
{
    let start = path::parent(path)->0;
    let root = path::ancestor(start, k)->0;
    let main_root = claimed_root(fs, root)->0;
    let gitdir = gitdir_of(fs, dotgit(root))->0;
    let pointer = fs.texts.get(path::join(gitdir, text::utf8("commondir"@)))->0;
    let commondir = pointed_from(fs, gitdir, "commondir"@)->0;
    assert(fs.canonical.get(pointer_target(pointer, gitdir)) == Some(commondir));
    path::lemma_parent_absolute(commondir);
    assert(path::is_absolute(q));
    if path::components(root).len() == 0 {
        path::lemma_no_components(root);
    }
    lemma_relocated_place(path, root, main_root);
    let below = choose|below: Seq<path::Component>|
        path::components(path) == #[trigger] (path::components(root) + below)
            && path::components(q) == path::components(main_root) + below;
    path::lemma_parent_components(path);
    path::lemma_ancestor_components(start, k);
    assert(path::components(root).len() <= path::components(start).len());
    assert(path::components(start).len() < path::components(path).len());
    assert(path::components(path).last() == below.last());
    assert(path::components(q).last() == below.last());
    if path::names(path).len() == 0 {
        assert(path::components(path).len() == 1);
        path::lemma_no_components(root);
    }
    assert(path::components(path).last() == path::name_at(path, path::names(path).last()));
    path::lemma_same_last_name(path, q);
    below
}

/// The equivalent of a path is another absolute path with the same file name. It lies below the
/// main checkout where the path lies below the root of the worktree. Left out are paths like `./a`
/// in a file system where the empty path is on a device: the leading `.` may be lost.
pub proof fn lemma_equivalent_place(fs: FileSystem, path: Seq<u8>)
    requires
        !path::has_leading_dot(path) || fs.devices.get(Seq::empty()) is None,
        forall|p: Seq<u8>|
            (#[trigger] fs.canonical.get(p)) matches Some(c) ==> path::is_absolute(c),
    ensures
        equivalent(fs, path) matches Some(q) ==> {
            &&& !path::same_path(q, path)
            &&& path::is_absolute(q)
            &&& path::file_name(q) == path::file_name(path)
            &&& exists|k: nat, root: Seq<u8>, main_root: Seq<u8>, below: Seq<path::Component>|
                {
                    &&& #[trigger] equivalent_at(fs, path, k, q)
                    &&& path::ancestor(path::parent(path)->0, k) == Some(root)
                    &&& claimed_root(fs, root) == Some(main_root)
                    &&& below.len() > 0
                    &&& #[trigger] same_place(path, root, q, main_root, below)
                }
        },
{
    if let Some(q) = equivalent(fs, path) {
        lemma_equivalent(fs, path, q);
        let k = choose|k: nat| equivalent_at(fs, path, k, q);
        let start = path::parent(path)->0;
        assert(passable(fs, start, fs.devices.get(start)->0, k));
        let below = lemma_equivalent_place_at(fs, path, k, q);
        let root = path::ancestor(start, k)->0;
        assert(same_place(path, root, q, claimed_root(fs, root)->0, below));
    }
}

/// The main checkout at `main_root` knows of the worktree: `gitdir`, the administrative directory
/// that the `.git` file of the worktree names, is a directory in `.git/worktrees` of the main
/// checkout, and its own `gitdir` file points back at the `.git` file.
pub open spec fn registers(
    fs: FileSystem,
    main_root: Seq<u8>,
    dotgit_file: Seq<u8>,
    gitdir: Seq<u8>,
    last: path::Component,
) -> bool {
    &&& gitdir_of(fs, dotgit_file) == Some(gitdir)
    &&& path::components(gitdir) == path::components(main_root) + seq![
        path::Component::Name(text::utf8(".git"@)),
        path::Component::Name(text::utf8("worktrees"@)),
        last,
    ]
    &&& pointed_from(fs, gitdir, "gitdir"@) matches Some(back_pointer)
    &&& fs.canonical.get(dotgit_file) matches Some(actual)
    &&& path::same_path(back_pointer, actual)
}

/// A worktree belongs to a main checkout only if that main checkout, in files inside it, registers
/// the worktree. What the worktree says of itself is not enough.
pub proof fn lemma_main_checkout_registers(
    fs: FileSystem,
    dotgit_file: Seq<u8>,
    main_root: Seq<u8>,
)
    requires
        main_checkout_root(fs, dotgit_file) == Some(main_root),
    ensures
        exists|gitdir: Seq<u8>, last: path::Component|
            registers(fs, main_root, dotgit_file, gitdir, last),
{
    let gitdir = gitdir_of(fs, dotgit_file)->0;
    let commondir = pointed_from(fs, gitdir, "commondir"@)->0;
    let directory = path::parent(gitdir)->0;
    let worktrees = text::utf8("worktrees"@);
    let dotgit_name = path::Component::Name(text::utf8(".git"@));
    path::lemma_file_name_component(commondir);
    path::lemma_parent_components(commondir);
    path::lemma_parent_components(gitdir);
    lemma_worktrees_component(commondir);
    let last = path::components(gitdir).last();
    assert(path::components(gitdir) =~= path::components(directory).push(last));
    assert(path::components(commondir) =~= path::components(main_root).push(dotgit_name));
    assert(path::components(gitdir) =~= path::components(main_root) + seq![
        dotgit_name,
        path::Component::Name(worktrees),
        last,
    ]);
    assert(registers(fs, main_root, dotgit_file, gitdir, last));
}

/// A worktree with the layout that `git worktree add` produces belongs to its main checkout: its
/// administrative directory `gitdir` has the common `.git` of `main_root` as `commondir`, sits in
/// the `worktrees` directory there under the name `last`, and points back at the `.git` file.
pub proof fn lemma_registered_has_main_checkout(
    fs: FileSystem,
    dotgit_file: Seq<u8>,
    gitdir: Seq<u8>,
    commondir: Seq<u8>,
    main_root: Seq<u8>,
    last: Seq<u8>,
)
    requires
        registers(fs, main_root, dotgit_file, gitdir, path::Component::Name(last)),
        pointed_from(fs, gitdir, "commondir"@) == Some(commondir),
        path::file_name(commondir) == Some(text::utf8(".git"@)),
        path::parent(commondir) == Some(main_root),
    ensures
        main_checkout_root(fs, dotgit_file) == Some(main_root),
{
    let worktrees = text::utf8("worktrees"@);
    let dotgit_name = path::Component::Name(text::utf8(".git"@));
    path::lemma_file_name_component(commondir);
    path::lemma_parent_components(commondir);
    lemma_worktrees_component(commondir);
    assert(path::components(commondir) =~= path::components(main_root).push(dotgit_name));
    assert(path::components(gitdir).last() == path::Component::Name(last));
    path::lemma_last_name_has_parent(gitdir);
    path::lemma_parent_components(gitdir);
    assert(path::components(gitdir).drop_last() =~= path::components(
        path::join(commondir, worktrees),
    ));
}

/// The directory `worktrees` has one component more than the directory that it is in.
proof fn lemma_worktrees_component(commondir: Seq<u8>)
    ensures
        path::components(path::join(commondir, text::utf8("worktrees"@))) == path::components(
            commondir,
        ).push(path::Component::Name(text::utf8("worktrees"@))),
{
    let worktrees = text::utf8("worktrees"@);
    reveal_strlit("worktrees");
    assert(vstd::utf8::is_ascii_chars("worktrees"@));
    vstd::utf8::is_ascii_chars_encode_utf8("worktrees"@);
    path::lemma_single_name(worktrees);
    path::lemma_join_components(commondir, worktrees);
    assert(path::components(commondir) + seq![path::Component::Name(worktrees)]
        =~= path::components(commondir).push(path::Component::Name(worktrees)));
}

/// A path next to a `.git` directory has no equivalent: it is in a main checkout itself.
pub proof fn lemma_main_checkout_has_no_equivalent(fs: FileSystem, path: Seq<u8>)
    requires
        path::parent(path) matches Some(start) && fs.directories.contains(dotgit(start)),
    ensures
        equivalent(fs, path) is None,
{
}

/// What the pointer files of a linked worktree say, and where that leads.
pub struct Links {
    pub pointer: Seq<char>,
    pub gitdir: Seq<u8>,
    pub common_pointer: Seq<char>,
    pub commondir: Seq<u8>,
    pub name: Seq<u8>,
    pub back_text: Seq<char>,
    pub back_pointer: Seq<u8>,
    pub actual: Seq<u8>,
}

/// The directory `root` is a linked worktree of the main checkout at `main_root`:
/// - the text of its `.git` file is `gitdir:` and a pointer to `gitdir`;
/// - the file `commondir` in that directory points at the `.git` of `main_root`;
/// - `gitdir` is the directory `name` in `worktrees` there;
/// - the file `gitdir` in it points back at the `.git` file of `root`.
/// Where `root` lies plays no part.
pub open spec fn linked(
    fs: FileSystem,
    root: Seq<u8>,
    main_root: Seq<u8>,
    links: Links,
) -> bool {
    let file = path::join(root, text::utf8(".git"@));
    &&& fs.files.contains(file)
    &&& fs.texts.get(file) == Some("gitdir:"@ + links.pointer)
    &&& path::parent(file) matches Some(base)
    &&& fs.canonical.get(path::join(base, text::utf8(text::trimmed(links.pointer)))) == Some(
        links.gitdir,
    )
    &&& fs.texts.get(path::join(links.gitdir, text::utf8("commondir"@))) == Some(
        links.common_pointer,
    )
    &&& fs.canonical.get(
        path::join(links.gitdir, text::utf8(text::trimmed(links.common_pointer))),
    ) == Some(links.commondir)
    &&& path::parent(links.commondir) == Some(main_root)
    &&& path::components(links.commondir) == path::components(main_root).push(
        path::Component::Name(text::utf8(".git"@)),
    )
    &&& path::components(links.gitdir) == path::components(main_root) + seq![
        path::Component::Name(text::utf8(".git"@)),
        path::Component::Name(text::utf8("worktrees"@)),
        path::Component::Name(links.name),
    ]
    &&& fs.texts.get(path::join(links.gitdir, text::utf8("gitdir"@))) == Some(links.back_text)
    &&& fs.canonical.get(path::join(links.gitdir, text::utf8(text::trimmed(links.back_text))))
        == Some(links.back_pointer)
    &&& fs.canonical.get(file) == Some(links.actual)
    &&& path::components(links.back_pointer) == path::components(links.actual)
}

/// The directory `root` is a linked worktree of some main checkout.
pub open spec fn is_linked(fs: FileSystem, root: Seq<u8>) -> bool {
    exists|main_root: Seq<u8>, links: Links| linked(fs, root, main_root, links)
}

proof fn lemma_dotgit_name()
    ensures
        text::utf8(".git"@) == seq![0x2eu8, 0x67u8, 0x69u8, 0x74u8],
{
    reveal_strlit(".git");
    assert(vstd::utf8::is_ascii_chars(".git"@));
    vstd::utf8::is_ascii_chars_encode_utf8(".git"@);
    assert(text::utf8(".git"@) =~= seq![0x2eu8, 0x67u8, 0x69u8, 0x74u8]);
}

/// A directory belongs to a main checkout exactly when it is a linked worktree of it, wherever it
/// lies.
pub proof fn lemma_linked(fs: FileSystem, root: Seq<u8>, main_root: Seq<u8>)
    ensures
        claimed_root(fs, root) == Some(main_root) <==> exists|links: Links|
            linked(fs, root, main_root, links),
{
    let file = path::join(root, text::utf8(".git"@));
    assert(file == dotgit(root));
    if claimed_root(fs, root) == Some(main_root) {
        let contents = fs.texts.get(file)->0;
        let pointer = text::after_prefix(contents, "gitdir:"@)->0;
        text::lemma_after_prefix(contents, "gitdir:"@, pointer);
        let gitdir = gitdir_of(fs, file)->0;
        let common_pointer = fs.texts.get(path::join(gitdir, text::utf8("commondir"@)))->0;
        let commondir = pointed_from(fs, gitdir, "commondir"@)->0;
        let back_text = fs.texts.get(path::join(gitdir, text::utf8("gitdir"@)))->0;
        let back_pointer = pointed_from(fs, gitdir, "gitdir"@)->0;
        let actual = fs.canonical.get(file)->0;
        lemma_main_checkout_registers(fs, file, main_root);
        let (g, last) = choose|g: Seq<u8>, last: path::Component|
            registers(fs, main_root, file, g, last);
        assert(g == gitdir);
        path::lemma_root_comes_first(gitdir);
        let n = path::components(main_root).len() as int;
        assert(path::components(gitdir)[n + 2] == last);
        let name = last->Name_0;
        path::lemma_file_name(commondir, text::utf8(".git"@));
        path::lemma_parent(commondir);
        assert(path::components(commondir) =~= path::components(main_root).push(
            path::Component::Name(text::utf8(".git"@)),
        ));
        assert(linked(
            fs,
            root,
            main_root,
            Links {
                pointer,
                gitdir,
                common_pointer,
                commondir,
                name,
                back_text,
                back_pointer,
                actual,
            },
        ));
    }
    if exists|links: Links| linked(fs, root, main_root, links) {
        let links = choose|links: Links| linked(fs, root, main_root, links);
        text::lemma_after_prefix("gitdir:"@ + links.pointer, "gitdir:"@, links.pointer);
        assert(gitdir_of(fs, file) == Some(links.gitdir));
        lemma_dotgit_name();
        assert(text::utf8(".git"@).len() == 4);
        path::lemma_file_name(links.commondir, text::utf8(".git"@));
        assert(path::components(links.commondir).last() == path::Component::Name(
            text::utf8(".git"@),
        ));
        assert(registers(
            fs,
            main_root,
            file,
            links.gitdir,
            path::Component::Name(links.name),
        ));
        lemma_registered_has_main_checkout(
            fs,
            file,
            links.gitdir,
            links.commondir,
            main_root,
            links.name,
        );
    }
}

/// The directory `k` levels above `start` is on the device and has no `.git` directory.
pub open spec fn open_way(fs: FileSystem, start: Seq<u8>, device: u64, k: nat) -> bool {
    &&& path::ancestor(start, k) matches Some(directory)
    &&& fs.devices.get(directory) == Some(device)
    &&& !fs.directories.contains(path::join(directory, text::utf8(".git"@)))
}

/// The directory `k` levels above that of `path` is `root`, a linked worktree of the main checkout
/// at `main_root`. None is nearer, and the way there stays on one device and meets no `.git`
/// directory.
pub open spec fn worktree_on_way(
    fs: FileSystem,
    path: Seq<u8>,
    k: nat,
    root: Seq<u8>,
    main_root: Seq<u8>,
    links: Links,
) -> bool {
    &&& path::parent(path) matches Some(start)
    &&& fs.devices.get(start) matches Some(device)
    &&& path::ancestor(start, k) == Some(root)
    &&& linked(fs, root, main_root, links)
    &&& forall|j: nat| j <= k ==> #[trigger] open_way(fs, start, device, j)
    &&& forall|j: nat| j < k ==> !is_linked(fs, (#[trigger] path::ancestor(start, j))->0)
}

/// `q` is another path than `path`: what `path` has below `root`, seen from `main_root`.
pub open spec fn moved(path: Seq<u8>, root: Seq<u8>, main_root: Seq<u8>, q: Seq<u8>) -> bool {
    &&& path::strip_prefix(path, root) matches Some(rest)
    &&& q == path::join(main_root, rest)
    &&& path::components(q) != path::components(path)
}

/// The search ends with a path exactly when the nearest linked worktree around the given path can be
/// reached without leaving the device and without meeting a `.git` directory. It ends with the same
/// place in the main checkout of that worktree.
pub proof fn lemma_main_checkout_equivalent(fs: FileSystem, path: Seq<u8>, q: Seq<u8>)
    ensures
        Lookup::begin(path).run(fs) == Some(q) <==> exists|
            k: nat,
            root: Seq<u8>,
            main_root: Seq<u8>,
            links: Links,
        |
            #[trigger] worktree_on_way(fs, path, k, root, main_root, links) && moved(
                path,
                root,
                main_root,
                q,
            ),
        equivalent(fs, path) == Lookup::begin(path).run(fs),
{
    lemma_run(fs, path);
    lemma_equivalent(fs, path, q);
    let found = exists|k: nat, root: Seq<u8>, main_root: Seq<u8>, links: Links|
        #[trigger] worktree_on_way(fs, path, k, root, main_root, links) && moved(
            path,
            root,
            main_root,
            q,
        );
    if equivalent(fs, path) == Some(q) {
        let k = choose|k: nat| equivalent_at(fs, path, k, q);
        let start = path::parent(path)->0;
        let device = fs.devices.get(start)->0;
        let root = path::ancestor(start, k)->0;
        let main_root = claimed_root(fs, root)->0;
        lemma_linked(fs, root, main_root);
        let links = choose|links: Links| linked(fs, root, main_root, links);
        assert forall|j: nat| j <= k implies #[trigger] open_way(fs, start, device, j) by {
            assert(passable(fs, start, device, j));
        }
        assert forall|j: nat| j < k implies !is_linked(
            fs,
            (#[trigger] path::ancestor(start, j))->0,
        ) by {
            lemma_not_linked(fs, path::ancestor(start, j)->0);
        }
        assert(worktree_on_way(fs, path, k, root, main_root, links));
        path::lemma_same_path(q, path);
        assert(moved(path, root, main_root, q));
    }
    if found {
        let (k, root, main_root, links) = choose|
            k: nat,
            root: Seq<u8>,
            main_root: Seq<u8>,
            links: Links,
        |
            #[trigger] worktree_on_way(fs, path, k, root, main_root, links) && moved(
                path,
                root,
                main_root,
                q,
            );
        lemma_worktree_on_way(fs, path, k, root, main_root, links);
        path::lemma_same_path(q, path);
        assert(equivalent_at(fs, path, k, q));
    }
}

proof fn lemma_not_linked(fs: FileSystem, root: Seq<u8>)
    ensures
        is_linked(fs, root) <==> claimed_root(fs, root) is Some,
{
    if is_linked(fs, root) {
        let (main_root, links) = choose|main_root: Seq<u8>, links: Links|
            linked(fs, root, main_root, links);
        lemma_linked(fs, root, main_root);
    }
    if let Some(main_root) = claimed_root(fs, root) {
        lemma_linked(fs, root, main_root);
        let links = choose|links: Links| linked(fs, root, main_root, links);
        assert(linked(fs, root, main_root, links));
    }
}

proof fn lemma_worktree_on_way(
    fs: FileSystem,
    path: Seq<u8>,
    k: nat,
    root: Seq<u8>,
    main_root: Seq<u8>,
    links: Links,
)
    requires
        worktree_on_way(fs, path, k, root, main_root, links),
    ensures
        worktree_root_at(fs, path::parent(path)->0, fs.devices.get(path::parent(path)->0)->0, k),
        claimed_root(fs, root) == Some(main_root),
{
    let start = path::parent(path)->0;
    let device = fs.devices.get(start)->0;
    lemma_linked(fs, root, main_root);
    assert forall|j: nat| j <= k implies #[trigger] passable(fs, start, device, j) by {
        assert(open_way(fs, start, device, j));
    }
    assert forall|j: nat| j < k implies claimed_root(
        fs,
        (#[trigger] path::ancestor(start, j))->0,
    ) is None by {
        lemma_not_linked(fs, path::ancestor(start, j)->0);
    }
}

/// A path at the place `below` in a linked worktree has the same place in the main checkout as its
/// equivalent, wherever the worktree lies: beside the main checkout or inside it. Left out are paths
/// that have the same components there, and those like `./a` seen from the empty path.
pub proof fn lemma_worktree_path_has_equivalent(
    fs: FileSystem,
    path: Seq<u8>,
    k: nat,
    root: Seq<u8>,
    main_root: Seq<u8>,
    links: Links,
    below: Seq<path::Component>,
)
    requires
        worktree_on_way(fs, path, k, root, main_root, links),
        path::components(path) == path::components(root) + below,
        path::components(main_root) + below != path::components(path),
        path::components(root).len() > 0 || !path::has_leading_dot(path),
    ensures
        Lookup::begin(path).run(fs) matches Some(q) && path::components(q) == path::components(
            main_root,
        ) + below,
{
    path::lemma_strip_prefix(path, root);
    assert(path::components(root) =~= path::components(path).take(
        path::components(root).len() as int,
    ));
    let rest = path::strip_prefix(path, root)->0;
    assert(path::components(rest) =~= below) by {
        let n = path::components(root).len() as int;
        assert(path::components(path).skip(n) =~= below);
        assert(path::components(path).skip(n) =~= path::components(rest));
    }
    path::lemma_strip_prefix_components(path, root);
    let q = path::join(main_root, rest);
    if path::components(root).len() == 0 {
        path::lemma_trimmed_lead(path);
        assert(path::components(root) + below =~= below);
        if path::is_absolute(path) {
            path::lemma_no_components(root);
            path::lemma_parent_absolute(path);
            path::lemma_ancestor_absolute(path::parent(path)->0, k);
        }
    }
    path::lemma_join_components(main_root, rest);
    assert(moved(path, root, main_root, q));
    lemma_main_checkout_equivalent(fs, path, q);
}

/// Whatever the search ends with lies in the main checkout of a linked worktree around the path, on
/// the way to which there is nothing else. So a path has no equivalent where there is no such
/// worktree, or where a `.git` directory or another device comes first.
pub proof fn lemma_no_worktree_no_equivalent(fs: FileSystem, path: Seq<u8>)
    requires
        forall|k: nat, root: Seq<u8>, main_root: Seq<u8>, links: Links|
            !(#[trigger] worktree_on_way(fs, path, k, root, main_root, links)),
    ensures
        Lookup::begin(path).run(fs) is None,
{
    if let Some(q) = Lookup::begin(path).run(fs) {
        lemma_main_checkout_equivalent(fs, path, q);
    }
}

/// In the layout that `git worktree add` writes, with absolute paths and a line break at the end of
/// each pointer, `root` is a linked worktree of `main_root`: its `.git` file names the directory
/// `name` in `.git/worktrees` of the main checkout, whose `commondir` is `../..` and whose `gitdir`
/// names the `.git` file. Nothing is asked of where `root` lies.
pub proof fn lemma_worktree_add(
    fs: FileSystem,
    root: Seq<u8>,
    main_root: Seq<u8>,
    gitdir_text: Seq<char>,
    file_text: Seq<char>,
    commondir: Seq<u8>,
    name: Seq<u8>,
)
    requires
        ({
            let file = path::join(root, text::utf8(".git"@));
            let gitdir = text::utf8(gitdir_text);
            &&& text::utf8(file_text) == file
            &&& path::is_absolute(file)
            &&& path::is_absolute(gitdir)
            &&& gitdir_text.len() > 0 && !text::is_white_space(gitdir_text.first())
                && !text::is_white_space(gitdir_text.last())
            &&& file_text.len() > 0 && !text::is_white_space(file_text.first())
                && !text::is_white_space(file_text.last())
            &&& fs.files.contains(file)
            &&& fs.texts.get(file) == Some("gitdir: "@ + gitdir_text + "\n"@)
            &&& fs.texts.get(path::join(gitdir, text::utf8("commondir"@))) == Some("../..\n"@)
            &&& fs.texts.get(path::join(gitdir, text::utf8("gitdir"@))) == Some(
                file_text + "\n"@,
            )
            &&& fs.canonical.get(file) == Some(file)
            &&& fs.canonical.get(gitdir) == Some(gitdir)
            &&& fs.canonical.get(path::join(gitdir, text::utf8("../.."@))) == Some(commondir)
            &&& path::parent(commondir) == Some(main_root)
            &&& path::components(commondir) == path::components(main_root).push(
                path::Component::Name(text::utf8(".git"@)),
            )
            &&& path::components(gitdir) == path::components(main_root) + seq![
                path::Component::Name(text::utf8(".git"@)),
                path::Component::Name(text::utf8("worktrees"@)),
                path::Component::Name(name),
            ]
        }),
    ensures
        exists|links: Links| linked(fs, root, main_root, links),
        claimed_root(fs, root) == Some(main_root),
{
    let file = path::join(root, text::utf8(".git"@));
    let gitdir = text::utf8(gitdir_text);
    reveal_strlit("gitdir: ");
    reveal_strlit("gitdir:");
    reveal_strlit("\n");
    reveal_strlit("../..\n");
    reveal_strlit("../..");
    let space = seq![' '];
    let pointer = space + gitdir_text + "\n"@;
    assert("gitdir: "@ + gitdir_text + "\n"@ =~= "gitdir:"@ + pointer);
    text::lemma_trimmed_between(space, gitdir_text, "\n"@);
    assert("../..\n"@ =~= Seq::<char>::empty() + "../.."@ + "\n"@);
    text::lemma_trimmed_between(Seq::empty(), "../.."@, "\n"@);
    assert(file_text + "\n"@ =~= Seq::<char>::empty() + file_text + "\n"@);
    text::lemma_trimmed_between(Seq::empty(), file_text, "\n"@);
    lemma_dotgit_name();
    let dotgit_name = text::utf8(".git"@);
    path::lemma_single_name(dotgit_name);
    path::lemma_join_components(root, dotgit_name);
    assert(path::components(file).last() == path::Component::Name(dotgit_name));
    path::lemma_last_name_has_parent(file);
    let links = Links {
        pointer,
        gitdir,
        common_pointer: "../..\n"@,
        commondir,
        name,
        back_text: file_text + "\n"@,
        back_pointer: file,
        actual: file,
    };
    assert(linked(fs, root, main_root, links));
    lemma_linked(fs, root, main_root);
}

/// An answer of another kind than the question changes nothing, and neither does an answer to a
/// search that is done.
pub proof fn lemma_other_answer(lookup: Lookup<Seq<u8>>, answer: Answer<Seq<u8>, Seq<char>>)
    requires
        match lookup.pending() {
            Some(Query::Device(_)) => !(answer is Device),
            Some(Query::IsDir(_)) => !(answer is IsDir),
            Some(Query::IsFile(_)) => !(answer is IsFile),
            Some(Query::ReadText(_)) => !(answer is Text),
            Some(Query::Canonicalize(_)) => !(answer is Canonical),
            None => true,
        },
    ensures
        lookup.next(answer) == lookup,
{
}

/// The file system answers what it holds at the path that is asked for.
pub proof fn lemma_answer(fs: FileSystem, p: Seq<u8>)
    ensures
        fs.answer(Query::Device(p)) == Answer::<Seq<u8>, Seq<char>>::Device(fs.devices.get(p)),
        fs.answer(Query::IsDir(p)) == Answer::<Seq<u8>, Seq<char>>::IsDir(
            fs.directories.contains(p),
        ),
        fs.answer(Query::IsFile(p)) == Answer::<Seq<u8>, Seq<char>>::IsFile(fs.files.contains(p)),
        fs.answer(Query::ReadText(p)) == Answer::<Seq<u8>, Seq<char>>::Text(fs.texts.get(p)),
        fs.answer(Query::Canonicalize(p)) == Answer::<Seq<u8>, Seq<char>>::Canonical(
            fs.canonical.get(p),
        ),
{
}

/// Contracts speak of questions, answers and results by the bytes of their paths and the characters
/// of their texts, and of nothing less.
pub proof fn lemma_views(
    query: Query<UnixPath>,
    answer: Answer<UnixPath, String>,
    result: Option<UnixPath>,
)
    ensures
        match query {
            Query::Device(p) => query.deep_view() == Query::Device(p.bytes@),
            Query::IsDir(p) => query.deep_view() == Query::IsDir(p.bytes@),
            Query::IsFile(p) => query.deep_view() == Query::IsFile(p.bytes@),
            Query::ReadText(p) => query.deep_view() == Query::ReadText(p.bytes@),
            Query::Canonicalize(p) => query.deep_view() == Query::Canonicalize(p.bytes@),
        },
        match answer {
            Answer::Device(device) => answer.deep_view() == Answer::<Seq<u8>, Seq<char>>::Device(
                device,
            ),
            Answer::IsDir(b) => answer.deep_view() == Answer::<Seq<u8>, Seq<char>>::IsDir(b),
            Answer::IsFile(b) => answer.deep_view() == Answer::<Seq<u8>, Seq<char>>::IsFile(b),
            Answer::Text(Some(s)) => answer.deep_view() == Answer::<Seq<u8>, Seq<char>>::Text(
                Some(s@),
            ),
            Answer::Text(None) => answer.deep_view() == Answer::<Seq<u8>, Seq<char>>::Text(None),
            Answer::Canonical(Some(p)) => answer.deep_view() == Answer::<
                Seq<u8>,
                Seq<char>,
            >::Canonical(Some(p.bytes@)),
            Answer::Canonical(None) => answer.deep_view() == Answer::<
                Seq<u8>,
                Seq<char>,
            >::Canonical(None),
        },
        match result {
            Some(q) => (Lookup::Done(result))@ == Lookup::Done(Some(q.bytes@)),
            None => (Lookup::Done(result))@ == Lookup::<Seq<u8>>::Done(None),
        },
{
}

} // verus!
