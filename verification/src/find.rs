//! Finding the configuration file that applies to a directory.
//!
//! A search asks step by step: [`FindAuto::query`] says what it wants to know, [`FindAuto::resume`]
//! takes the answer.
use vstd::prelude::*;
use vstd::slice::slice_to_vec;

use crate::auto::{Auto, AutoData, AutoView};
use crate::path;
use crate::path::UnixPath;
use crate::text;

verus! {

/// What a search for a configuration fails with, by its message.
#[derive(Debug)]
pub enum Error<T> {
    /// The user asked for something that cannot be done.
    UserError(T),
    /// The configuration file is not the JSON that it should be.
    Json(T),
}

/// A search for the nearest configuration file in a directory and those above it. Here and below
/// `P` stands for paths, `D` for bytes, `A` for configurations and `T` for messages: the values
/// themselves, or what contracts say of them.
#[derive(Debug)]
pub enum FileSearch<P> {
    Probe { dir: P },
    Done(Option<P>),
}

/// A search for a configuration, by what it waits for.
#[derive(Debug)]
pub enum FindAuto<P, D, A, T> {
    Locate(FileSearch<P>),
    Read { path: P },
    Parse { path: P, json: D },
    Done(Result<Option<A>, Error<T>>),
}

/// A question of a search for a configuration.
#[derive(Debug)]
pub enum FindQuery<P, D> {
    /// Whether there is something at the path.
    Exists(P),
    /// Contents of the file.
    Read(P),
    /// What the JSON text says.
    Parse(D),
}

/// The answer to a [`FindQuery`].
#[derive(Debug)]
pub enum FindAnswer<D, T> {
    Exists(bool),
    /// `None` where the file cannot be read.
    Contents(Option<D>),
    /// The data, or why the text is not a configuration.
    Parsed(Result<AutoData, T>),
}

/// What is in the files, and what it says as JSON.
pub struct ConfigFiles {
    pub present: Set<Seq<u8>>,
    pub contents: Map<Seq<u8>, Seq<u8>>,
    pub parsed: spec_fn(Seq<u8>) -> Result<AutoData, Seq<char>>,
}

impl ConfigFiles {
    pub open spec fn answer(self, query: FindQuery<Seq<u8>, Seq<u8>>) -> FindAnswer<
        Seq<u8>,
        Seq<char>,
    > {
        match query {
            FindQuery::Exists(p) => FindAnswer::Exists(self.present.contains(p)),
            FindQuery::Read(p) => FindAnswer::Contents(self.contents.get(p)),
            FindQuery::Parse(json) => FindAnswer::Parsed((self.parsed)(json)),
        }
    }
}

pub open spec fn candidate(dir: Seq<u8>) -> Seq<u8> {
    path::join(dir, text::utf8(".mairu.json"@))
}

/// The configuration file in `dir` or else in the nearest directory above it.
pub open spec fn nearest(present: Set<Seq<u8>>, dir: Seq<u8>) -> Option<Seq<u8>>
    decreases dir.len(),
{
    if present.contains(candidate(dir)) {
        Some(candidate(dir))
    } else {
        match path::parent(dir) {
            Some(up) => {
                proof {
                    path::lemma_parent_shorter(dir);
                }
                nearest(present, up)
            },
            None => None,
        }
    }
}

/// The message for a directory that is not given by an absolute path, shown as the given text.
pub open spec fn not_absolute_text(shown: Seq<char>) -> Seq<char> {
    "Auto::find_for(dir): dir must be an absolute path, "@ + shown + " given"@
}

/// The configuration that the file at `path` holds; none where it cannot be read.
pub open spec fn loaded(files: ConfigFiles, path: Seq<u8>) -> Result<
    Option<AutoView>,
    Error<Seq<char>>,
> {
    match files.contents.get(path) {
        Some(json) => with_data(path, json, (files.parsed)(json)),
        None => Ok(None),
    }
}

pub open spec fn with_data(
    path: Seq<u8>,
    json: Seq<u8>,
    parsed: Result<AutoData, Seq<char>>,
) -> Result<Option<AutoView>, Error<Seq<char>>> {
    match parsed {
        Ok(inner) => Ok(Some(AutoView { path, data: json, inner })),
        Err(message) => Err(Error::Json(message)),
    }
}

/// The configuration that applies to a directory.
pub open spec fn config_for(files: ConfigFiles, dir: Seq<u8>) -> Result<
    Option<AutoView>,
    Error<Seq<char>>,
> {
    if !path::is_absolute(dir) {
        Err(Error::UserError(not_absolute_text(text::lossy_of(dir))))
    } else {
        match nearest(files.present, dir) {
            Some(path) => loaded(files, path),
            None => Ok(None),
        }
    }
}

impl FileSearch<Seq<u8>> {
    /// The candidate that is asked for; `None` when the search is done.
    pub open spec fn pending(self) -> Option<Seq<u8>> {
        match self {
            FileSearch::Probe { dir } => Some(candidate(dir)),
            FileSearch::Done(_) => None,
        }
    }

    pub open spec fn next(self, exists: bool) -> Self {
        match self {
            FileSearch::Probe { dir } => if exists {
                FileSearch::Done(Some(candidate(dir)))
            } else {
                match path::parent(dir) {
                    Some(up) => FileSearch::Probe { dir: up },
                    None => FileSearch::Done(None),
                }
            },
            FileSearch::Done(_) => self,
        }
    }

    /// How the search ends.
    pub open spec fn outcome(self, present: Set<Seq<u8>>) -> Option<Seq<u8>> {
        match self {
            FileSearch::Probe { dir } => nearest(present, dir),
            FileSearch::Done(found) => found,
        }
    }
}

impl FindAuto<Seq<u8>, Seq<u8>, AutoView, Seq<char>> {
    pub open spec fn begin(dir: Seq<u8>) -> Self {
        if path::is_absolute(dir) {
            FindAuto::Locate(FileSearch::Probe { dir })
        } else {
            FindAuto::Done(Err(Error::UserError(not_absolute_text(text::lossy_of(dir)))))
        }
    }

    /// The file search has come to its end or goes on.
    pub open spec fn located(search: FileSearch<Seq<u8>>) -> Self {
        match search {
            FileSearch::Probe { dir } => FindAuto::Locate(search),
            FileSearch::Done(Some(path)) => FindAuto::Read { path },
            FileSearch::Done(None) => FindAuto::Done(Ok(None)),
        }
    }

    /// The question that is open; `None` when the search is done.
    pub open spec fn pending(self) -> Option<FindQuery<Seq<u8>, Seq<u8>>> {
        match self {
            FindAuto::Locate(FileSearch::Probe { dir }) => Some(FindQuery::Exists(candidate(dir))),
            FindAuto::Locate(FileSearch::Done(_)) => None,
            FindAuto::Read { path } => Some(FindQuery::Read(path)),
            FindAuto::Parse { path, json } => Some(FindQuery::Parse(json)),
            FindAuto::Done(_) => None,
        }
    }

    /// The search after an answer. An answer of another kind than the question is passed over.
    pub open spec fn next(self, answer: FindAnswer<Seq<u8>, Seq<char>>) -> Self {
        match (self, answer) {
            (FindAuto::Locate(search), FindAnswer::Exists(exists)) => Self::located(
                search.next(exists),
            ),
            (FindAuto::Read { path }, FindAnswer::Contents(contents)) => match contents {
                Some(json) => FindAuto::Parse { path, json },
                None => FindAuto::Done(Ok(None)),
            },
            (FindAuto::Parse { path, json }, FindAnswer::Parsed(parsed)) => FindAuto::Done(
                with_data(path, json, parsed),
            ),
            _ => self,
        }
    }

    /// How the search ends on files that stay as they are.
    pub open spec fn outcome(self, files: ConfigFiles) -> Result<
        Option<AutoView>,
        Error<Seq<char>>,
    > {
        match self {
            FindAuto::Locate(search) => match search.outcome(files.present) {
                Some(path) => loaded(files, path),
                None => Ok(None),
            },
            FindAuto::Read { path } => loaded(files, path),
            FindAuto::Parse { path, json } => with_data(path, json, (files.parsed)(json)),
            FindAuto::Done(result) => result,
        }
    }

    /// A bound on the questions that are left.
    pub open spec fn questions_left(self) -> nat {
        match self {
            FindAuto::Locate(FileSearch::Probe { dir }) => dir.len() + 3,
            FindAuto::Locate(FileSearch::Done(_)) => 3,
            FindAuto::Read { .. } => 2,
            FindAuto::Parse { .. } => 1,
            FindAuto::Done(_) => 0,
        }
    }

    /// The search run to its end.
    pub open spec fn run(self, files: ConfigFiles) -> Result<Option<AutoView>, Error<Seq<char>>>
        decreases self.questions_left(),
    {
        match self.pending() {
            Some(query) => {
                proof {
                    lemma_find_step(files, self);
                }
                self.next(files.answer(query)).run(files)
            },
            None => match self {
                FindAuto::Done(result) => result,
                _ => Ok(None),
            },
        }
    }
}

/// Each answer brings the search closer to its end and leaves that end as it is.
pub proof fn lemma_find_step(
    files: ConfigFiles,
    find: FindAuto<Seq<u8>, Seq<u8>, AutoView, Seq<char>>,
)
    requires
        find.pending() is Some,
    ensures
        find.next(files.answer(find.pending()->0)).questions_left() < find.questions_left(),
        find.next(files.answer(find.pending()->0)).outcome(files) == find.outcome(files),
{
    if let FindAuto::Locate(FileSearch::Probe { dir }) = find {
        path::lemma_parent_shorter(dir);
    }
}

/// On files that stay as they are, the search ends with the configuration that applies to the
/// directory.
pub proof fn lemma_find_for(files: ConfigFiles, dir: Seq<u8>)
    ensures
        FindAuto::<Seq<u8>, Seq<u8>, AutoView, Seq<char>>::begin(dir).run(files) == config_for(
            files,
            dir,
        ),
{
    lemma_find_run(files, FindAuto::begin(dir));
}

proof fn lemma_find_run(
    files: ConfigFiles,
    find: FindAuto<Seq<u8>, Seq<u8>, AutoView, Seq<char>>,
)
    requires
        !(find matches FindAuto::Locate(FileSearch::Done(_))),
    ensures
        find.run(files) == find.outcome(files),
    decreases find.questions_left(),
{
    if find.pending() is Some {
        lemma_find_step(files, find);
        lemma_find_run(files, find.next(files.answer(find.pending()->0)));
    }
}

/// The file found is the candidate of the nearest directory that has one.
pub proof fn lemma_nearest(present: Set<Seq<u8>>, dir: Seq<u8>, found: Seq<u8>)
    ensures
        nearest(present, dir) == Some(found) <==> exists|k: nat|
            nearest_at(present, dir, k, found),
    decreases dir.len(),
{
    path::lemma_parent_shorter(dir);
    if present.contains(candidate(dir)) {
        assert(path::ancestor(dir, 0) == Some(dir));
        if nearest(present, dir) == Some(found) {
            assert(nearest_at(present, dir, 0, found));
        }
        if exists|k: nat| nearest_at(present, dir, k, found) {
            let k = choose|k: nat| nearest_at(present, dir, k, found);
            if k > 0 {
                assert(path::ancestor(dir, 0) is Some);
            }
        }
    } else if let Some(up) = path::parent(dir) {
        lemma_nearest(present, up, found);
        if nearest(present, dir) == Some(found) {
            let above = choose|k: nat| nearest_at(present, up, k, found);
            assert forall|j: nat| j < above + 1 implies !present.contains(
                candidate((#[trigger] path::ancestor(dir, j))->0),
            ) by {
                if j > 0 {
                    assert(path::ancestor(dir, j) == path::ancestor(up, (j - 1) as nat));
                }
            }
            assert(nearest_at(present, dir, above + 1, found));
        }
        if exists|k: nat| nearest_at(present, dir, k, found) {
            let k = choose|k: nat| nearest_at(present, dir, k, found);
            assert(k > 0) by {
                assert(path::ancestor(dir, 0) == Some(dir));
            }
            let above = (k - 1) as nat;
            assert forall|j: nat| j < above implies !present.contains(
                candidate((#[trigger] path::ancestor(up, j))->0),
            ) by {
                assert(path::ancestor(dir, j + 1) == path::ancestor(up, j));
            }
            assert(nearest_at(present, up, above, found));
        }
    } else {
        if exists|k: nat| nearest_at(present, dir, k, found) {
            let k = choose|k: nat| nearest_at(present, dir, k, found);
            assert(path::ancestor(dir, 0) == Some(dir));
            assert(k == 0);
        }
    }
}

/// The directory `k` levels up is the nearest one with a configuration file, and `found` is it.
pub open spec fn nearest_at(present: Set<Seq<u8>>, dir: Seq<u8>, k: nat, found: Seq<u8>) -> bool {
    &&& path::ancestor(dir, k) matches Some(at) && candidate(at) == found && present.contains(found)
    &&& forall|j: nat| j < k ==> !present.contains(candidate((#[trigger] path::ancestor(dir, j))->0))
}

impl DeepView for Error<String> {
    type V = Error<Seq<char>>;

    open spec fn deep_view(&self) -> Error<Seq<char>> {
        match self {
            Error::UserError(message) => Error::UserError(message@),
            Error::Json(message) => Error::Json(message@),
        }
    }
}

impl View for FileSearch<UnixPath> {
    type V = FileSearch<Seq<u8>>;

    open spec fn view(&self) -> FileSearch<Seq<u8>> {
        match self {
            FileSearch::Probe { dir } => FileSearch::Probe { dir: dir@ },
            FileSearch::Done(found) => FileSearch::Done(found.deep_view()),
        }
    }
}

/// What a finished search holds.
pub open spec fn result_view(r: Result<Option<Auto>, Error<String>>) -> Result<
    Option<AutoView>,
    Error<Seq<char>>,
> {
    match r {
        Ok(found) => Ok(found.deep_view()),
        Err(e) => Err(e.deep_view()),
    }
}

impl View for FindAuto<UnixPath, Vec<u8>, Auto, String> {
    type V = FindAuto<Seq<u8>, Seq<u8>, AutoView, Seq<char>>;

    open spec fn view(&self) -> FindAuto<Seq<u8>, Seq<u8>, AutoView, Seq<char>> {
        match self {
            FindAuto::Locate(search) => FindAuto::Locate(search@),
            FindAuto::Read { path } => FindAuto::Read { path: path@ },
            FindAuto::Parse { path, json } => FindAuto::Parse { path: path@, json: json@ },
            FindAuto::Done(result) => FindAuto::Done(result_view(*result)),
        }
    }
}

impl DeepView for FindQuery<UnixPath, Vec<u8>> {
    type V = FindQuery<Seq<u8>, Seq<u8>>;

    open spec fn deep_view(&self) -> FindQuery<Seq<u8>, Seq<u8>> {
        match self {
            FindQuery::Exists(p) => FindQuery::Exists(p@),
            FindQuery::Read(p) => FindQuery::Read(p@),
            FindQuery::Parse(json) => FindQuery::Parse(json@),
        }
    }
}

impl View for FindAnswer<Vec<u8>, String> {
    type V = FindAnswer<Seq<u8>, Seq<char>>;

    open spec fn view(&self) -> FindAnswer<Seq<u8>, Seq<char>> {
        match self {
            FindAnswer::Exists(exists) => FindAnswer::Exists(*exists),
            FindAnswer::Contents(contents) => FindAnswer::Contents(
                match contents {
                    Some(json) => Some(json@),
                    None => None,
                },
            ),
            FindAnswer::Parsed(parsed) => FindAnswer::Parsed(
                match parsed {
                    Ok(inner) => Ok(*inner),
                    Err(message) => Err(message@),
                },
            ),
        }
    }
}

/// The message for a directory that is not given by an absolute path, shown as the given text.
pub fn not_absolute_message(shown: &str) -> (r: String)
    ensures
        r@ == not_absolute_text(shown@),
{
    let mut message = String::from_str("Auto::find_for(dir): dir must be an absolute path, ");
    message.append(shown);
    message.append(" given");
    message
}

/// The file that a directory would have its configuration in.
fn candidate_in(dir: &UnixPath) -> (r: UnixPath)
    ensures
        r@ == candidate(dir@),
{
    dir.join(".mairu.json".as_bytes())
}

/// Begins the search for the configuration file in a directory or the nearest one above it. The
/// directory must be given by an absolute path.
pub fn find_auto_file_path(dir: &UnixPath) -> (r: Result<FileSearch<UnixPath>, Error<String>>)
    ensures
        match r {
            Ok(search) => {
                &&& path::is_absolute(dir@)
                &&& search@ == (FileSearch::Probe { dir: dir@ })
                &&& forall|present: Set<Seq<u8>>| #[trigger]
                    search@.outcome(present) == nearest(present, dir@)
            },
            Err(e) => {
                &&& !path::is_absolute(dir@)
                &&& e.deep_view() == Error::UserError(not_absolute_text(text::lossy_of(dir@)))
            },
        },
{
    if !dir.is_absolute() {
        let shown = text::lossy(dir.bytes.as_slice());
        return Err(Error::UserError(not_absolute_message(shown.as_str())));
    }
    Ok(FileSearch::Probe { dir: dir.clone() })
}

impl FileSearch<UnixPath> {
    /// The path that the search wants to know to exist, or `None` when it is done.
    pub fn query(&self) -> (r: Option<UnixPath>)
        ensures
            r.deep_view() == self@.pending(),
            r is None <==> self is Done,
    {
        match self {
            FileSearch::Probe { dir } => Some(candidate_in(dir)),
            FileSearch::Done(_) => None,
        }
    }

    /// Takes the answer whether the candidate exists.
    pub fn resume(self, exists: bool) -> (r: FileSearch<UnixPath>)
        ensures
            r@ == self@.next(exists),
            forall|present: Set<Seq<u8>>|
                self@.pending() is Some && present.contains(self@.pending()->0) == exists
                    ==> #[trigger] r@.outcome(present) == self@.outcome(present),
    {
        match self {
            FileSearch::Probe { dir } => if exists {
                FileSearch::Done(Some(candidate_in(&dir)))
            } else {
                match dir.parent() {
                    Some(up) => FileSearch::Probe { dir: up },
                    None => FileSearch::Done(None),
                }
            },
            FileSearch::Done(found) => FileSearch::Done(found),
        }
    }
}

impl Auto {
    /// Begins the search for the configuration that applies to a directory.
    pub fn find_for(dir: &UnixPath) -> (r: FindAuto<UnixPath, Vec<u8>, Auto, String>)
        ensures
            r@ == FindAuto::<Seq<u8>, Seq<u8>, AutoView, Seq<char>>::begin(dir@),
            forall|files: ConfigFiles| #[trigger] r@.outcome(files) == config_for(files, dir@),
    {
        match find_auto_file_path(dir) {
            Ok(search) => FindAuto::Locate(search),
            Err(e) => FindAuto::Done(Err(e)),
        }
    }
}

impl FindAuto<UnixPath, Vec<u8>, Auto, String> {
    /// What the search wants to know, or `None` when there is nothing to ask.
    pub fn query(&self) -> (r: Option<FindQuery<UnixPath, Vec<u8>>>)
        ensures
            r.deep_view() == self@.pending(),
            r is None <==> (self is Done || self matches FindAuto::Locate(FileSearch::Done(_))),
    {
        match self {
            FindAuto::Locate(search) => match search.query() {
                Some(candidate) => Some(FindQuery::Exists(candidate)),
                None => None,
            },
            FindAuto::Read { path } => Some(FindQuery::Read(path.clone())),
            FindAuto::Parse { json, .. } => Some(
                FindQuery::Parse(slice_to_vec(json.as_slice())),
            ),
            FindAuto::Done(_) => None,
        }
    }

    /// Takes the answer to the open question. An answer of another kind changes nothing.
    pub fn resume(self, answer: FindAnswer<Vec<u8>, String>) -> (r: FindAuto<
        UnixPath,
        Vec<u8>,
        Auto,
        String,
    >)
        ensures
            r@ == self@.next(answer@),
            match (self, answer) {
                (FindAuto::Parse { path, json }, FindAnswer::Parsed(Ok(inner))) => {
                    &&& r matches FindAuto::Done(Ok(Some(found)))
                    &&& found.path@ == path@
                    &&& found.data@ == json@
                    &&& found.inner == inner
                },
                (FindAuto::Parse { .. }, FindAnswer::Parsed(Err(message))) => {
                    &&& r matches FindAuto::Done(Err(Error::Json(said)))
                    &&& said@ == message@
                },
                (FindAuto::Read { path }, FindAnswer::Contents(Some(contents))) => {
                    &&& r matches FindAuto::Parse { path: read, json }
                    &&& read@ == path@
                    &&& json@ == contents@
                },
                (FindAuto::Read { .. }, FindAnswer::Contents(None)) => r matches FindAuto::Done(
                    Ok(None),
                ),
                _ => true,
            },
            forall|files: ConfigFiles|
                self@.pending() is Some && files.answer(self@.pending()->0) == answer@
                    ==> #[trigger] r@.outcome(files) == self@.outcome(files),
    {
        proof {
            assert forall|files: ConfigFiles|
                self@.pending() is Some && files.answer(self@.pending()->0)
                    == answer@ implies #[trigger] self@.next(answer@).outcome(files)
                == self@.outcome(files) by {
                lemma_find_step(files, self@);
            }
        }
        match (self, answer) {
            (FindAuto::Locate(search), FindAnswer::Exists(exists)) => match search.resume(exists) {
                FileSearch::Probe { dir } => FindAuto::Locate(FileSearch::Probe { dir }),
                FileSearch::Done(Some(path)) => FindAuto::Read { path },
                FileSearch::Done(None) => FindAuto::Done(Ok(None)),
            },
            (FindAuto::Read { path }, FindAnswer::Contents(contents)) => match contents {
                Some(json) => FindAuto::Parse { path, json },
                None => FindAuto::Done(Ok(None)),
            },
            (FindAuto::Parse { path, json }, FindAnswer::Parsed(parsed)) => match parsed {
                Ok(inner) => FindAuto::Done(Ok(Some(Auto { path, data: json, inner }))),
                Err(message) => FindAuto::Done(Err(Error::Json(message))),
            },
            (find, _) => find,
        }
    }
}

/// The configuration file of a directory is `.mairu.json` in it.
pub proof fn lemma_candidate(dir: Seq<u8>)
    ensures
        candidate(dir) == path::join(
            dir,
            seq![0x2eu8, 0x6d, 0x61, 0x69, 0x72, 0x75, 0x2e, 0x6a, 0x73, 0x6f, 0x6e],
        ),
        path::components(candidate(dir)) == path::components(dir).push(
            path::Component::Name(
                seq![0x2eu8, 0x6d, 0x61, 0x69, 0x72, 0x75, 0x2e, 0x6a, 0x73, 0x6f, 0x6e],
            ),
        ),
{
    let name = seq![0x2eu8, 0x6d, 0x61, 0x69, 0x72, 0x75, 0x2e, 0x6a, 0x73, 0x6f, 0x6e];
    reveal_strlit(".mairu.json");
    assert(vstd::utf8::is_ascii_chars(".mairu.json"@));
    vstd::utf8::is_ascii_chars_encode_utf8(".mairu.json"@);
    assert(text::utf8(".mairu.json"@) =~= name);
    path::lemma_single_name(name);
    path::lemma_join_components(dir, name);
    assert(path::components(dir) + seq![path::Component::Name(name)] =~= path::components(
        dir,
    ).push(path::Component::Name(name)));
}

/// The directory `k` levels above `dir` has the file `found`, its `.mairu.json`, and the directories
/// from `dir` up to it have none.
pub open spec fn first_file(present: Set<Seq<u8>>, dir: Seq<u8>, k: nat, found: Seq<u8>) -> bool {
    &&& path::ancestor(dir, k) matches Some(at)
    &&& found == path::join(at, text::utf8(".mairu.json"@))
    &&& present.contains(found)
    &&& forall|j: nat| j < k ==> no_file(present, #[trigger] path::ancestor(dir, j))
}

/// The directory, if there is one, has no `.mairu.json`.
pub open spec fn no_file(present: Set<Seq<u8>>, dir: Option<Seq<u8>>) -> bool {
    dir matches Some(at) ==> !present.contains(path::join(at, text::utf8(".mairu.json"@)))
}

/// Every level below an ancestor is an ancestor.
proof fn lemma_levels(dir: Seq<u8>, k: nat, j: nat)
    requires
        path::ancestor(dir, k) is Some,
        j <= k,
    ensures
        path::ancestor(dir, j) is Some,
    decreases j,
{
    if j > 0 {
        lemma_levels(path::parent(dir)->0, (k - 1) as nat, (j - 1) as nat);
    }
}

proof fn lemma_first_file(present: Set<Seq<u8>>, dir: Seq<u8>, k: nat, found: Seq<u8>)
    requires
        first_file(present, dir, k, found),
    ensures
        nearest(present, dir) == Some(found),
{
    assert forall|j: nat| j < k implies !present.contains(
        candidate((#[trigger] path::ancestor(dir, j))->0),
    ) by {
        lemma_levels(dir, k, j);
        assert(no_file(present, path::ancestor(dir, j)));
    }
    assert(nearest_at(present, dir, k, found));
    lemma_nearest(present, dir, found);
}

/// The search ends with the nearest configuration file: its path, its bytes, and all that they say.
/// It fails where they are no configuration, with the reason given for that. A file that cannot be
/// read counts as none.
pub proof fn lemma_find_for_loads_nearest(
    files: ConfigFiles,
    dir: Seq<u8>,
    k: nat,
    path: Seq<u8>,
)
    requires
        dir.len() > 0,
        dir[0] == 0x2f,
        first_file(files.present, dir, k, path),
    ensures
        ({
            let r = FindAuto::<Seq<u8>, Seq<u8>, AutoView, Seq<char>>::begin(dir).run(files);
            &&& r == config_for(files, dir)
            &&& files.contents.get(path) matches Some(json) ==> {
                &&& (files.parsed)(json) matches Ok(data) ==> {
                    &&& r matches Ok(Some(found))
                    &&& found.path == path
                    &&& found.data == json
                    &&& found.inner.server == data.server
                    &&& found.inner.role == data.role
                    &&& found.inner.mode == data.mode
                    &&& found.inner.assume_role == data.assume_role
                    &&& found.inner == data
                }
                &&& (files.parsed)(json) matches Err(message) ==> (r matches Err(Error::Json(said))
                    && said == message)
            }
            &&& files.contents.get(path) is None ==> r matches Ok(None)
        }),
{
    lemma_first_file(files.present, dir, k, path);
    lemma_find_for(files, dir);
}

/// Where neither the directory nor any above it has a configuration file, the search finds none.
pub proof fn lemma_find_for_nothing(files: ConfigFiles, dir: Seq<u8>)
    requires
        dir.len() > 0,
        dir[0] == 0x2f,
        forall|k: nat| no_file(files.present, #[trigger] path::ancestor(dir, k)),
    ensures
        FindAuto::<Seq<u8>, Seq<u8>, AutoView, Seq<char>>::begin(dir).run(files) matches Ok(None),
        config_for(files, dir) matches Ok(None),
{
    lemma_find_for(files, dir);
    if let Some(found) = nearest(files.present, dir) {
        lemma_nearest(files.present, dir, found);
        let k = choose|k: nat| nearest_at(files.present, dir, k, found);
        assert(no_file(files.present, path::ancestor(dir, k)));
    }
}

/// A search from a relative path fails at once, asks nothing, and says which path it was given.
pub proof fn lemma_find_for_relative(files: ConfigFiles, dir: Seq<u8>)
    requires
        dir.len() == 0 || dir[0] != 0x2f,
    ensures
        FindAuto::<Seq<u8>, Seq<u8>, AutoView, Seq<char>>::begin(dir).pending() is None,
        FindAuto::<Seq<u8>, Seq<u8>, AutoView, Seq<char>>::begin(dir).run(files) matches Err(
            Error::UserError(message),
        ) && message == "Auto::find_for(dir): dir must be an absolute path, "@ + text::lossy_of(
            dir,
        ) + " given"@,
        config_for(files, dir) == FindAuto::<Seq<u8>, Seq<u8>, AutoView, Seq<char>>::begin(dir).run(
            files,
        ),
{
    lemma_find_for(files, dir);
}

/// The search for a file alone, run to its end.
pub open spec fn searched(present: Set<Seq<u8>>, search: FileSearch<Seq<u8>>) -> Option<Seq<u8>>
    decreases
            match search {
                FileSearch::Probe { dir } => dir.len() + 1,
                FileSearch::Done(_) => 0,
            },
{
    match (search, search.pending()) {
        (FileSearch::Probe { dir }, Some(asked)) => {
            proof {
                path::lemma_parent_shorter(dir);
            }
            searched(present, search.next(present.contains(asked)))
        },
        (FileSearch::Done(found), _) => found,
        _ => None,
    }
}

/// The file search ends with the nearest `.mairu.json`, and with nothing where there is none.
pub proof fn lemma_file_search(present: Set<Seq<u8>>, dir: Seq<u8>, found: Seq<u8>)
    ensures
        searched(present, FileSearch::Probe { dir }) == Some(found) <==> exists|k: nat|
            first_file(present, dir, k, found),
{
    lemma_searched(present, dir);
    if nearest(present, dir) == Some(found) {
        lemma_nearest(present, dir, found);
        let k = choose|k: nat| nearest_at(present, dir, k, found);
        assert forall|j: nat| j < k implies no_file(
            present,
            #[trigger] path::ancestor(dir, j),
        ) by {}
        assert(first_file(present, dir, k, found));
    }
    if exists|k: nat| first_file(present, dir, k, found) {
        let k = choose|k: nat| first_file(present, dir, k, found);
        lemma_first_file(present, dir, k, found);
    }
}

proof fn lemma_searched(present: Set<Seq<u8>>, dir: Seq<u8>)
    ensures
        searched(present, FileSearch::Probe { dir }) == nearest(present, dir),
    decreases dir.len(),
{
    path::lemma_parent_shorter(dir);
    let search = FileSearch::Probe { dir };
    let next = search.next(present.contains(candidate(dir)));
    assert(searched(present, search) == searched(present, next));
    if !present.contains(candidate(dir)) {
        if let Some(up) = path::parent(dir) {
            lemma_searched(present, up);
        }
    }
}

/// An answer of another kind than the question changes nothing, and neither does an answer to a
/// search that is done.
pub proof fn lemma_find_other_answer(
    find: FindAuto<Seq<u8>, Seq<u8>, AutoView, Seq<char>>,
    answer: FindAnswer<Seq<u8>, Seq<char>>,
    search: FileSearch<Seq<u8>>,
    exists_there: bool,
)
    requires
        match find {
            FindAuto::Locate(_) => !(answer is Exists),
            FindAuto::Read { .. } => !(answer is Contents),
            FindAuto::Parse { .. } => !(answer is Parsed),
            FindAuto::Done(_) => true,
        },
        search is Done,
    ensures
        find.next(answer) == find,
        search.next(exists_there) == search,
{
}

/// What a configuration holds is its path, its bytes and what they say.
pub proof fn lemma_auto_view(a: Auto)
    ensures
        a@.path == a.path.bytes@,
        a@.data == a.data@,
        a@.inner == a.inner,
{
}

/// The files answer what they hold at the path that is asked for, and what that says.
pub proof fn lemma_config_answer(files: ConfigFiles, p: Seq<u8>, json: Seq<u8>)
    ensures
        files.answer(FindQuery::Exists(p)) == FindAnswer::<Seq<u8>, Seq<char>>::Exists(
            files.present.contains(p),
        ),
        files.answer(FindQuery::Read(p)) == FindAnswer::<Seq<u8>, Seq<char>>::Contents(
            files.contents.get(p),
        ),
        files.answer(FindQuery::Parse(json)) == FindAnswer::<Seq<u8>, Seq<char>>::Parsed(
            (files.parsed)(json),
        ),
{
}

/// Contracts speak of questions, answers and results by the bytes and characters in them, and of
/// nothing less.
pub proof fn lemma_find_views(
    query: FindQuery<UnixPath, Vec<u8>>,
    answer: FindAnswer<Vec<u8>, String>,
    result: Result<Option<Auto>, Error<String>>,
)
    ensures
        match query {
            FindQuery::Exists(p) => query.deep_view() == FindQuery::<Seq<u8>, Seq<u8>>::Exists(
                p.bytes@,
            ),
            FindQuery::Read(p) => query.deep_view() == FindQuery::<Seq<u8>, Seq<u8>>::Read(
                p.bytes@,
            ),
            FindQuery::Parse(json) => query.deep_view() == FindQuery::<Seq<u8>, Seq<u8>>::Parse(
                json@,
            ),
        },
        match answer {
            FindAnswer::Exists(b) => answer@ == FindAnswer::<Seq<u8>, Seq<char>>::Exists(b),
            FindAnswer::Contents(Some(json)) => answer@ == FindAnswer::<
                Seq<u8>,
                Seq<char>,
            >::Contents(Some(json@)),
            FindAnswer::Contents(None) => answer@ == FindAnswer::<Seq<u8>, Seq<char>>::Contents(
                None,
            ),
            FindAnswer::Parsed(Ok(data)) => answer@ == FindAnswer::<Seq<u8>, Seq<char>>::Parsed(
                Ok(data),
            ),
            FindAnswer::Parsed(Err(message)) => answer@ == FindAnswer::<
                Seq<u8>,
                Seq<char>,
            >::Parsed(Err(message@)),
        },
        match result {
            Ok(Some(a)) => result_view(result) matches Ok(Some(found)) && found.path == a.path.bytes@
                && found.data == a.data@ && found.inner == a.inner,
            Ok(None) => result_view(result) matches Ok(None),
            Err(Error::UserError(message)) => result_view(result) matches Err(
                Error::UserError(said),
            ) && said == message@,
            Err(Error::Json(message)) => result_view(result) matches Err(Error::Json(said)) && said
                == message@,
        },
{
}

} // verus!
