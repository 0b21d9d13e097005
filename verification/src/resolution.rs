//! The resolution of a project as one exchange: list directories until every source is found, then
//! read each of them. The first failure ends it.

use vstd::prelude::*;

use crate::order::views;
use crate::project::{
    a_listing_goes_one_directory_on, dirs_below, files_below, nests_within, no_sources_text,
    read_sources, slashed, Entry, EntryView, Pending, Reading, ReadingView, ResolveError, Walk,
    WalkView,
};
use crate::text::sources_view;

verus! {

/// What a resolution asks of the file system.
#[derive(Debug, Clone, PartialEq, Eq)]
pub enum FileRequest<P> {
    /// List this directory.
    List(P),
    /// Read this file.
    Read(P),
    /// Nothing more: the outcome is there.
    Finished,
}

/// How far a resolution has come.
pub enum ResolutionView<P> {
    /// Directories are listed; `dir` is the project's directory as it is shown.
    Walking { dir: Seq<char>, walk: WalkView<P> },
    /// Every source is found, and they are read.
    Reading(ReadingView<P>),
    /// The project cannot be resolved, for this reason.
    Failed(Seq<char>),
}

impl<P> ResolutionView<P> {
    /// A resolution before its first listing.
    pub open spec fn start(dir: Seq<char>, root: P) -> ResolutionView<P> {
        ResolutionView::Walking { dir, walk: WalkView::start(root) }
    }

    /// What is asked of the file system next.
    pub open spec fn next(self) -> FileRequest<P> {
        match self {
            ResolutionView::Walking { dir, walk } => match walk.next() {
                Some(path) => FileRequest::List(path),
                None => FileRequest::Finished,
            },
            ResolutionView::Reading(reading) => match reading.next() {
                Some(path) => FileRequest::Read(path),
                None => FileRequest::Finished,
            },
            ResolutionView::Failed(_) => FileRequest::Finished,
        }
    }

    /// The resolution once these files are found: a project without any is refused.
    pub open spec fn found(dir: Seq<char>, files: Seq<P>) -> ResolutionView<P> {
        if files.len() == 0 {
            ResolutionView::Failed(no_sources_text(dir))
        } else {
            ResolutionView::Reading(ReadingView { files, sources: seq![] })
        }
    }

    /// The resolution after the listing of the directory that was asked for.
    pub open spec fn after_listing(self, entries: Seq<EntryView<P>>) -> ResolutionView<P> {
        match self {
            ResolutionView::Walking { dir, walk } => {
                let next = walk.after_listing(entries);
                if next.todo.len() > 0 {
                    ResolutionView::Walking { dir, walk: next }
                } else {
                    ResolutionView::found(dir, next.found)
                }
            },
            _ => self,
        }
    }

    /// The resolution after the file that was asked for: its path below the project, and its
    /// contents.
    pub open spec fn after_reading(
        self,
        below: Seq<char>,
        contents: Seq<char>,
    ) -> ResolutionView<P> {
        match self {
            ResolutionView::Reading(reading) => ResolutionView::Reading(
                ReadingView {
                    files: reading.files,
                    sources: reading.sources.push((slashed(below), contents)),
                },
            ),
            _ => self,
        }
    }

    /// The resolution after a failure of what was asked for.
    pub open spec fn after_failure(path: Seq<char>, error: Seq<char>) -> ResolutionView<P> {
        ResolutionView::Failed(path + ": "@ + error)
    }

    /// What a resolution has come to in the end: the label and the contents of each source, or
    /// why there are none.
    pub open spec fn outcome(self) -> Option<Result<Seq<(Seq<char>, Seq<char>)>, Seq<char>>> {
        match self {
            ResolutionView::Walking { .. } => None,
            ResolutionView::Reading(reading) => if reading.next() is Some {
                None
            } else {
                Some(Ok(reading.sources))
            },
            ResolutionView::Failed(text) => Some(Err(text)),
        }
    }
}

/// The part of a resolution that is under way.
#[derive(Debug)]
enum Stage<P> {
    Walking(String, Walk<P>),
    Reading(Reading<P>),
    Failed(ResolveError),
}

/// The resolution of a project: which directory to list or which file to read next, and what came
/// of it.
#[derive(Debug)]
pub struct Resolution<P> {
    stage: Stage<P>,
}

impl<P> View for Resolution<P> {
    type V = ResolutionView<P>;

    closed spec fn view(&self) -> ResolutionView<P> {
        match self.stage {
            Stage::Walking(dir, walk) => ResolutionView::Walking { dir: dir@, walk: walk@ },
            Stage::Reading(reading) => ResolutionView::Reading(reading@),
            Stage::Failed(e) => ResolutionView::Failed(e.0@),
        }
    }
}

impl<P> Resolution<P> {
    /// A walk that is done is followed by the reading at once.
    #[verifier::type_invariant]
    spec fn inv(self) -> bool {
        match self.stage {
            Stage::Walking(_, walk) => walk@.next() is Some,
            _ => true,
        }
    }

    /// The resolution of the project in `root`, which is shown as `dir`.
    pub fn new(dir: &str, root: P) -> (resolution: Resolution<P>)
        ensures
            resolution@ == ResolutionView::start(dir@, root),
    {
        Resolution { stage: Stage::Walking(dir.to_owned(), Walk::new(root)) }
    }

    /// What is asked of the file system next.
    pub fn next(&self) -> (request: FileRequest<&P>)
        ensures
            match request {
                FileRequest::List(path) => self@.next() == FileRequest::List(*path),
                FileRequest::Read(path) => self@.next() == FileRequest::Read(*path),
                FileRequest::Finished => self@.next() is Finished && self@.outcome() is Some,
            },
    {
        proof {
            use_type_invariant(self);
        }
        match &self.stage {
            Stage::Walking(_, walk) => match walk.next() {
                Some(path) => FileRequest::List(path),
                None => FileRequest::Finished,
            },
            Stage::Reading(reading) => match reading.next() {
                Some(path) => FileRequest::Read(path),
                None => FileRequest::Finished,
            },
            Stage::Failed(_) => FileRequest::Finished,
        }
    }

    /// The resolution after the listing of the directory that was asked for.
    pub fn listed(self, entries: Vec<Entry<P>>) -> (next: Resolution<P>)
        requires
            self@.next() is List,
        ensures
            next@ == self@.after_listing(views(entries@)),
    {
        match self.stage {
            Stage::Walking(dir, walk) => {
                let walk = walk.listed(entries);
                if walk.next().is_some() {
                    Resolution { stage: Stage::Walking(dir, walk) }
                } else {
                    match read_sources(dir.as_str(), walk.into_found()) {
                        Ok(reading) => {
                            assert(reading@.sources =~= seq![]);
                            Resolution { stage: Stage::Reading(reading) }
                        },
                        Err(e) => Resolution { stage: Stage::Failed(e) },
                    }
                }
            },
            stage => Resolution { stage },
        }
    }

    /// The resolution after the directory that was asked for could not be listed.
    pub fn unlistable(self, path: &str, error: &str) -> (next: Resolution<P>)
        requires
            self@.next() is List,
        ensures
            next@ == ResolutionView::<P>::after_failure(path@, error@),
    {
        match self.stage {
            Stage::Walking(_, walk) => Resolution {
                stage: Stage::Failed(walk.unlistable(path, error)),
            },
            stage => Resolution { stage },
        }
    }

    /// The resolution after the file that was asked for: its path below the project, and its
    /// contents.
    pub fn read(self, below: &str, contents: String) -> (next: Resolution<P>)
        requires
            self@.next() is Read,
        ensures
            next@ == self@.after_reading(below@, contents@),
    {
        match self.stage {
            Stage::Reading(reading) => Resolution {
                stage: Stage::Reading(reading.read(below, contents)),
            },
            stage => Resolution { stage },
        }
    }

    /// The resolution after the file that was asked for could not be read.
    pub fn unreadable(self, path: &str, error: &str) -> (next: Resolution<P>)
        requires
            self@.next() is Read,
        ensures
            next@ == ResolutionView::<P>::after_failure(path@, error@),
    {
        match self.stage {
            Stage::Reading(reading) => Resolution {
                stage: Stage::Failed(reading.unreadable(path, error)),
            },
            stage => Resolution { stage },
        }
    }

    /// The sources of the project, of which there is at least one, or why it cannot be resolved;
    /// none while something is asked.
    pub fn into_outcome(self) -> (outcome: Option<Result<Vec<(String, String)>, ResolveError>>)
        ensures
            match outcome {
                None => self@.outcome() is None,
                Some(Ok(sources)) => {
                    &&& self@.outcome() == Some(Ok::<_, Seq<char>>(sources_view(sources@)))
                    &&& sources@.len() > 0
                },
                Some(Err(e)) => self@.outcome() == Some(
                    Err::<Seq<(Seq<char>, Seq<char>)>, _>(e.0@),
                ),
            },
    {
        match self.stage {
            Stage::Walking(..) => None,
            Stage::Reading(reading) => if reading.next().is_some() {
                None
            } else {
                Some(Ok(reading.into_sources()))
            },
            Stage::Failed(e) => Some(Err(e)),
        }
    }
}

/// A file system: how it answers each request. A failure is the path as it is shown, and the
/// error.
#[verifier::reject_recursive_types(P)]
pub struct FileSystem<P> {
    pub list: spec_fn(P) -> Result<Seq<EntryView<P>>, (Seq<char>, Seq<char>)>,
    pub read: spec_fn(P) -> Result<(Seq<char>, Seq<char>), (Seq<char>, Seq<char>)>,
}

impl<P> FileSystem<P> {
    /// What each directory holds; one that cannot be listed shows nothing.
    pub open spec fn listing(self) -> spec_fn(P) -> Seq<EntryView<P>> {
        |dir: P|
            match (self.list)(dir) {
                Ok(entries) => entries,
                Err(_) => seq![],
            }
    }

    /// The directories of the project in `root`, in the order in which they are listed.
    pub open spec fn dirs(self, root: P, depth: nat) -> Seq<P> {
        dirs_below(self.listing(), seq![Pending::Dir(root)], depth)
    }

    /// The source files of the project in `root`, in the order in which they are read.
    pub open spec fn files(self, root: P, depth: nat) -> Seq<P> {
        files_below(self.listing(), seq![Pending::Dir(root)], depth)
    }

    /// The source in a file that can be read: its label and its contents.
    pub open spec fn source(self, file: P) -> (Seq<char>, Seq<char>) {
        let (below, contents) = (self.read)(file)->Ok_0;
        (slashed(below), contents)
    }

    /// The failure of the first of these directories that cannot be listed.
    pub open spec fn first_unlistable(self, dirs: Seq<P>) -> Option<Seq<char>>
        decreases dirs.len(),
    {
        if dirs.len() == 0 {
            None
        } else {
            match (self.list)(dirs[0]) {
                Ok(_) => self.first_unlistable(dirs.skip(1)),
                Err((path, error)) => Some(path + ": "@ + error),
            }
        }
    }

    /// The failure of the first of these files that cannot be read.
    pub open spec fn first_unreadable(self, files: Seq<P>) -> Option<Seq<char>>
        decreases files.len(),
    {
        if files.len() == 0 {
            None
        } else {
            match (self.read)(files[0]) {
                Ok(_) => self.first_unreadable(files.skip(1)),
                Err((path, error)) => Some(path + ": "@ + error),
            }
        }
    }

    /// What the project in `root`, which is shown as `dir`, is resolved to: the first directory
    /// that cannot be listed fails it, then that there is no source, then the first source that
    /// cannot be read.
    pub open spec fn resolved(self, dir: Seq<char>, root: P, depth: nat) -> Result<
        Seq<(Seq<char>, Seq<char>)>,
        Seq<char>,
    > {
        let files = self.files(root, depth);
        match self.first_unlistable(self.dirs(root, depth)) {
            Some(text) => Err(text),
            None => if files.len() == 0 {
                Err(no_sources_text(dir))
            } else {
                match self.first_unreadable(files) {
                    Some(text) => Err(text),
                    None => Ok(files.map_values(|file: P| self.source(file))),
                }
            },
        }
    }
}

impl<P> ResolutionView<P> {
    /// The resolution after the file system's answer to what is asked next.
    pub open spec fn answered(self, fs: FileSystem<P>) -> ResolutionView<P> {
        match self.next() {
            FileRequest::List(dir) => match (fs.list)(dir) {
                Ok(entries) => self.after_listing(entries),
                Err((path, error)) => ResolutionView::after_failure(path, error),
            },
            FileRequest::Read(file) => match (fs.read)(file) {
                Ok((below, contents)) => self.after_reading(below, contents),
                Err((path, error)) => ResolutionView::after_failure(path, error),
            },
            FileRequest::Finished => self,
        }
    }

    /// The resolution `n` answers on.
    pub open spec fn steps(self, fs: FileSystem<P>, n: nat) -> ResolutionView<P>
        decreases n,
    {
        if n == 0 {
            self
        } else {
            self.answered(fs).steps(fs, (n - 1) as nat)
        }
    }
}

/// A resolution that has finished stays as it is.
proof fn lemma_finished<P>(r: ResolutionView<P>, fs: FileSystem<P>, n: nat)
    requires
        r.next() is Finished,
    ensures
        r.steps(fs, n) == r,
    decreases n,
{
    if n > 0 {
        lemma_finished(r, fs, (n - 1) as nat);
    }
}

/// The listings of a resolution, whatever follows them.
proof fn lemma_walking<P>(
    fs: FileSystem<P>,
    dir: Seq<char>,
    walk: WalkView<P>,
    depth: nat,
    more: nat,
)
    requires
        nests_within(fs.listing(), walk.todo, depth),
        walk.next() is Some,
    ensures
        ({
            let dirs = dirs_below(fs.listing(), walk.todo, depth);
            let files = walk.found + files_below(fs.listing(), walk.todo, depth);
            (ResolutionView::Walking { dir, walk }).steps(fs, dirs.len() + more) == (
            match fs.first_unlistable(dirs) {
                Some(text) => ResolutionView::Failed(text),
                None => ResolutionView::found(dir, files).steps(fs, more),
            })
        }),
    decreases dirs_below(fs.listing(), walk.todo, depth).len(),
{
    let dirs = dirs_below(fs.listing(), walk.todo, depth);
    let files = walk.found + files_below(fs.listing(), walk.todo, depth);
    let r = ResolutionView::Walking { dir, walk };
    let path = walk.next()->0;
    a_listing_goes_one_directory_on(fs.listing(), walk, depth);
    let left = dirs_below(fs.listing(), walk.after_listing((fs.listing())(path)).todo, depth);
    assert(dirs.skip(1) =~= left);
    assert(r.steps(fs, dirs.len() + more) == r.answered(fs).steps(fs, left.len() + more));
    match (fs.list)(path) {
        Ok(entries) => {
            let next = walk.after_listing(entries);
            if next.todo.len() > 0 {
                lemma_walking(fs, dir, next, depth, more);
            } else {
                assert(next.found =~= files);
                assert(left.len() == 0);
            }
        },
        Err((path, error)) => {
            lemma_finished(r.answered(fs), fs, left.len() + more);
        },
    }
}

/// The reading of a resolution.
proof fn lemma_reading<P>(fs: FileSystem<P>, reading: ReadingView<P>, n: nat)
    requires
        reading.sources.len() <= reading.files.len() <= reading.sources.len() + n,
    ensures
        ({
            let left = reading.files.skip(reading.sources.len() as int);
            ResolutionView::Reading(reading).steps(fs, n).outcome() == Some(
                match fs.first_unreadable(left) {
                    Some(text) => Err(text),
                    None => Ok(reading.sources + left.map_values(|file: P| fs.source(file))),
                },
            )
        }),
    decreases n,
{
    let at = reading.sources.len() as int;
    let left = reading.files.skip(at);
    let r = ResolutionView::Reading(reading);
    let source = |file: P| fs.source(file);
    if left.len() == 0 {
        lemma_finished(r, fs, n);
        assert(reading.sources + left.map_values(source) =~= reading.sources);
    } else {
        assert(left.skip(1) =~= reading.files.skip(at + 1));
        match (fs.read)(left[0]) {
            Ok((below, contents)) => {
                let next = ReadingView {
                    files: reading.files,
                    sources: reading.sources.push((slashed(below), contents)),
                };
                lemma_reading(fs, next, (n - 1) as nat);
                assert(reading.sources + left.map_values(source) =~= next.sources + left.skip(
                    1,
                ).map_values(source));
            },
            Err((path, error)) => {
                lemma_finished(r.answered(fs), fs, (n - 1) as nat);
            },
        }
    }
}

/// A resolution ends, after at most one listing for each directory and one reading for each source
/// of the project. What came of it then is decided by the first directory that cannot be listed,
/// by whether there is a source, and by the first source that cannot be read, in this order.
pub proof fn resolution_ends_with_the_first_failure<P>(
    fs: FileSystem<P>,
    dir: Seq<char>,
    root: P,
    depth: nat,
)
    requires
        nests_within(fs.listing(), seq![Pending::Dir(root)], depth),
    ensures
        ResolutionView::start(dir, root).steps(
            fs,
            fs.dirs(root, depth).len() + fs.files(root, depth).len(),
        ).outcome() == Some(fs.resolved(dir, root, depth)),
{
    let files = fs.files(root, depth);
    let walk = WalkView::start(root);
    lemma_walking(fs, dir, walk, depth, files.len());
    assert(walk.found + files =~= files);
    if fs.first_unlistable(fs.dirs(root, depth)) is None {
        if files.len() == 0 {
            lemma_finished(ResolutionView::<P>::found(dir, files), fs, files.len());
        } else {
            lemma_reading(fs, ReadingView { files, sources: seq![] }, files.len());
            assert(files.skip(0) =~= files);
            let all = files.map_values(|file: P| fs.source(file));
            assert(Seq::<(Seq<char>, Seq<char>)>::empty() + all =~= all);
        }
    }
}

proof fn lemma_all_listed<P>(fs: FileSystem<P>, dirs: Seq<P>)
    ensures
        fs.first_unlistable(dirs) is None <==> forall|i: int|
            0 <= i < dirs.len() ==> (fs.list)(#[trigger] dirs[i]) is Ok,
    decreases dirs.len(),
{
    if dirs.len() > 0 {
        lemma_all_listed(fs, dirs.skip(1));
        if fs.first_unlistable(dirs) is None {
            assert forall|i: int| 0 <= i < dirs.len() implies (fs.list)(
                #[trigger] dirs[i],
            ) is Ok by {
                if i > 0 {
                    assert(dirs[i] == dirs.skip(1)[i - 1]);
                }
            }
        }
    }
}

proof fn lemma_all_read<P>(fs: FileSystem<P>, files: Seq<P>)
    ensures
        fs.first_unreadable(files) is None <==> forall|i: int|
            0 <= i < files.len() ==> (fs.read)(#[trigger] files[i]) is Ok,
    decreases files.len(),
{
    if files.len() > 0 {
        lemma_all_read(fs, files.skip(1));
        if fs.first_unreadable(files) is None {
            assert forall|i: int| 0 <= i < files.len() implies (fs.read)(
                #[trigger] files[i],
            ) is Ok by {
                if i > 0 {
                    assert(files[i] == files.skip(1)[i - 1]);
                }
            }
        }
    }
}

/// A resolution yields sources exactly when every directory could be listed, at least one source
/// was found and every one of them could be read; and it then yields all of them. There is no
/// silent pass: a project that is not read whole is an explicit failure.
pub proof fn sources_are_yielded_only_if_nothing_failed<P>(
    fs: FileSystem<P>,
    dir: Seq<char>,
    root: P,
    depth: nat,
)
    requires
        nests_within(fs.listing(), seq![Pending::Dir(root)], depth),
    ensures
        ({
            let dirs = fs.dirs(root, depth);
            let files = fs.files(root, depth);
            let end = ResolutionView::start(dir, root).steps(fs, dirs.len() + files.len());
            &&& end.next() is Finished
            &&& match end.outcome() {
                Some(Ok(sources)) => {
                    &&& forall|i: int|
                        0 <= i < dirs.len() ==> (fs.list)(#[trigger] dirs[i]) is Ok
                    &&& files.len() > 0
                    &&& forall|i: int|
                        0 <= i < files.len() ==> (fs.read)(#[trigger] files[i]) is Ok
                    &&& sources == files.map_values(|file: P| fs.source(file))
                },
                Some(Err(_)) => {
                    ||| exists|i: int|
                        0 <= i < dirs.len() && (fs.list)(#[trigger] dirs[i]) is Err
                    ||| files.len() == 0
                    ||| exists|i: int|
                        0 <= i < files.len() && (fs.read)(#[trigger] files[i]) is Err
                },
                None => false,
            }
        }),
{
    resolution_ends_with_the_first_failure(fs, dir, root, depth);
    lemma_all_listed(fs, fs.dirs(root, depth));
    lemma_all_read(fs, fs.files(root, depth));
}

} // verus!
