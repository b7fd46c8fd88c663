//! The walk that gathers every file under a folder.
//!
//! Reading a directory is left to the caller. The walk decides: it asks for
//! the listing of one directory at a time, takes the answer, and says what
//! comes next. Files come out in the order of a depth-first walk, each
//! directory giving way to its content at the place where it is listed.

use vstd::prelude::*;

verus! {

/// One entry of a directory listing.
#[derive(Clone, Debug, PartialEq, Eq)]
pub enum ListedEntry {
    /// The entry itself could not be read.
    Unreadable,
    /// A directory, with its path as text where the path can be written as
    /// text.
    Directory(Option<String>),
    /// A regular file, with its path as text where the path can be written
    /// as text.
    File(Option<String>),
    /// Neither a directory nor a regular file.
    Other,
}

/// Mathematical model of a [`ListedEntry`].
pub enum ListedEntryView {
    Unreadable,
    Directory(Option<Seq<char>>),
    File(Option<Seq<char>>),
    Other,
}

impl View for ListedEntry {
    type V = ListedEntryView;

    open spec fn view(&self) -> ListedEntryView {
        match *self {
            ListedEntry::Unreadable => ListedEntryView::Unreadable,
            ListedEntry::Directory(path) => ListedEntryView::Directory(path.deep_view()),
            ListedEntry::File(path) => ListedEntryView::File(path.deep_view()),
            ListedEntry::Other => ListedEntryView::Other,
        }
    }
}

impl DeepView for ListedEntry {
    type V = ListedEntryView;

    open spec fn deep_view(&self) -> ListedEntryView {
        self@
    }
}

/// Why a walk was given up.
#[derive(Clone, Copy, Debug, PartialEq, Eq, Hash, Structural)]
pub enum GatherError {
    /// The folder itself, or one of its entries, could not be read.
    Unreadable,
    /// The path of a file or directory in the folder cannot be written as
    /// text.
    PathNotText,
    /// Something failed below the folder, in a directory of any depth.
    SubOperationFailed,
}

/// What the caller found when it read the directory it was asked for.
#[derive(Clone, Debug, PartialEq, Eq)]
pub enum WalkEvent {
    /// The entries of the directory, in the order in which it lists them.
    Listed(Vec<ListedEntry>),
    /// The directory could not be read.
    Unreadable,
}

/// Mathematical model of a [`WalkEvent`].
pub enum WalkEventView {
    Listed(Seq<ListedEntryView>),
    Unreadable,
}

impl View for WalkEvent {
    type V = WalkEventView;

    open spec fn view(&self) -> WalkEventView {
        match *self {
            WalkEvent::Listed(entries) => WalkEventView::Listed(entries.deep_view()),
            WalkEvent::Unreadable => WalkEventView::Unreadable,
        }
    }
}

/// A directory that the walk has entered: its listing, and how many of its
/// entries the walk has dealt with.
struct Frame {
    entries: Vec<ListedEntry>,
    next: usize,
}

/// A walk that waits for the listing of a directory.
pub struct FolderWalk {
    frames: Vec<Frame>,
    files: Vec<String>,
}

/// Mathematical model of a [`FolderWalk`]: for each directory that the walk
/// has entered, outermost first, the entries that it has yet to deal with;
/// and the files gathered so far.
pub struct FolderWalkView {
    pub pending: Seq<Seq<ListedEntryView>>,
    pub files: Seq<Seq<char>>,
}

/// What comes next in a walk.
pub enum WalkStep {
    /// The caller reads the directory `path` and hands the outcome to
    /// `walk`.
    ReadDir { walk: FolderWalk, path: String },
    /// The walk is over: these are the files, in the order of the walk.
    Done(Vec<String>),
    /// The walk is given up.
    Failed(GatherError),
}

/// Mathematical model of a [`WalkStep`].
pub enum WalkStepView {
    ReadDir { walk: FolderWalkView, path: Seq<char> },
    Done(Seq<Seq<char>>),
    Failed(GatherError),
}

impl Frame {
    spec fn wf(&self) -> bool {
        self.next <= self.entries@.len()
    }

    spec fn remaining(&self) -> Seq<ListedEntryView> {
        self.entries.deep_view().skip(self.next as int)
    }
}

impl View for FolderWalk {
    type V = FolderWalkView;

    closed spec fn view(&self) -> FolderWalkView {
        FolderWalkView {
            pending: Seq::new(self.frames@.len(), |i: int| self.frames@[i].remaining()),
            files: self.files.deep_view(),
        }
    }
}

impl FolderWalk {
    /// Every frame of the walk points into its listing.
    pub closed spec fn wf(&self) -> bool {
        forall|i: int| 0 <= i < self.frames@.len() ==> (#[trigger] self.frames@[i]).wf()
    }
}

impl View for WalkStep {
    type V = WalkStepView;

    open spec fn view(&self) -> WalkStepView {
        match *self {
            WalkStep::ReadDir { walk, path } => WalkStepView::ReadDir { walk: walk@, path: path@ },
            WalkStep::Done(files) => WalkStepView::Done(files.deep_view()),
            WalkStep::Failed(error) => WalkStepView::Failed(error),
        }
    }
}

impl WalkStep {
    /// A walk that goes on is well formed.
    pub open spec fn wf(&self) -> bool {
        match *self {
            WalkStep::ReadDir { walk, path } => walk.wf(),
            _ => true,
        }
    }
}

/// How a failure is reported that happens `depth` directories below the
/// outside: in the folder itself as what it is, further down as a failure
/// below the folder.
pub open spec fn failure_at(depth: nat, error: GatherError) -> GatherError {
    if depth <= 1 {
        error
    } else {
        GatherError::SubOperationFailed
    }
}

/// The number of entries that the innermost directory of `pending` has
/// left.
pub open spec fn innermost_len(pending: Seq<Seq<ListedEntryView>>) -> nat {
    if pending.len() > 0 {
        pending.last().len()
    } else {
        0
    }
}

/// `pending` with the first entry of its innermost directory taken off.
pub open spec fn without_first(pending: Seq<Seq<ListedEntryView>>) -> Seq<Seq<ListedEntryView>> {
    pending.drop_last().push(pending.last().drop_first())
}

/// Deals with the entries in `pending`, innermost directory first, until a
/// directory has to be read, a failure ends the walk, or nothing is left.
/// A file is gathered, a directory is asked for, anything else is passed
/// over. An entry that could not be read, or whose path is no text, ends
/// the walk.
pub open spec fn advance(pending: Seq<Seq<ListedEntryView>>, files: Seq<Seq<char>>) -> WalkStepView
    decreases pending.len(), innermost_len(pending),
{
    if pending.len() == 0 {
        WalkStepView::Done(files)
    } else if pending.last().len() == 0 {
        advance(pending.drop_last(), files)
    } else {
        match pending.last()[0] {
            ListedEntryView::Unreadable => WalkStepView::Failed(
                failure_at(pending.len(), GatherError::Unreadable),
            ),
            ListedEntryView::Directory(None) => WalkStepView::Failed(
                failure_at(pending.len(), GatherError::PathNotText),
            ),
            ListedEntryView::File(None) => WalkStepView::Failed(
                failure_at(pending.len(), GatherError::PathNotText),
            ),
            ListedEntryView::Directory(Some(path)) => WalkStepView::ReadDir {
                walk: FolderWalkView { pending: without_first(pending), files },
                path,
            },
            ListedEntryView::File(Some(path)) => advance(without_first(pending), files.push(path)),
            ListedEntryView::Other => advance(without_first(pending), files),
        }
    }
}

/// What follows when a walk gets the outcome of the reading it asked for.
pub open spec fn step_of(walk: FolderWalkView, event: WalkEventView) -> WalkStepView {
    match event {
        WalkEventView::Unreadable => WalkStepView::Failed(
            failure_at(walk.pending.len() + 1, GatherError::Unreadable),
        ),
        WalkEventView::Listed(entries) => advance(walk.pending.push(entries), walk.files),
    }
}

/// Begins to gather the files under `root_path`: the first thing to read
/// is that folder itself. `original_root_path` names the folder that is
/// being indexed; the walk does not depend on it.
pub fn gather_eligible_files(original_root_path: &String, root_path: &String) -> (step: WalkStep)
    ensures
        step.wf(),
        step@ == (WalkStepView::ReadDir {
            walk: FolderWalkView { pending: Seq::empty(), files: Seq::empty() },
            path: root_path@,
        }),
{
    let walk = FolderWalk { frames: Vec::new(), files: Vec::new() };
    proof {
        assert(walk@.pending =~= Seq::<Seq<ListedEntryView>>::empty());
        assert(walk@.files =~= Seq::<Seq<char>>::empty());
    }
    WalkStep::ReadDir { walk, path: root_path.clone() }
}

impl FolderWalk {
    /// The number of directories that the walk has entered and not left.
    pub fn depth(&self) -> (depth: usize)
        ensures
            depth == self@.pending.len(),
    {
        self.frames.len()
    }

    /// Takes the outcome of the reading that the walk asked for and says
    /// what comes next.
    pub fn step(self, event: WalkEvent) -> (step: WalkStep)
        requires
            self.wf(),
        ensures
            step.wf(),
            step@ == step_of(self@, event@),
    {
        let mut frames = self.frames;
        let mut files = self.files;
        let ghost goal = step_of(self@, event@);
        match event {
            WalkEvent::Unreadable => {
                if frames.len() == 0 {
                    return WalkStep::Failed(GatherError::Unreadable);
                } else {
                    return WalkStep::Failed(GatherError::SubOperationFailed);
                }
            },
            WalkEvent::Listed(entries) => {
                proof {
                    let before = Seq::new(frames@.len(), |i: int| frames@[i].remaining());
                    let frame = Frame { entries, next: 0 };
                    assert(frame.remaining() =~= entries.deep_view());
                    assert(Seq::new(
                        frames@.push(frame).len(),
                        |i: int| frames@.push(frame)[i].remaining(),
                    ) =~= before.push(entries.deep_view()));
                }
                frames.push(Frame { entries, next: 0 });
            },
        }
        loop
            invariant
                forall|i: int| 0 <= i < frames@.len() ==> (#[trigger] frames@[i]).wf(),
                goal == step_of(self@, event@),
                goal == advance(
                    Seq::new(frames@.len(), |i: int| frames@[i].remaining()),
                    files.deep_view(),
                ),
            decreases
                    frames@.len(),
                    innermost_len(Seq::new(frames@.len(), |i: int| frames@[i].remaining())),
        {
            let ghost pending = Seq::new(frames@.len(), |i: int| frames@[i].remaining());
            let ghost gathered = files.deep_view();
            let depth = frames.len();
            if depth == 0 {
                return WalkStep::Done(files);
            }
            let top = depth - 1;
            proof {
                assert(pending.last() == frames@[top as int].remaining());
            }
            if frames[top].next >= frames[top].entries.len() {
                proof {
                    assert(pending.last().len() == 0);
                    assert(Seq::new(
                        frames@.drop_last().len(),
                        |i: int| frames@.drop_last()[i].remaining(),
                    ) =~= pending.drop_last());
                }
                frames.pop();
                continue ;
            }
            let at = frames[top].next;
            proof {
                let frame = frames@[top as int];
                assert(pending.last()[0] == frame.entries@[at as int]@);
            }
            let found: Option<Option<String>> = match &frames[top].entries[at] {
                ListedEntry::Unreadable => {
                    return WalkStep::Failed(report(depth, GatherError::Unreadable));
                },
                ListedEntry::Directory(None) => {
                    return WalkStep::Failed(report(depth, GatherError::PathNotText));
                },
                ListedEntry::File(None) => {
                    return WalkStep::Failed(report(depth, GatherError::PathNotText));
                },
                ListedEntry::Directory(Some(path)) => Some(Some(path.clone())),
                ListedEntry::File(Some(path)) => {
                    files.push(path.clone());
                    Some(None)
                },
                ListedEntry::Other => None,
            };
            let ghost old_frames = frames@;
            let mut frame = frames.pop().unwrap();
            frame.next = at + 1;
            frames.push(frame);
            proof {
                assert(frame.remaining() =~= old_frames[top as int].remaining().drop_first());
                assert(Seq::new(frames@.len(), |i: int| frames@[i].remaining()) =~= without_first(
                    pending,
                ));
                match pending.last()[0] {
                    ListedEntryView::File(Some(path)) => {
                        assert(files.deep_view() =~= gathered.push(path));
                    },
                    _ => {},
                }
            }
            if let Some(Some(path)) = found {
                let walk = FolderWalk { frames, files };
                return WalkStep::ReadDir { walk, path };
            }
        }
    }
}

/// Reports a failure that happens `depth` directories below the outside.
fn report(depth: usize, error: GatherError) -> (reported: GatherError)
    ensures
        reported == failure_at(depth as nat, error),
{
    if depth <= 1 {
        error
    } else {
        GatherError::SubOperationFailed
    }
}

} // verus!
