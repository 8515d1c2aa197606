//! The work on disk that the store asks for, as plain values. The store decides,
//! and whoever holds it carries the work out, step by step, as `Work` says.

use vstd::prelude::*;
use vstd::string::*;

use crate::paths::{FilePath, PathView};
use crate::pixels::{PixelsView, RgbaPixels};
use crate::records;
use crate::records::{ErrorKind, ErrorView, RecordView, StoreError, StoredImage};

verus! {

broadcast use vstd::string::group_string_axioms;

/// One step of work on disk.
#[derive(Debug)]
pub enum DiskAction {
    /// Write the bytes to the file, in place of what it holds.
    Write { path: FilePath, bytes: Vec<u8> },
    /// Encode the image as PNG and write it to the file.
    SavePng { path: FilePath, image: RgbaPixels },
    CopyFile { from: FilePath, to: FilePath },
    /// Rename the file, or copy it and remove it where it cannot be renamed.
    MoveFile { from: FilePath, to: FilePath },
    /// Remove the file; that there is none is no failure.
    RemoveIfExists { path: FilePath },
    /// Write the file's own contents to it, so that it counts as changed now.
    Touch { path: FilePath },
    /// Touch the file if there is one.
    TouchIfPresent { path: FilePath },
}

#[verifier::ext_equal]
pub enum ActionView {
    Write { path: PathView, bytes: Seq<u8> },
    SavePng { path: PathView, image: PixelsView },
    CopyFile { from: PathView, to: PathView },
    MoveFile { from: PathView, to: PathView },
    RemoveIfExists { path: PathView },
    Touch { path: PathView },
    TouchIfPresent { path: PathView },
}

impl View for DiskAction {
    type V = ActionView;

    open spec fn view(&self) -> ActionView {
        match *self {
            DiskAction::Write { path, bytes } => ActionView::Write {
                path: path@,
                bytes: bytes@,
            },
            DiskAction::SavePng { path, image } => ActionView::SavePng {
                path: path@,
                image: image@,
            },
            DiskAction::CopyFile { from, to } => ActionView::CopyFile { from: from@, to: to@ },
            DiskAction::MoveFile { from, to } => ActionView::MoveFile { from: from@, to: to@ },
            DiskAction::RemoveIfExists { path } => ActionView::RemoveIfExists { path: path@ },
            DiskAction::Touch { path } => ActionView::Touch { path: path@ },
            DiskAction::TouchIfPresent { path } => ActionView::TouchIfPresent { path: path@ },
        }
    }
}

pub open spec fn action_views(actions: Seq<DiskAction>) -> Seq<ActionView> {
    actions.map_values(|action: DiskAction| action@)
}

impl ActionView {
    /// The path that the step writes to or removes. A file that is moved away is
    /// counted by `takes_away`.
    pub open spec fn target(self) -> PathView {
        match self {
            ActionView::Write { path, .. } => path,
            ActionView::SavePng { path, .. } => path,
            ActionView::CopyFile { to, .. } => to,
            ActionView::MoveFile { to, .. } => to,
            ActionView::RemoveIfExists { path } => path,
            ActionView::Touch { path } => path,
            ActionView::TouchIfPresent { path } => path,
        }
    }

    /// Whether the file at `path` is gone after the step.
    pub open spec fn takes_away(self, path: PathView) -> bool {
        match self {
            ActionView::MoveFile { from, .. } => from.components == path.components,
            ActionView::RemoveIfExists { path: removed } => removed.components == path.components,
            _ => false,
        }
    }

    /// What a failure of the step is reported as.
    pub open spec fn failure(self, trouble: Trouble) -> ErrorView {
        match (self, trouble) {
            (ActionView::RemoveIfExists { path }, Trouble::Saving { cause })
            | (ActionView::RemoveIfExists { path }, Trouble::Removing { cause })
            | (ActionView::MoveFile { from: path, .. }, Trouble::Removing { cause }) => {
                records::io_error(ErrorKind::RemoveFailed, path, cause@)
            },
            (_, Trouble::Saving { cause }) | (_, Trouble::Removing { cause }) => {
                records::io_error(ErrorKind::SaveFailed, self.target(), cause@)
            },
        }
    }
}

/// Why a step failed. A file that is moved by copying it is saved and then
/// removed.
#[derive(Debug)]
pub enum Trouble {
    Saving { cause: String },
    Removing { cause: String },
}

impl DiskAction {
    fn target(&self) -> (target: &FilePath)
        ensures
            target@ == self@.target(),
    {
        match self {
            DiskAction::Write { path, .. } => path,
            DiskAction::SavePng { path, .. } => path,
            DiskAction::CopyFile { to, .. } => to,
            DiskAction::MoveFile { to, .. } => to,
            DiskAction::RemoveIfExists { path } => path,
            DiskAction::Touch { path } => path,
            DiskAction::TouchIfPresent { path } => path,
        }
    }

    /// What a failure of the step is reported as.
    pub fn failure(&self, trouble: &Trouble) -> (error: StoreError)
        ensures
            error@ == self@.failure(*trouble),
    {
        let (cause, removing) = match trouble {
            Trouble::Saving { cause } => (cause.as_str(), false),
            Trouble::Removing { cause } => (cause.as_str(), true),
        };
        match self {
            DiskAction::RemoveIfExists { path } => {
                StoreError::of_io(ErrorKind::RemoveFailed, path, cause)
            },
            DiskAction::MoveFile { from, .. } if removing => {
                StoreError::of_io(ErrorKind::RemoveFailed, from, cause)
            },
            _ => StoreError::of_io(ErrorKind::SaveFailed, self.target(), cause),
        }
    }
}

/// How an operation ends once its required steps are done.
#[derive(Debug)]
pub enum Finish {
    /// The store already is as it should be.
    Done { changed: bool },
    /// The record goes to the front of the store.
    Insert { record: StoredImage },
    /// The operation fails.
    Fail { error: StoreError },
}

#[verifier::ext_equal]
pub enum FinishView {
    Done { changed: bool },
    Insert { record: RecordView },
    Fail { error: ErrorView },
}

impl View for Finish {
    type V = FinishView;

    open spec fn view(&self) -> FinishView {
        match *self {
            Finish::Done { changed } => FinishView::Done { changed },
            Finish::Insert { record } => FinishView::Insert { record: record@ },
            Finish::Fail { error } => FinishView::Fail { error: error@ },
        }
    }
}

/// What is to be done to carry out an operation on the store.
#[derive(Debug)]
pub struct Outcome {
    pub refresh: Vec<DiskAction>,
    pub required: Vec<DiskAction>,
    pub finish: Finish,
    pub cleanup: Vec<DiskAction>,
}

#[verifier::ext_equal]
pub struct OutcomeView {
    pub refresh: Seq<ActionView>,
    pub required: Seq<ActionView>,
    pub finish: FinishView,
    pub cleanup: Seq<ActionView>,
}

impl View for Outcome {
    type V = OutcomeView;

    open spec fn view(&self) -> OutcomeView {
        OutcomeView {
            refresh: action_views(self.refresh@),
            required: action_views(self.required@),
            finish: self.finish@,
            cleanup: action_views(self.cleanup@),
        }
    }
}

impl OutcomeView {
    /// All steps of the operation, in the order in which they are done.
    pub open spec fn steps(self) -> Seq<ActionView> {
        self.refresh + self.required + self.cleanup
    }

    /// The operation fails, after the given steps.
    pub open spec fn failing(required: Seq<ActionView>, error: ErrorView) -> OutcomeView {
        OutcomeView {
            refresh: Seq::empty(),
            required,
            finish: FinishView::Fail { error },
            cleanup: Seq::empty(),
        }
    }

    /// The record goes to the front of the store, after the given steps.
    pub open spec fn inserting(required: Seq<ActionView>, record: RecordView) -> OutcomeView {
        OutcomeView {
            refresh: Seq::empty(),
            required,
            finish: FinishView::Insert { record },
            cleanup: Seq::empty(),
        }
    }

    /// An item that the store already held has come to its front.
    pub open spec fn promoting(
        refresh: Seq<ActionView>,
        required: Seq<ActionView>,
    ) -> OutcomeView {
        OutcomeView {
            refresh,
            required,
            finish: FinishView::Done { changed: true },
            cleanup: Seq::empty(),
        }
    }
}

impl Outcome {
    pub fn failing(required: Vec<DiskAction>, error: StoreError) -> (outcome: Outcome)
        ensures
            outcome@ == OutcomeView::failing(action_views(required@), error@),
    {
        let outcome = Outcome {
            refresh: Vec::new(),
            required,
            finish: Finish::Fail { error },
            cleanup: Vec::new(),
        };
        assert(outcome@ =~= OutcomeView::failing(action_views(required@), error@));
        outcome
    }

    pub fn inserting(required: Vec<DiskAction>, record: StoredImage) -> (outcome: Outcome)
        ensures
            outcome@ == OutcomeView::inserting(action_views(required@), record@),
    {
        let outcome = Outcome {
            refresh: Vec::new(),
            required,
            finish: Finish::Insert { record },
            cleanup: Vec::new(),
        };
        assert(outcome@ =~= OutcomeView::inserting(action_views(required@), record@));
        outcome
    }

    pub fn promoting(refresh: Vec<DiskAction>, required: Vec<DiskAction>) -> (outcome: Outcome)
        ensures
            outcome@ == OutcomeView::promoting(action_views(refresh@), action_views(required@)),
    {
        let outcome = Outcome {
            refresh,
            required,
            finish: Finish::Done { changed: true },
            cleanup: Vec::new(),
        };
        assert(outcome@ =~= OutcomeView::promoting(
            action_views(refresh@),
            action_views(required@),
        ));
        outcome
    }
}

/// A file that cannot be removed is told by its own path, also where it was to be
/// moved; whatever else fails is told by the path that was to be written.
pub proof fn law_failure(path: PathView, other: PathView, image: PixelsView, bytes: Seq<u8>, cause:
    String)
    ensures
        ({
            let saving = Trouble::Saving { cause };
            let removing = Trouble::Removing { cause };
            let unsaved = ErrorView {
                kind: ErrorKind::SaveFailed,
                subject: path.text,
                cause: Some(cause@),
            };
            let kept = ErrorView {
                kind: ErrorKind::RemoveFailed,
                subject: path.text,
                cause: Some(cause@),
            };
            &&& ActionView::RemoveIfExists { path }.failure(saving) == kept
            &&& ActionView::RemoveIfExists { path }.failure(removing) == kept
            &&& ActionView::MoveFile { from: path, to: other }.failure(removing) == kept
            &&& ActionView::MoveFile { from: other, to: path }.failure(saving) == unsaved
            &&& ActionView::CopyFile { from: other, to: path }.failure(saving) == unsaved
            &&& ActionView::Write { path, bytes }.failure(saving) == unsaved
            &&& ActionView::SavePng { path, image }.failure(saving) == unsaved
            &&& ActionView::Touch { path }.failure(saving) == unsaved
            &&& ActionView::TouchIfPresent { path }.failure(saving) == unsaved
        }),
{
}

/// What a step is taken to do is what it does.
pub proof fn law_action_views(
    path: FilePath,
    other: FilePath,
    image: RgbaPixels,
    bytes: Vec<u8>,
    steps: Seq<DiskAction>,
    i: int,
)
    ensures
        (DiskAction::Write { path, bytes })@ == (ActionView::Write { path: path@, bytes: bytes@ }),
        (DiskAction::SavePng { path, image })@ == (ActionView::SavePng {
            path: path@,
            image: image@,
        }),
        (DiskAction::CopyFile { from: path, to: other })@ == (ActionView::CopyFile {
            from: path@,
            to: other@,
        }),
        (DiskAction::MoveFile { from: path, to: other })@ == (ActionView::MoveFile {
            from: path@,
            to: other@,
        }),
        (DiskAction::RemoveIfExists { path })@ == (ActionView::RemoveIfExists { path: path@ }),
        (DiskAction::Touch { path })@ == (ActionView::Touch { path: path@ }),
        (DiskAction::TouchIfPresent { path })@ == (ActionView::TouchIfPresent { path: path@ }),
        action_views(steps).len() == steps.len(),
        0 <= i < steps.len() ==> action_views(steps)[i] == steps[i]@,
{
}

} // verus!
