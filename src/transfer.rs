//! The decisions of moving one matched file, as a state machine: the caller
//! performs each action on the file system and answers with what happened.
use vstd::prelude::*;

verus! {

/// The two flags of a run.
#[derive(Clone, Copy, Debug, PartialEq, Eq, Structural)]
pub struct RunMode {
    /// Report what would be done, and change nothing.
    pub simulate: bool,
    /// Replace a file already present at the destination instead of skipping.
    pub overwrite: bool,
}

/// Where the move of one file stands.
#[derive(Clone, Copy, Debug, PartialEq, Eq, Structural)]
pub enum TransferState {
    AwaitDestination,
    AwaitAnnounce,
    AwaitDirectory,
    AwaitCreate,
    AwaitRename,
    AwaitCopy,
    AwaitDelete,
    Finished,
}

/// How an attempt to rename the file into place ended.
#[derive(Clone, Copy, Debug, PartialEq, Eq, Structural)]
pub enum RenameOutcome {
    Moved,
    /// Source and destination lie on different volumes.
    CrossDevice,
    Failed,
}

/// What the caller observed after performing an action.
#[derive(Clone, Copy, Debug, PartialEq, Eq, Structural)]
pub enum TransferEvent {
    /// Whether a file exists at the destination path.
    DestinationChecked(bool),
    /// The intended move was reported.
    Announced,
    /// Whether the destination directory exists.
    DirectoryChecked(bool),
    /// Whether creating the destination directory succeeded.
    DirectoryCreated(bool),
    RenameDone(RenameOutcome),
    /// Whether copying the file to the destination succeeded.
    CopyDone(bool),
    /// Whether removing the source after the copy succeeded.
    DeleteDone(bool),
}

/// A failure that abandons one file; the run goes on.
#[derive(Clone, Copy, Debug, PartialEq, Eq, Structural)]
pub enum FileError {
    DirectoryCreateFailed,
    MoveFailed,
    CopyFailed,
    /// The copy stands at the destination and the source is still in place.
    DeleteFailed,
}

/// What the caller is to do next.
#[derive(Clone, Copy, Debug, PartialEq, Eq, Structural)]
pub enum TransferAction {
    /// Find out whether a file exists at the destination path.
    CheckDestination,
    /// Report the file as skipped: it already exists at the destination.
    Skip,
    /// Report the intended move.
    AnnounceMove,
    /// Find out whether the destination directory exists.
    CheckDirectory,
    /// Create the destination directory and its parents.
    CreateDirectory,
    /// Rename the file to its destination path.
    Rename,
    /// Copy the file to its destination path.
    Copy,
    /// Remove the source file.
    DeleteSource,
    ReportError(FileError),
    /// Nothing more to do for this file.
    Finish,
}

/// The state and action that begin the move of a file.
pub open spec fn initial() -> (TransferState, TransferAction) {
    (TransferState::AwaitDestination, TransferAction::CheckDestination)
}

/// The next state and action, from the state and the caller's answer. An
/// answer that does not fit the state ends the move with nothing more done.
pub open spec fn transition(s: TransferState, e: TransferEvent, m: RunMode) -> (
    TransferState,
    TransferAction,
) {
    match (s, e) {
        (TransferState::AwaitDestination, TransferEvent::DestinationChecked(exists)) => {
            if exists && !m.overwrite {
                (TransferState::Finished, TransferAction::Skip)
            } else {
                (TransferState::AwaitAnnounce, TransferAction::AnnounceMove)
            }
        },
        (TransferState::AwaitAnnounce, TransferEvent::Announced) => {
            if m.simulate {
                (TransferState::Finished, TransferAction::Finish)
            } else {
                (TransferState::AwaitDirectory, TransferAction::CheckDirectory)
            }
        },
        (TransferState::AwaitDirectory, TransferEvent::DirectoryChecked(exists)) => {
            if exists {
                (TransferState::AwaitRename, TransferAction::Rename)
            } else {
                (TransferState::AwaitCreate, TransferAction::CreateDirectory)
            }
        },
        (TransferState::AwaitCreate, TransferEvent::DirectoryCreated(ok)) => {
            if ok {
                (TransferState::AwaitRename, TransferAction::Rename)
            } else {
                (
                    TransferState::Finished,
                    TransferAction::ReportError(FileError::DirectoryCreateFailed),
                )
            }
        },
        (TransferState::AwaitRename, TransferEvent::RenameDone(outcome)) => match outcome {
            RenameOutcome::Moved => (TransferState::Finished, TransferAction::Finish),
            RenameOutcome::CrossDevice => (TransferState::AwaitCopy, TransferAction::Copy),
            RenameOutcome::Failed => (
                TransferState::Finished,
                TransferAction::ReportError(FileError::MoveFailed),
            ),
        },
        (TransferState::AwaitCopy, TransferEvent::CopyDone(ok)) => {
            if ok {
                (TransferState::AwaitDelete, TransferAction::DeleteSource)
            } else {
                (TransferState::Finished, TransferAction::ReportError(FileError::CopyFailed))
            }
        },
        (TransferState::AwaitDelete, TransferEvent::DeleteDone(ok)) => {
            if ok {
                (TransferState::Finished, TransferAction::Finish)
            } else {
                (TransferState::Finished, TransferAction::ReportError(FileError::DeleteFailed))
            }
        },
        _ => (TransferState::Finished, TransferAction::Finish),
    }
}

/// The actions that answer `events`, one each, from state `s`.
pub open spec fn run_from(s: TransferState, events: Seq<TransferEvent>, m: RunMode) -> Seq<
    TransferAction,
>
    decreases events.len(),
{
    if events.len() == 0 {
        Seq::empty()
    } else {
        let (next, a) = transition(s, events[0], m);
        seq![a] + run_from(next, events.drop_first(), m)
    }
}

/// Every action of the move of one file: the first one, then one for each
/// answer in `events`.
pub open spec fn run(events: Seq<TransferEvent>, m: RunMode) -> Seq<TransferAction> {
    seq![initial().1] + run_from(initial().0, events, m)
}

/// An action that changes the file system.
pub open spec fn is_mutation(a: TransferAction) -> bool {
    match a {
        TransferAction::CreateDirectory
        | TransferAction::Rename
        | TransferAction::Copy
        | TransferAction::DeleteSource => true,
        _ => false,
    }
}

/// The state and action that begin the move of a file.
pub fn start() -> (r: (TransferState, TransferAction))
    ensures
        r == initial(),
{
    (TransferState::AwaitDestination, TransferAction::CheckDestination)
}

/// The next state and action, from the state and the caller's answer.
pub fn step(s: TransferState, e: TransferEvent, m: RunMode) -> (r: (TransferState, TransferAction))
    ensures
        r == transition(s, e, m),
{
    match (s, e) {
        (TransferState::AwaitDestination, TransferEvent::DestinationChecked(exists)) => {
            if exists && !m.overwrite {
                (TransferState::Finished, TransferAction::Skip)
            } else {
                (TransferState::AwaitAnnounce, TransferAction::AnnounceMove)
            }
        },
        (TransferState::AwaitAnnounce, TransferEvent::Announced) => {
            if m.simulate {
                (TransferState::Finished, TransferAction::Finish)
            } else {
                (TransferState::AwaitDirectory, TransferAction::CheckDirectory)
            }
        },
        (TransferState::AwaitDirectory, TransferEvent::DirectoryChecked(exists)) => {
            if exists {
                (TransferState::AwaitRename, TransferAction::Rename)
            } else {
                (TransferState::AwaitCreate, TransferAction::CreateDirectory)
            }
        },
        (TransferState::AwaitCreate, TransferEvent::DirectoryCreated(ok)) => {
            if ok {
                (TransferState::AwaitRename, TransferAction::Rename)
            } else {
                (
                    TransferState::Finished,
                    TransferAction::ReportError(FileError::DirectoryCreateFailed),
                )
            }
        },
        (TransferState::AwaitRename, TransferEvent::RenameDone(outcome)) => match outcome {
            RenameOutcome::Moved => (TransferState::Finished, TransferAction::Finish),
            RenameOutcome::CrossDevice => (TransferState::AwaitCopy, TransferAction::Copy),
            RenameOutcome::Failed => (
                TransferState::Finished,
                TransferAction::ReportError(FileError::MoveFailed),
            ),
        },
        (TransferState::AwaitCopy, TransferEvent::CopyDone(ok)) => {
            if ok {
                (TransferState::AwaitDelete, TransferAction::DeleteSource)
            } else {
                (TransferState::Finished, TransferAction::ReportError(FileError::CopyFailed))
            }
        },
        (TransferState::AwaitDelete, TransferEvent::DeleteDone(ok)) => {
            if ok {
                (TransferState::Finished, TransferAction::Finish)
            } else {
                (TransferState::Finished, TransferAction::ReportError(FileError::DeleteFailed))
            }
        },
        _ => (TransferState::Finished, TransferAction::Finish),
    }
}

proof fn lemma_run_from_len(s: TransferState, events: Seq<TransferEvent>, m: RunMode)
    ensures
        run_from(s, events, m).len() == events.len(),
    decreases events.len(),
{
    if events.len() > 0 {
        lemma_run_from_len(transition(s, events[0], m).0, events.drop_first(), m);
    }
}

/// Once finished, a move only ever answers `Finish`.
proof fn lemma_finished_stays_quiet(events: Seq<TransferEvent>, m: RunMode)
    ensures
        forall|i: int|
            0 <= i < events.len() ==> #[trigger] run_from(TransferState::Finished, events, m)[i]
                == TransferAction::Finish,
    decreases events.len(),
{
    if events.len() > 0 {
        lemma_finished_stays_quiet(events.drop_first(), m);
        lemma_run_from_len(TransferState::Finished, events.drop_first(), m);
        let r = run_from(TransferState::Finished, events, m);
        assert forall|i: int| 0 <= i < events.len() implies r[i] == TransferAction::Finish by {
            if i > 0 {
                assert(r[i] == run_from(TransferState::Finished, events.drop_first(), m)[i - 1]);
            }
        }
    }
}

proof fn lemma_simulation_from(s: TransferState, events: Seq<TransferEvent>, m: RunMode)
    requires
        m.simulate,
        s == TransferState::AwaitDestination || s == TransferState::AwaitAnnounce || s
            == TransferState::Finished,
    ensures
        forall|i: int|
            0 <= i < events.len() ==> !is_mutation(#[trigger] run_from(s, events, m)[i]),
    decreases events.len(),
{
    if events.len() > 0 {
        let (next, a) = transition(s, events[0], m);
        lemma_simulation_from(next, events.drop_first(), m);
        lemma_run_from_len(next, events.drop_first(), m);
        let r = run_from(s, events, m);
        assert forall|i: int| 0 <= i < events.len() implies !is_mutation(r[i]) by {
            if i > 0 {
                assert(r[i] == run_from(next, events.drop_first(), m)[i - 1]);
            }
        }
    }
}

/// In a simulated run no action changes the file system, whatever the
/// caller answers and whatever the overwrite flag says.
pub proof fn lemma_simulation_changes_nothing(events: Seq<TransferEvent>, m: RunMode)
    requires
        m.simulate,
    ensures
        forall|i: int| 0 <= i < events.len() + 1 ==> !is_mutation(#[trigger] run(events, m)[i]),
{
    lemma_simulation_from(initial().0, events, m);
    lemma_run_from_len(initial().0, events, m);
    let r = run(events, m);
    assert forall|i: int| 0 <= i < events.len() + 1 implies !is_mutation(r[i]) by {
        if i > 0 {
            assert(r[i] == run_from(initial().0, events, m)[i - 1]);
        }
    }
}

/// Without overwrite, a file already present at the destination makes the
/// move report a skip, and no action of it changes the file system: the
/// source stays where it is.
pub proof fn lemma_existing_destination_is_skipped(events: Seq<TransferEvent>, m: RunMode)
    requires
        !m.overwrite,
        events.len() > 0,
        events[0] == TransferEvent::DestinationChecked(true),
    ensures
        run(events, m)[1] == TransferAction::Skip,
        forall|i: int| 0 <= i < events.len() + 1 ==> !is_mutation(#[trigger] run(events, m)[i]),
{
    let rest = events.drop_first();
    lemma_finished_stays_quiet(rest, m);
    lemma_run_from_len(TransferState::Finished, rest, m);
    let r = run(events, m);
    let tail = run_from(initial().0, events, m);
    assert(tail == seq![TransferAction::Skip] + run_from(TransferState::Finished, rest, m));
    assert forall|i: int| 0 <= i < events.len() + 1 implies !is_mutation(r[i]) by {
        if i > 1 {
            assert(r[i] == tail[i - 1]);
            assert(tail[i - 1] == run_from(TransferState::Finished, rest, m)[i - 2]);
        }
    }
}

proof fn lemma_delete_follows_copy_from(s: TransferState, events: Seq<TransferEvent>, m: RunMode)
    ensures
        forall|i: int|
            0 <= i < events.len() && #[trigger] run_from(s, events, m)[i]
                == TransferAction::DeleteSource ==> events[i] == TransferEvent::CopyDone(true),
    decreases events.len(),
{
    if events.len() > 0 {
        let (next, a) = transition(s, events[0], m);
        lemma_delete_follows_copy_from(next, events.drop_first(), m);
        lemma_run_from_len(next, events.drop_first(), m);
        let r = run_from(s, events, m);
        assert forall|i: int|
            0 <= i < events.len() && r[i] == TransferAction::DeleteSource implies events[i]
            == TransferEvent::CopyDone(true) by {
            if i > 0 {
                assert(r[i] == run_from(next, events.drop_first(), m)[i - 1]);
                assert(events[i] == events.drop_first()[i - 1]);
            }
        }
    }
}

/// A rename refused as cross-device turns into a copy; the source is removed
/// only in answer to a copy that succeeded. A failed removal after that
/// copy is reported, and leaves both the copy and the source in place.
pub proof fn lemma_cross_device_fallback(events: Seq<TransferEvent>, m: RunMode)
    ensures
        transition(TransferState::AwaitRename, TransferEvent::RenameDone(RenameOutcome::CrossDevice), m)
            == (TransferState::AwaitCopy, TransferAction::Copy),
        transition(TransferState::AwaitCopy, TransferEvent::CopyDone(false), m) == (
            TransferState::Finished,
            TransferAction::ReportError(FileError::CopyFailed),
        ),
        transition(TransferState::AwaitDelete, TransferEvent::DeleteDone(false), m) == (
            TransferState::Finished,
            TransferAction::ReportError(FileError::DeleteFailed),
        ),
        forall|i: int|
            1 <= i < events.len() + 1 && #[trigger] run(events, m)[i]
                == TransferAction::DeleteSource ==> events[i - 1] == TransferEvent::CopyDone(true),
{
    lemma_delete_follows_copy_from(initial().0, events, m);
    lemma_run_from_len(initial().0, events, m);
    let r = run(events, m);
    assert forall|i: int|
        1 <= i < events.len() + 1 && r[i] == TransferAction::DeleteSource implies events[i - 1]
        == TransferEvent::CopyDone(true) by {
        assert(r[i] == run_from(initial().0, events, m)[i - 1]);
    }
}

} // verus!
