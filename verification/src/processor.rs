//! The per-issue processing state machine.
//!
//! A worker drives one issue end to end: check whether its archive already
//! exists, create the staging directory, fetch the pages, package, clean
//! up. The machine here makes every decision; the caller performs the
//! filesystem and network work each action names and feeds the outcome
//! back as the next event.

use vstd::prelude::*;
use crate::model::SiteDownloaderError;

verus! {

/// Where an issue stands.
#[derive(Debug, Clone, Copy, PartialEq, Eq, Structural)]
pub enum IssuePhase {
    /// Nothing has happened yet; the entry guard runs here.
    Pending,
    /// The staging directory exists and pages are being fetched.
    StagingCreated,
    /// Every page was handled; the archive is being produced.
    PagesFetching,
    /// The archive was written; staging is being removed.
    Packaged,
    /// The issue is complete and its staging directory is gone.
    Done,
    /// The archive already existed, so no work was performed.
    AlreadyComplete,
    /// The issue failed; staging is left behind for diagnosis.
    Failed(SiteDownloaderError),
}

/// What the driver reports back to the machine.
#[derive(Debug, Clone, Copy, PartialEq, Eq, Structural)]
pub enum IssueEvent {
    /// Whether the issue's output archive already exists.
    OutputChecked(bool),
    /// Whether the staging directory exists after trying to create it
    /// (creation may fail harmlessly when the directory was already there).
    StagingMade(bool),
    /// Page fetching finished; failed pages were logged and dropped.
    PagesFetched,
    /// The archive was produced and written.
    PackagingDone,
    /// Packaging failed with the packager's own error; staging is left
    /// intact for diagnosis.
    PackagingFailed(SiteDownloaderError),
    /// Whether the staging directory was removed.
    Cleaned(bool),
}

/// What the driver must do next.
#[derive(Debug, Clone, Copy, PartialEq, Eq, Structural)]
pub enum IssueAction {
    /// Test whether the issue's archive path exists.
    CheckOutput,
    /// Create the staging directory, tolerating "already exists".
    CreateStaging,
    /// Locate and fetch the issue's pages into staging, in page order.
    FetchPages,
    /// Package the staged files and write the archive.
    Package,
    /// Remove the staging directory.
    CleanStaging,
    /// Nothing: the issue reached a terminal state.
    Stop,
}

/// Whether a phase is terminal: no event moves the issue out of it.
pub open spec fn is_terminal(phase: IssuePhase) -> bool {
    phase is Done || phase is AlreadyComplete || phase is Failed
}

/// The machine's transition: from a phase and the last action's outcome to
/// the next phase and the next action. An event that does not belong to the
/// phase is a driver fault and fails the issue. An existing archive is the
/// sole completion marker: seeing one ends the issue before any staging or
/// network work.
pub open spec fn issue_transition(phase: IssuePhase, ev: IssueEvent) -> (IssuePhase, IssueAction) {
    if is_terminal(phase) {
        (phase, IssueAction::Stop)
    } else {
        match (phase, ev) {
            (IssuePhase::Pending, IssueEvent::OutputChecked(true)) => (
                IssuePhase::AlreadyComplete,
                IssueAction::Stop,
            ),
            (IssuePhase::Pending, IssueEvent::OutputChecked(false)) => (
                IssuePhase::Pending,
                IssueAction::CreateStaging,
            ),
            (IssuePhase::Pending, IssueEvent::StagingMade(true)) => (
                IssuePhase::StagingCreated,
                IssueAction::FetchPages,
            ),
            (IssuePhase::Pending, IssueEvent::StagingMade(false)) => (
                IssuePhase::Failed(SiteDownloaderError::FileSystemError),
                IssueAction::Stop,
            ),
            (IssuePhase::StagingCreated, IssueEvent::PagesFetched) => (
                IssuePhase::PagesFetching,
                IssueAction::Package,
            ),
            (IssuePhase::PagesFetching, IssueEvent::PackagingDone) => (
                IssuePhase::Packaged,
                IssueAction::CleanStaging,
            ),
            (IssuePhase::PagesFetching, IssueEvent::PackagingFailed(e)) => (
                IssuePhase::Failed(e),
                IssueAction::Stop,
            ),
            (IssuePhase::Packaged, IssueEvent::Cleaned(true)) => (
                IssuePhase::Done,
                IssueAction::Stop,
            ),
            (IssuePhase::Packaged, IssueEvent::Cleaned(false)) => (
                IssuePhase::Failed(SiteDownloaderError::FileSystemError),
                IssueAction::Stop,
            ),
            _ => (IssuePhase::Failed(SiteDownloaderError::FileSystemError), IssueAction::Stop),
        }
    }
}

/// Where every issue starts: pending, with the entry guard to run first.
pub fn issue_start() -> (r: (IssuePhase, IssueAction))
    ensures
        r.0 == IssuePhase::Pending,
        r.1 == IssueAction::CheckOutput,
{
    (IssuePhase::Pending, IssueAction::CheckOutput)
}

/// One step of the machine.
pub fn issue_step(phase: IssuePhase, ev: IssueEvent) -> (r: (IssuePhase, IssueAction))
    ensures
        r == issue_transition(phase, ev),
{
    match phase {
        IssuePhase::Done | IssuePhase::AlreadyComplete | IssuePhase::Failed(_) => (
            phase,
            IssueAction::Stop,
        ),
        IssuePhase::Pending => match ev {
            IssueEvent::OutputChecked(true) => (IssuePhase::AlreadyComplete, IssueAction::Stop),
            IssueEvent::OutputChecked(false) => (IssuePhase::Pending, IssueAction::CreateStaging),
            IssueEvent::StagingMade(true) => (IssuePhase::StagingCreated, IssueAction::FetchPages),
            _ => (IssuePhase::Failed(SiteDownloaderError::FileSystemError), IssueAction::Stop),
        },
        IssuePhase::StagingCreated => match ev {
            IssueEvent::PagesFetched => (IssuePhase::PagesFetching, IssueAction::Package),
            _ => (IssuePhase::Failed(SiteDownloaderError::FileSystemError), IssueAction::Stop),
        },
        IssuePhase::PagesFetching => match ev {
            IssueEvent::PackagingDone => (IssuePhase::Packaged, IssueAction::CleanStaging),
            IssueEvent::PackagingFailed(e) => (IssuePhase::Failed(e), IssueAction::Stop),
            _ => (IssuePhase::Failed(SiteDownloaderError::FileSystemError), IssueAction::Stop),
        },
        IssuePhase::Packaged => match ev {
            IssueEvent::Cleaned(true) => (IssuePhase::Done, IssueAction::Stop),
            _ => (IssuePhase::Failed(SiteDownloaderError::FileSystemError), IssueAction::Stop),
        },
    }
}

/// The phase an issue reaches after a run of events, from the start.
pub open spec fn phase_after(events: Seq<IssueEvent>) -> IssuePhase
    decreases events.len(),
{
    if events.len() == 0 {
        IssuePhase::Pending
    } else {
        issue_transition(phase_after(events.drop_last()), events.last()).0
    }
}

/// Every action a run of events makes the machine emit, the initial
/// `CheckOutput` first.
pub open spec fn actions_of(events: Seq<IssueEvent>) -> Seq<IssueAction>
    decreases events.len(),
{
    if events.len() == 0 {
        seq![IssueAction::CheckOutput]
    } else {
        actions_of(events.drop_last()).push(
            issue_transition(phase_after(events.drop_last()), events.last()).1,
        )
    }
}

/// Idempotence of a finished issue: when the entry guard finds the archive
/// already on disk, the issue ends as `AlreadyComplete` and, whatever
/// events follow, the machine never asks for anything again — no staging,
/// no page fetch, no packaging. A rerun over finished issues therefore
/// performs zero network calls for them.
pub proof fn lemma_already_complete_fetches_nothing(events: Seq<IssueEvent>)
    requires
        events.len() > 0,
        events[0] == IssueEvent::OutputChecked(true),
    ensures
        phase_after(events) == IssuePhase::AlreadyComplete,
        forall|k: int|
            1 <= k < actions_of(events).len() ==> actions_of(events)[k] == IssueAction::Stop,
    decreases events.len(),
{
    if events.len() == 1 {
        assert(events.drop_last() =~= Seq::<IssueEvent>::empty());
        assert(actions_of(events.drop_last()) == seq![IssueAction::CheckOutput]);
        assert(phase_after(events.drop_last()) == IssuePhase::Pending);
        assert(events.last() == events[0]);
        assert(actions_of(events) == seq![IssueAction::CheckOutput].push(IssueAction::Stop));
        assert forall|k: int|
            1 <= k < actions_of(events).len() implies actions_of(events)[k]
            == IssueAction::Stop by {
            assert(k == 1);
        }
    } else {
        let pre = events.drop_last();
        assert(pre[0] == events[0]);
        lemma_already_complete_fetches_nothing(pre);
        assert forall|k: int|
            1 <= k < actions_of(events).len() implies actions_of(events)[k]
            == IssueAction::Stop by {
            if k < actions_of(pre).len() {
                assert(actions_of(events)[k] == actions_of(pre)[k]);
            } else {
                assert(actions_of(events)[k] == issue_transition(
                    phase_after(pre),
                    events.last(),
                ).1);
            }
        }
    }
}

} // verus!
