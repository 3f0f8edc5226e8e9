//! The node lifecycle: acquire a lease, register membership, run the pipeline beside the lease
//! keep-alive, and recover from lease loss or shut down cleanly. The decisions are a function
//! from the current phase and what just happened to the next phase and what to do.
use vstd::prelude::*;

verus! {

/// Seconds to wait before acquiring a lease again after a failure.
pub const RESTART_BACKOFF_SECONDS: u64 = 5;

#[derive(Debug, Clone, Copy, PartialEq, Eq, Structural)]
pub enum Phase {
    /// A lease is being granted.
    AcquireLease,
    /// The membership record is being written under this lease.
    RegisterMembership { lease_id: i64 },
    /// The pipeline and the lease keep-alive run under this lease.
    Running { lease_id: i64 },
    /// Waiting before starting over.
    Backoff,
    /// Stopped; nothing more is started.
    Exited,
}

#[derive(Debug, Clone, Copy, PartialEq, Eq, Structural)]
pub enum Event {
    LeaseGranted { lease_id: i64 },
    LeaseGrantFailed,
    MembershipRecorded,
    MembershipFailed,
    /// The keep-alive loop ended: the lease is lost.
    LeaseLost,
    /// The pipeline ended on its own.
    PipelineFinished,
    /// SIGINT or SIGTERM arrived.
    ShutdownSignal,
    BackoffElapsed,
}

#[derive(Debug, Clone, Copy, PartialEq, Eq, Structural)]
pub enum Action {
    GrantLease,
    RecordMembership { lease_id: i64 },
    /// Start the pipeline and the keep-alive loop under the lease.
    StartWork { lease_id: i64 },
    /// Cancel the pipeline and the keep-alive loop, then wait this many seconds.
    TearDownAndWait { seconds: u64 },
    /// Wait this many seconds.
    Wait { seconds: u64 },
    /// Cancel all work, let in-flight work finish briefly, revoke the lease if one is held,
    /// and exit.
    Shutdown { lease_id: Option<i64> },
    Nothing,
}

/// The lease a phase holds, if any.
pub open spec fn held_lease(phase: Phase) -> Option<i64> {
    match phase {
        Phase::RegisterMembership { lease_id } => Some(lease_id),
        Phase::Running { lease_id } => Some(lease_id),
        _ => None,
    }
}

/// The lifecycle's transitions.
pub open spec fn transition(phase: Phase, event: Event) -> (Phase, Action) {
    match (phase, event) {
        (Phase::Exited, _) => (Phase::Exited, Action::Nothing),
        (_, Event::ShutdownSignal) => (Phase::Exited, Action::Shutdown { lease_id: held_lease(phase) }),
        (Phase::AcquireLease, Event::LeaseGranted { lease_id }) => (
            Phase::RegisterMembership { lease_id },
            Action::RecordMembership { lease_id },
        ),
        (Phase::AcquireLease, Event::LeaseGrantFailed) => (
            Phase::Backoff,
            Action::Wait { seconds: RESTART_BACKOFF_SECONDS },
        ),
        (Phase::RegisterMembership { lease_id }, Event::MembershipRecorded) => (
            Phase::Running { lease_id },
            Action::StartWork { lease_id },
        ),
        (Phase::RegisterMembership { .. }, Event::MembershipFailed) => (
            Phase::Backoff,
            Action::Wait { seconds: RESTART_BACKOFF_SECONDS },
        ),
        (Phase::Running { .. }, Event::LeaseLost) => (
            Phase::Backoff,
            Action::TearDownAndWait { seconds: RESTART_BACKOFF_SECONDS },
        ),
        (Phase::Running { lease_id }, Event::PipelineFinished) => (
            Phase::Exited,
            Action::Shutdown { lease_id: Some(lease_id) },
        ),
        (Phase::Backoff, Event::BackoffElapsed) => (Phase::AcquireLease, Action::GrantLease),
        _ => (phase, Action::Nothing),
    }
}

/// The first action of a starting node.
pub fn start() -> (r: (Phase, Action))
    ensures
        r == (Phase::AcquireLease, Action::GrantLease),
{
    (Phase::AcquireLease, Action::GrantLease)
}

/// Decide what follows `event` in `phase`. Events that do not belong to the phase are ignored.
pub fn step(phase: Phase, event: Event) -> (r: (Phase, Action))
    ensures
        r == transition(phase, event),
{
    match (phase, event) {
        (Phase::Exited, _) => (Phase::Exited, Action::Nothing),
        (_, Event::ShutdownSignal) => {
            let lease_id = match phase {
                Phase::RegisterMembership { lease_id } => Some(lease_id),
                Phase::Running { lease_id } => Some(lease_id),
                _ => None,
            };
            (Phase::Exited, Action::Shutdown { lease_id })
        },
        (Phase::AcquireLease, Event::LeaseGranted { lease_id }) => (
            Phase::RegisterMembership { lease_id },
            Action::RecordMembership { lease_id },
        ),
        (Phase::AcquireLease, Event::LeaseGrantFailed) => (
            Phase::Backoff,
            Action::Wait { seconds: RESTART_BACKOFF_SECONDS },
        ),
        (Phase::RegisterMembership { lease_id }, Event::MembershipRecorded) => (
            Phase::Running { lease_id },
            Action::StartWork { lease_id },
        ),
        (Phase::RegisterMembership { .. }, Event::MembershipFailed) => (
            Phase::Backoff,
            Action::Wait { seconds: RESTART_BACKOFF_SECONDS },
        ),
        (Phase::Running { .. }, Event::LeaseLost) => (
            Phase::Backoff,
            Action::TearDownAndWait { seconds: RESTART_BACKOFF_SECONDS },
        ),
        (Phase::Running { lease_id }, Event::PipelineFinished) => (
            Phase::Exited,
            Action::Shutdown { lease_id: Some(lease_id) },
        ),
        (Phase::Backoff, Event::BackoffElapsed) => (Phase::AcquireLease, Action::GrantLease),
        _ => (phase, Action::Nothing),
    }
}

/// The phase reached from `phase` through `events`, one after another.
pub open spec fn run(phase: Phase, events: Seq<Event>) -> Phase
    decreases events.len(),
{
    if events.len() == 0 {
        phase
    } else {
        run(transition(phase, events[0]).0, events.drop_first())
    }
}

/// Within one node, work starts only under a lease whose membership record was written:
/// `StartWork` comes only out of registering that very lease, on the record's success, and
/// `RecordMembership` only out of that lease's grant.
pub proof fn lemma_work_follows_membership(phase: Phase, event: Event)
    ensures
        forall|l: i64|
            #[trigger] transition(phase, event).1 == (Action::StartWork { lease_id: l }) ==> phase
                == (Phase::RegisterMembership { lease_id: l }) && event == Event::MembershipRecorded,
        forall|l: i64|
            #[trigger] transition(phase, event).1 == (Action::RecordMembership { lease_id: l })
                ==> phase == Phase::AcquireLease && event == (Event::LeaseGranted { lease_id: l }),
{
}

/// A shutdown signal in any live phase stops the node at once, revoking the lease it holds;
/// after that no event starts anything again.
pub proof fn lemma_shutdown_is_final(phase: Phase, later: Seq<Event>)
    ensures
        phase != Phase::Exited ==> transition(phase, Event::ShutdownSignal) == (
            Phase::Exited,
            Action::Shutdown { lease_id: held_lease(phase) },
        ),
        run(Phase::Exited, later) == Phase::Exited,
        forall|e: Event| #[trigger] transition(Phase::Exited, e) == (Phase::Exited, Action::Nothing),
    decreases later.len(),
{
    if later.len() > 0 {
        lemma_shutdown_is_final(phase, later.drop_first());
    }
}

} // verus!
