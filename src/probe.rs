//! Attaching one probe as a two-phase commit: the entry hook, then the exit hook, and
//! where the exit hook fails, the entry hook is released before the failure is reported.
use vstd::prelude::*;

verus! {

/// Which hook of a probe.
#[derive(Clone, Copy, Debug, PartialEq, Eq, Structural)]
pub enum HookStage {
    Entry,
    Exit,
}

/// Where an attach attempt stands.
#[derive(Clone, Copy, Debug, PartialEq, Eq, Structural)]
pub enum AttachPhase {
    /// No hook is attached yet.
    Start,
    /// The entry hook is attached; the exit hook is next.
    EntryHeld,
    /// Both hooks are attached.
    Attached,
    /// The exit hook failed; the entry hook is being released.
    RollingBack,
    /// The attempt failed at this hook and no hook is held.
    Failed(HookStage),
}

/// What the driver of the attempt reports back.
#[derive(Clone, Copy, Debug, PartialEq, Eq, Structural)]
pub enum AttachEvent {
    EntryAttached,
    EntryFailed,
    ExitAttached,
    ExitFailed,
    EntryReleased,
}

/// What the driver of the attempt is to do next.
#[derive(Clone, Copy, Debug, PartialEq, Eq, Structural)]
pub enum AttachAction {
    AttachEntry,
    AttachExit,
    ReleaseEntry,
    /// Both hooks are in place: the probe is attached.
    Commit,
    /// The attempt failed at this hook, with no hook left attached.
    Abort(HookStage),
}

/// The entry hook is attached in this phase.
pub open spec fn holds_entry(p: AttachPhase) -> bool {
    p is EntryHeld || p is Attached || p is RollingBack
}

/// The exit hook is attached in this phase.
pub open spec fn holds_exit(p: AttachPhase) -> bool {
    p is Attached
}

/// What the driver is to do in phase `p`.
pub open spec fn pending_action(p: AttachPhase) -> AttachAction {
    match p {
        AttachPhase::Start => AttachAction::AttachEntry,
        AttachPhase::EntryHeld => AttachAction::AttachExit,
        AttachPhase::RollingBack => AttachAction::ReleaseEntry,
        AttachPhase::Attached => AttachAction::Commit,
        AttachPhase::Failed(stage) => AttachAction::Abort(stage),
    }
}

/// The phase that follows `p` on `ev`; an event that does not belong to the phase
/// changes nothing.
pub open spec fn next_phase(p: AttachPhase, ev: AttachEvent) -> AttachPhase {
    match (p, ev) {
        (AttachPhase::Start, AttachEvent::EntryAttached) => AttachPhase::EntryHeld,
        (AttachPhase::Start, AttachEvent::EntryFailed) => AttachPhase::Failed(HookStage::Entry),
        (AttachPhase::EntryHeld, AttachEvent::ExitAttached) => AttachPhase::Attached,
        (AttachPhase::EntryHeld, AttachEvent::ExitFailed) => AttachPhase::RollingBack,
        (AttachPhase::RollingBack, AttachEvent::EntryReleased) => AttachPhase::Failed(HookStage::Exit),
        _ => p,
    }
}

/// The phase after a run of events, from `p`.
pub open spec fn phase_after(p: AttachPhase, evs: Seq<AttachEvent>) -> AttachPhase
    decreases evs.len(),
{
    if evs.len() == 0 {
        p
    } else {
        next_phase(phase_after(p, evs.drop_last()), evs.last())
    }
}

/// One attempt to attach the two hooks of a probe.
pub struct AttachSession {
    phase: AttachPhase,
}

impl AttachSession {
    /// Where the attempt stands.
    pub closed spec fn phase_of(&self) -> AttachPhase {
        self.phase
    }

    /// An attempt with no hook attached yet.
    pub fn new() -> (r: AttachSession)
        ensures
            r.phase_of() == AttachPhase::Start,
    {
        AttachSession { phase: AttachPhase::Start }
    }

    /// The current phase.
    pub fn phase(&self) -> (r: AttachPhase)
        ensures
            r == self.phase_of(),
    {
        self.phase
    }

    /// What the driver is to do now.
    pub fn action(&self) -> (r: AttachAction)
        ensures
            r == pending_action(self.phase_of()),
    {
        match self.phase {
            AttachPhase::Start => AttachAction::AttachEntry,
            AttachPhase::EntryHeld => AttachAction::AttachExit,
            AttachPhase::RollingBack => AttachAction::ReleaseEntry,
            AttachPhase::Attached => AttachAction::Commit,
            AttachPhase::Failed(stage) => AttachAction::Abort(stage),
        }
    }

    /// Both hooks are attached.
    pub fn is_attached(&self) -> (r: bool)
        ensures
            r == (self.phase_of() == AttachPhase::Attached),
    {
        self.phase == AttachPhase::Attached
    }

    /// Takes what the driver reports and says what it is to do next.
    pub fn step(&mut self, ev: AttachEvent) -> (r: AttachAction)
        ensures
            final(self).phase_of() == next_phase(old(self).phase_of(), ev),
            r == pending_action(final(self).phase_of()),
    {
        let next = match (self.phase, ev) {
            (AttachPhase::Start, AttachEvent::EntryAttached) => AttachPhase::EntryHeld,
            (AttachPhase::Start, AttachEvent::EntryFailed) => AttachPhase::Failed(HookStage::Entry),
            (AttachPhase::EntryHeld, AttachEvent::ExitAttached) => AttachPhase::Attached,
            (AttachPhase::EntryHeld, AttachEvent::ExitFailed) => AttachPhase::RollingBack,
            (AttachPhase::RollingBack, AttachEvent::EntryReleased) => AttachPhase::Failed(
                HookStage::Exit,
            ),
            _ => self.phase,
        };
        self.phase = next;
        self.action()
    }
}

/// An exit hook that fails once the entry hook is attached makes the driver release the
/// entry hook; the attempt then ends failed at the exit hook, not attached, holding no
/// hook.
pub proof fn lemma_exit_failure_releases_entry()
    ensures
        next_phase(AttachPhase::EntryHeld, AttachEvent::ExitFailed) == AttachPhase::RollingBack,
        pending_action(AttachPhase::RollingBack) == AttachAction::ReleaseEntry,
        next_phase(AttachPhase::RollingBack, AttachEvent::EntryReleased) == AttachPhase::Failed(
            HookStage::Exit,
        ),
        !holds_entry(AttachPhase::Failed(HookStage::Exit)),
        !holds_exit(AttachPhase::Failed(HookStage::Exit)),
{
}

/// From the start, whatever is reported: the attempt commits only with both hooks
/// attached, a failed attempt holds no hook, and the exit hook is never held without the
/// entry hook.
pub proof fn lemma_attach_atomic(evs: Seq<AttachEvent>)
    ensures
        pending_action(phase_after(AttachPhase::Start, evs)) is Commit ==> holds_entry(
            phase_after(AttachPhase::Start, evs),
        ) && holds_exit(phase_after(AttachPhase::Start, evs)),
        pending_action(phase_after(AttachPhase::Start, evs)) is Abort ==> !holds_entry(
            phase_after(AttachPhase::Start, evs),
        ) && !holds_exit(phase_after(AttachPhase::Start, evs)),
        holds_exit(phase_after(AttachPhase::Start, evs)) ==> holds_entry(
            phase_after(AttachPhase::Start, evs),
        ),
        phase_after(AttachPhase::Start, evs) is Failed ==> !holds_entry(
            phase_after(AttachPhase::Start, evs),
        ),
{
}

} // verus!
