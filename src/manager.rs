//! The coordinator of all configured probes: it records each probe's attach outcome on
//! its own, so that one failure leaves the others running, and reports every failure.
use vstd::prelude::*;
use crate::probe::HookStage;
use crate::symbols::{FunctionInfo, FunctionTarget, targets_view};

verus! {

/// Where one configured probe stands.
#[derive(Clone, Copy, Debug, PartialEq, Eq, Structural)]
pub enum ProbeStatus {
    /// Not attached yet.
    Pending,
    /// Attached; its poll loop runs.
    Running,
    /// Attaching failed at this hook; nothing of it stays attached.
    AttachFailed(HookStage),
    /// Its poll loop has ended, with an error or by cancellation.
    Ended { failed: bool },
}

/// Every configured probe, each with its target and status.
pub struct Manager {
    targets: Vec<FunctionInfo>,
    statuses: Vec<ProbeStatus>,
}

impl Manager {
    /// The target of each probe, in registration order.
    pub closed spec fn targets_of(&self) -> Seq<FunctionTarget> {
        targets_view(self.targets@)
    }

    /// The status of each probe, in registration order.
    pub closed spec fn statuses_of(&self) -> Seq<ProbeStatus> {
        self.statuses@
    }

    /// Each probe has a target and a status.
    pub open spec fn well_formed(&self) -> bool {
        self.targets_of().len() == self.statuses_of().len()
    }

    /// A coordinator with no probe.
    pub fn new() -> (r: Manager)
        ensures
            r.well_formed(),
            r.targets_of().len() == 0,
    {
        Manager { targets: Vec::new(), statuses: Vec::new() }
    }

    /// A coordinator with one probe, not attached yet, for each of `targets`.
    pub fn with_targets(targets: Vec<FunctionInfo>) -> (r: Manager)
        ensures
            r.well_formed(),
            r.targets_of() == targets_view(targets@),
            forall|i: int| 0 <= i < r.statuses_of().len() ==> #[trigger] r.statuses_of()[i] == ProbeStatus::Pending,
    {
        let n = targets.len();
        let mut statuses: Vec<ProbeStatus> = Vec::new();
        let mut i: usize = 0;
        while i < n
            invariant
                i <= n,
                statuses@.len() == i,
                forall|j: int| 0 <= j < i ==> #[trigger] statuses@[j] == ProbeStatus::Pending,
            decreases n - i,
        {
            statuses.push(ProbeStatus::Pending);
            i = i + 1;
        }
        Manager { targets, statuses }
    }

    /// Adds a probe for `target`, not attached yet.
    pub fn register_probe(&mut self, target: FunctionInfo)
        requires
            old(self).well_formed(),
        ensures
            final(self).well_formed(),
            final(self).targets_of() == old(self).targets_of().push(target@),
            final(self).statuses_of() == old(self).statuses_of().push(ProbeStatus::Pending),
    {
        self.targets.push(target);
        self.statuses.push(ProbeStatus::Pending);
        assert(self.targets_of() == old(self).targets_of().push(target@));
    }

    /// The number of probes.
    pub fn len(&self) -> (r: usize)
        requires
            self.well_formed(),
        ensures
            r == self.statuses_of().len(),
    {
        self.statuses.len()
    }

    /// The target of probe `index`.
    pub fn target(&self, index: usize) -> (r: &FunctionInfo)
        requires
            self.well_formed(),
            index < self.targets_of().len(),
        ensures
            r@ == self.targets_of()[index as int],
    {
        &self.targets[index]
    }

    /// The status of probe `index`.
    pub fn status(&self, index: usize) -> (r: ProbeStatus)
        requires
            self.well_formed(),
            index < self.statuses_of().len(),
        ensures
            r == self.statuses_of()[index as int],
    {
        self.statuses[index]
    }

    /// Records how attaching probe `index` went. No other probe is touched.
    pub fn record_attach(&mut self, index: usize, outcome: Result<(), HookStage>)
        requires
            old(self).well_formed(),
            index < old(self).statuses_of().len(),
            old(self).statuses_of()[index as int] == ProbeStatus::Pending,
        ensures
            final(self).well_formed(),
            final(self).targets_of() == old(self).targets_of(),
            final(self).statuses_of() == old(self).statuses_of().update(
                index as int,
                match outcome {
                    Ok(()) => ProbeStatus::Running,
                    Err(stage) => ProbeStatus::AttachFailed(stage),
                },
            ),
    {
        let status = match outcome {
            Ok(()) => ProbeStatus::Running,
            Err(stage) => ProbeStatus::AttachFailed(stage),
        };
        self.statuses.set(index, status);
    }

    /// Records that the poll loop of probe `index` has ended. No other probe is touched.
    pub fn record_end(&mut self, index: usize, failed: bool)
        requires
            old(self).well_formed(),
            index < old(self).statuses_of().len(),
            old(self).statuses_of()[index as int] == ProbeStatus::Running,
        ensures
            final(self).well_formed(),
            final(self).targets_of() == old(self).targets_of(),
            final(self).statuses_of() == old(self).statuses_of().update(
                index as int,
                ProbeStatus::Ended { failed },
            ),
    {
        self.statuses.set(index, ProbeStatus::Ended { failed });
    }

    /// The probes whose attaching failed, in order.
    pub fn attach_failures(&self) -> (r: Vec<usize>)
        requires
            self.well_formed(),
        ensures
            forall|k: int| 0 <= k < r@.len() ==> (r@[k] as int) < self.statuses_of().len(),
            forall|k: int|
                0 <= k < r@.len() ==> self.statuses_of()[#[trigger] r@[k] as int] is AttachFailed,
            forall|i: int|
                0 <= i < self.statuses_of().len() && (#[trigger] self.statuses_of()[i]) is AttachFailed
                    ==> r@.contains(i as usize),
            forall|k1: int, k2: int| 0 <= k1 < k2 < r@.len() ==> r@[k1] < r@[k2],
    {
        let mut r: Vec<usize> = Vec::new();
        let mut i: usize = 0;
        while i < self.statuses.len()
            invariant
                i <= self.statuses@.len(),
                forall|k: int| 0 <= k < r@.len() ==> r@[k] < i,
                forall|k: int| 0 <= k < r@.len() ==> self.statuses@[#[trigger] r@[k] as int] is AttachFailed,
                forall|j: int| 0 <= j < i && (#[trigger] self.statuses@[j]) is AttachFailed ==> r@.contains(
                    j as usize,
                ),
                forall|k1: int, k2: int| 0 <= k1 < k2 < r@.len() ==> r@[k1] < r@[k2],
            decreases self.statuses@.len() - i,
        {
            let ghost old_r = r@;
            if let ProbeStatus::AttachFailed(_) = self.statuses[i] {
                r.push(i);
                assert(r@[r@.len() - 1] == i);
            }
            proof {
                assert forall|j: int| 0 <= j < i + 1 && (#[trigger] self.statuses@[j]) is AttachFailed implies r@.contains(
                    j as usize,
                ) by {
                    if j < i {
                        let w = choose|w: int| 0 <= w < old_r.len() && old_r[w] == j as usize;
                        assert(r@[w] == old_r[w]);
                    } else {
                        assert(r@[r@.len() - 1] == i);
                    }
                }
            }
            i = i + 1;
        }
        r
    }

    /// The probes whose poll loops run.
    pub fn running(&self) -> (r: Vec<usize>)
        requires
            self.well_formed(),
        ensures
            forall|k: int| 0 <= k < r@.len() ==> (r@[k] as int) < self.statuses_of().len(),
            forall|k: int|
                0 <= k < r@.len() ==> self.statuses_of()[#[trigger] r@[k] as int] is Running,
            forall|i: int|
                0 <= i < self.statuses_of().len() && (#[trigger] self.statuses_of()[i]) is Running
                    ==> r@.contains(i as usize),
            forall|k1: int, k2: int| 0 <= k1 < k2 < r@.len() ==> r@[k1] < r@[k2],
    {
        let mut r: Vec<usize> = Vec::new();
        let mut i: usize = 0;
        while i < self.statuses.len()
            invariant
                i <= self.statuses@.len(),
                forall|k: int| 0 <= k < r@.len() ==> r@[k] < i,
                forall|k: int| 0 <= k < r@.len() ==> self.statuses@[#[trigger] r@[k] as int] is Running,
                forall|j: int| 0 <= j < i && (#[trigger] self.statuses@[j]) is Running ==> r@.contains(
                    j as usize,
                ),
                forall|k1: int, k2: int| 0 <= k1 < k2 < r@.len() ==> r@[k1] < r@[k2],
            decreases self.statuses@.len() - i,
        {
            let ghost old_r = r@;
            if let ProbeStatus::Running = self.statuses[i] {
                r.push(i);
                assert(r@[r@.len() - 1] == i);
            }
            proof {
                assert forall|j: int| 0 <= j < i + 1 && (#[trigger] self.statuses@[j]) is Running implies r@.contains(
                    j as usize,
                ) by {
                    if j < i {
                        let w = choose|w: int| 0 <= w < old_r.len() && old_r[w] == j as usize;
                        assert(r@[w] == old_r[w]);
                    } else {
                        assert(r@[r@.len() - 1] == i);
                    }
                }
            }
            i = i + 1;
        }
        r
    }

    /// Every probe has come to an end: its attaching failed or its poll loop ended.
    pub fn all_ended(&self) -> (r: bool)
        requires
            self.well_formed(),
        ensures
            r == forall|i: int|
                0 <= i < self.statuses_of().len() ==> (#[trigger] self.statuses_of()[i]) is AttachFailed
                    || self.statuses_of()[i] is Ended,
    {
        let mut i: usize = 0;
        while i < self.statuses.len()
            invariant
                i <= self.statuses@.len(),
                forall|j: int|
                    0 <= j < i ==> (#[trigger] self.statuses@[j]) is AttachFailed || self.statuses@[j] is Ended,
            decreases self.statuses@.len() - i,
        {
            match self.statuses[i] {
                ProbeStatus::AttachFailed(_) => {},
                ProbeStatus::Ended { .. } => {},
                _ => {
                    return false;
                },
            }
            i = i + 1;
        }
        true
    }
}

} // verus!
