use uprobe_tracer::controller::ChannelEvent;
use uprobe_tracer::{
    AttachAction, AttachEvent, AttachPhase, AttachSession, BPFEvent, ClockSample, Controller,
    ControllerAction, ControllerState, FunctionInfo, HookStage, Manager, ProbeStatus,
    EVENT_CHANNEL_CAPACITY,
};

#[test]
fn exit_failure_releases_entry_hook() {
    let mut s = AttachSession::new();
    assert_eq!(s.action(), AttachAction::AttachEntry);
    assert_eq!(s.step(AttachEvent::EntryAttached), AttachAction::AttachExit);
    assert_eq!(s.step(AttachEvent::ExitFailed), AttachAction::ReleaseEntry);
    assert!(!s.is_attached());
    assert_eq!(s.step(AttachEvent::EntryReleased), AttachAction::Abort(HookStage::Exit));
    assert_eq!(s.phase(), AttachPhase::Failed(HookStage::Exit));
    assert!(!s.is_attached());
}

#[test]
fn both_hooks_commit() {
    let mut s = AttachSession::new();
    assert_eq!(s.step(AttachEvent::EntryAttached), AttachAction::AttachExit);
    assert_eq!(s.step(AttachEvent::ExitAttached), AttachAction::Commit);
    assert!(s.is_attached());
    assert_eq!(s.step(AttachEvent::ExitFailed), AttachAction::Commit);
}

#[test]
fn entry_failure_aborts_with_nothing_to_release() {
    let mut s = AttachSession::new();
    assert_eq!(s.step(AttachEvent::EntryFailed), AttachAction::Abort(HookStage::Entry));
    assert_eq!(s.step(AttachEvent::ExitAttached), AttachAction::Abort(HookStage::Entry));
    assert!(!s.is_attached());
}

fn target(name: &str, offset: u64) -> FunctionInfo {
    FunctionInfo {
        binary_path: "/bin/app".to_string(),
        demangled_name: name.to_string(),
        mangled_name: name.to_string(),
        offset,
    }
}

#[test]
fn one_failed_attach_leaves_the_other_running() {
    let mut m = Manager::new();
    m.register_probe(target("bad", 0xdead_beef));
    m.register_probe(target("good", 0x1000));
    m.record_attach(0, Err(HookStage::Entry));
    m.record_attach(1, Ok(()));
    assert_eq!(m.attach_failures(), vec![0]);
    assert_eq!(m.running(), vec![1]);
    assert_eq!(m.status(0), ProbeStatus::AttachFailed(HookStage::Entry));
    assert_eq!(m.status(1), ProbeStatus::Running);
    assert_eq!(m.target(1).demangled_name, "good");
    assert!(!m.all_ended());
    m.record_end(1, false);
    assert!(m.all_ended());
    assert!(m.running().is_empty());
}

#[test]
fn manager_from_targets_starts_pending() {
    let m = Manager::with_targets(vec![target("a", 1), target("b", 2), target("c", 3)]);
    assert_eq!(m.len(), 3);
    for i in 0..3 {
        assert_eq!(m.status(i), ProbeStatus::Pending);
    }
    assert!(m.attach_failures().is_empty());
    assert!(!m.all_ended());
    assert!(Manager::new().all_ended());
}

fn event(start: u64) -> BPFEvent {
    BPFEvent { timestamp_start: start, timestamp_end: start + 1, pid: 7, comm: *b"job\0\0\0\0\0\0\0\0\0\0\0\0\0" }
}

#[test]
fn controller_drains_until_closed() {
    let mut c = Controller::new(ClockSample { monotonic_ns: 0, wall_ns: 1_000 });
    assert_eq!(c.state(), ControllerState::Idle);
    match c.step(ChannelEvent::Received(event(5))) {
        ControllerAction::Export(s) => {
            assert_eq!(s.start_wall_ns, 1_005);
            assert_eq!(s.name, "bpf_event: job");
        }
        _ => panic!("a received event is exported"),
    }
    assert_eq!(c.state(), ControllerState::Draining);
    assert!(matches!(c.step(ChannelEvent::Empty), ControllerAction::Wait));
    assert_eq!(c.state(), ControllerState::Idle);
    assert!(matches!(c.step(ChannelEvent::Disconnected), ControllerAction::Stop));
    assert_eq!(c.state(), ControllerState::Closed);
    assert!(matches!(c.step(ChannelEvent::Received(event(6))), ControllerAction::Stop));
    assert_eq!(c.state(), ControllerState::Closed);
}

#[test]
fn controller_stops_on_cancel() {
    let mut c = Controller::new(ClockSample { monotonic_ns: 0, wall_ns: 0 });
    assert!(matches!(c.step(ChannelEvent::Cancelled), ControllerAction::Stop));
    assert_eq!(c.state(), ControllerState::Closed);
}

#[test]
fn full_channel_holds_back_without_loss() {
    let (tx, mut rx) = tokio::sync::mpsc::channel::<BPFEvent>(EVENT_CHANNEL_CAPACITY);
    for i in 0..EVENT_CHANNEL_CAPACITY {
        assert!(tx.try_send(event(i as u64)).is_ok());
    }
    let extra = event(EVENT_CHANNEL_CAPACITY as u64);
    match tx.try_send(extra) {
        Err(tokio::sync::mpsc::error::TrySendError::Full(back)) => {
            assert_eq!(back.timestamp_start, EVENT_CHANNEL_CAPACITY as u64)
        }
        _ => panic!("the channel must refuse, not drop, the extra event"),
    }
    let first = rx.try_recv().unwrap();
    assert_eq!(first.timestamp_start, 0);
    assert!(tx.try_send(extra).is_ok());
    let mut seen = vec![first.timestamp_start];
    while let Ok(e) = rx.try_recv() {
        seen.push(e.timestamp_start);
    }
    let expected: Vec<u64> = (0..=EVENT_CHANNEL_CAPACITY as u64).collect();
    assert_eq!(seen, expected);
}
