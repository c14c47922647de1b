use dsppipeline::receiver::{
    alloc_buf, classify_read, pending_action, receiver_start, receiver_step, AbortReason,
    ReadOutcome, ReceiverAction, ReceiverEvent, ReceiverState, BATCH_READS,
};

fn step(s: ReceiverState, e: ReceiverEvent) -> (ReceiverState, ReceiverAction) {
    receiver_step(s, e)
}

/// Drives the machine from `Polling` into a batch and returns the state
/// and action after `full_reads` full reads, each sent successfully.
fn run_batch(full_reads: u32) -> (ReceiverState, ReceiverAction) {
    let (mut s, mut a) = step(ReceiverState::Polling, ReceiverEvent::Terminated { flag: false });
    for _ in 0..full_reads {
        assert_eq!(a, ReceiverAction::Read);
        let r = step(s, ReceiverEvent::ReadDone { outcome: ReadOutcome::Full });
        assert_eq!(r.1, ReceiverAction::Send);
        let r = step(r.0, ReceiverEvent::Sent { ok: true });
        s = r.0;
        a = r.1;
    }
    (s, a)
}

#[test]
fn start_opens_the_device() {
    assert_eq!(receiver_start(), (ReceiverState::Opening, ReceiverAction::Open));
}

#[test]
fn open_then_configure_then_poll() {
    let (s, a) = receiver_start();
    let (s, a2) = step(s, ReceiverEvent::Opened { ok: true });
    assert_eq!(a, ReceiverAction::Open);
    assert_eq!(a2, ReceiverAction::CheckTerminated);
    let (s, a) = step(s, ReceiverEvent::Terminated { flag: false });
    assert_eq!((s, a), (ReceiverState::Configuring, ReceiverAction::Configure));
    let (s, a) = step(s, ReceiverEvent::Configured { ok: true });
    assert_eq!((s, a), (ReceiverState::Polling, ReceiverAction::CheckTerminated));
}

#[test]
fn missing_device_sets_the_flag_then_returns() {
    let (s, a) = step(ReceiverState::Opening, ReceiverEvent::Opened { ok: false });
    assert_eq!(a, ReceiverAction::SignalShutdown);
    let (s, a) = step(s, ReceiverEvent::ShutdownSignalled);
    assert_eq!(a, ReceiverAction::CheckTerminated);
    let (s, a) = step(s, ReceiverEvent::Terminated { flag: true });
    assert_eq!((s, a), (ReceiverState::Stopped, ReceiverAction::Return));
}

#[test]
fn missing_device_with_clear_flag_aborts() {
    let s = ReceiverState::CheckingAfterOpen { device_open: false };
    let (_, a) = step(s, ReceiverEvent::Terminated { flag: false });
    assert_eq!(a, ReceiverAction::Abort { reason: AbortReason::NoDevice });
}

#[test]
fn shutdown_right_after_open_returns_without_closing() {
    let s = ReceiverState::CheckingAfterOpen { device_open: true };
    assert_eq!(
        step(s, ReceiverEvent::Terminated { flag: true }),
        (ReceiverState::Stopped, ReceiverAction::Return)
    );
}

#[test]
fn configuration_failure_aborts() {
    let (_, a) = step(ReceiverState::Configuring, ReceiverEvent::Configured { ok: false });
    assert_eq!(a, ReceiverAction::Abort { reason: AbortReason::ConfigurationFailed });
}

#[test]
fn a_batch_holds_at_most_24_sends() {
    assert_eq!(BATCH_READS, 24);
    let (s, a) = run_batch(23);
    assert_eq!((s, a), (ReceiverState::Reading { sent: 23 }, ReceiverAction::Read));
    let (s, a) = run_batch(24);
    assert_eq!((s, a), (ReceiverState::Polling, ReceiverAction::CheckTerminated));
}

#[test]
fn short_or_failed_read_ends_the_batch() {
    let (s, _) = run_batch(5);
    let r = step(s, ReceiverEvent::ReadDone { outcome: ReadOutcome::Short });
    assert_eq!(r, (ReceiverState::Polling, ReceiverAction::CheckTerminated));
    let r = step(s, ReceiverEvent::ReadDone { outcome: ReadOutcome::Failed });
    assert_eq!(r, (ReceiverState::Polling, ReceiverAction::CheckTerminated));
}

#[test]
fn failed_send_aborts() {
    let (s, _) = run_batch(2);
    let (s, _) = step(s, ReceiverEvent::ReadDone { outcome: ReadOutcome::Full });
    let (_, a) = step(s, ReceiverEvent::Sent { ok: false });
    assert_eq!(a, ReceiverAction::Abort { reason: AbortReason::ChannelClosed });
}

#[test]
fn shutdown_flag_closes_the_device() {
    let (s, a) = step(ReceiverState::Polling, ReceiverEvent::Terminated { flag: true });
    assert_eq!((s, a), (ReceiverState::Closing, ReceiverAction::Close));
    assert_eq!(
        step(s, ReceiverEvent::Closed { ok: true }),
        (ReceiverState::Stopped, ReceiverAction::Return)
    );
    assert_eq!(
        step(s, ReceiverEvent::Closed { ok: false }).1,
        ReceiverAction::Abort { reason: AbortReason::CloseFailed }
    );
}

#[test]
fn no_reads_after_shutdown_whatever_follows() {
    let (mut s, _) = step(ReceiverState::Polling, ReceiverEvent::Terminated { flag: true });
    let events = [
        ReceiverEvent::Terminated { flag: false },
        ReceiverEvent::ReadDone { outcome: ReadOutcome::Full },
        ReceiverEvent::Sent { ok: true },
        ReceiverEvent::Opened { ok: true },
        ReceiverEvent::Configured { ok: true },
        ReceiverEvent::Closed { ok: true },
        ReceiverEvent::Terminated { flag: false },
    ];
    for e in events {
        let (n, a) = step(s, e);
        assert!(a != ReceiverAction::Read && a != ReceiverAction::Send);
        s = n;
    }
    assert_eq!(s, ReceiverState::Stopped);
}

#[test]
fn unexpected_event_keeps_the_state() {
    let s = ReceiverState::Reading { sent: 3 };
    assert_eq!(step(s, ReceiverEvent::Configured { ok: true }), (s, ReceiverAction::Read));
    assert_eq!(pending_action(s), ReceiverAction::Read);
}

#[test]
fn classify_read_results() {
    assert_eq!(classify_read(Ok(262144), 262144), ReadOutcome::Full);
    assert_eq!(classify_read(Ok(100), 262144), ReadOutcome::Short);
    assert_eq!(classify_read(Ok(0), 262144), ReadOutcome::Short);
    assert_eq!(classify_read(Err(()), 262144), ReadOutcome::Failed);
}

#[test]
fn alloc_buf_is_zeroed() {
    let b = alloc_buf(262144);
    assert_eq!(b.len(), 262144);
    assert!(b.iter().all(|&x| x == 0));
    assert!(alloc_buf(0).is_empty());
}

#[test]
fn no_reads_without_a_successful_configuration() {
    let (mut s, mut a) = receiver_start();
    let events = [
        ReceiverEvent::Opened { ok: true },
        ReceiverEvent::Terminated { flag: false },
        ReceiverEvent::Configured { ok: false },
        ReceiverEvent::Terminated { flag: false },
        ReceiverEvent::ReadDone { outcome: ReadOutcome::Full },
        ReceiverEvent::Sent { ok: true },
    ];
    for e in events {
        let r = step(s, e);
        s = r.0;
        a = r.1;
        assert!(a != ReceiverAction::Read && a != ReceiverAction::Send);
    }
    assert_eq!(a, ReceiverAction::Abort { reason: AbortReason::ConfigurationFailed });
}
