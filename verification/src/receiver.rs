//! The decisions of the receiving thread, as a state machine.
//!
//! The thread opens the SDR, configures it, and then reads the device in
//! batches: before each batch it checks the shutdown flag, and within a
//! batch it reads full buffers and sends each to the processing thread,
//! at most `BATCH_READS` times, stopping the batch early at the first
//! short or failed read. When the flag is set it closes the device.
//!
//! The caller performs each `ReceiverAction` (all of them are I/O) and
//! feeds back what came of it as a `ReceiverEvent`.
use vstd::prelude::*;

verus! {

/// Frequency of the transmitter in Hz.
pub const FREQUENCY: u32 = 914_975_000;

/// Sample frequency of the RTL-SDR in Hz.
pub const SAMPLE_FREQUENCY: u32 = 2_048_000;

/// Bandwidth setpoint of the SDR in Hz.
pub const BANDWIDTH: u32 = 80_000;

/// The largest number of buffers read and sent between two checks of the
/// shutdown flag.
pub const BATCH_READS: u32 = 24;

/// What came of one synchronous read into a buffer.
#[derive(Clone, Copy, Debug, PartialEq, Eq, Structural)]
pub enum ReadOutcome {
    /// The whole buffer was filled.
    Full,
    /// Fewer bytes than the buffer holds were read; samples were dropped.
    Short,
    /// The read reported an error.
    Failed,
}

/// Why the receiving thread gives up by panicking.
#[derive(Clone, Copy, Debug, PartialEq, Eq, Structural)]
pub enum AbortReason {
    /// No device was opened, yet the shutdown flag was found clear.
    NoDevice,
    /// Configuring the device failed.
    ConfigurationFailed,
    /// The processing thread's end of the channel is gone.
    ChannelClosed,
    /// Closing the device failed.
    CloseFailed,
}

/// Where the receiving thread stands.
#[derive(Clone, Copy, Debug, PartialEq, Eq, Structural)]
pub enum ReceiverState {
    /// Waiting for the first device to be opened.
    Opening,
    /// No device could be opened: the shutdown flag is being set.
    SignallingShutdown,
    /// Checking the shutdown flag right after opening.
    CheckingAfterOpen { device_open: bool },
    /// Configuring the opened device.
    Configuring,
    /// Checking the shutdown flag before a batch of reads.
    Polling,
    /// Reading a buffer; `sent` buffers were sent since the last check.
    Reading { sent: u32 },
    /// Sending a full buffer; `sent` buffers were sent before it since the
    /// last check.
    Sending { sent: u32 },
    /// Closing the device after the shutdown flag was found set.
    Closing,
    /// Done: the thread returns.
    Stopped,
    /// Done: the thread panics.
    Aborted { reason: AbortReason },
}

/// What the receiving thread must do next.
#[derive(Clone, Copy, Debug, PartialEq, Eq, Structural)]
pub enum ReceiverAction {
    /// Open the first available device.
    Open,
    /// Report that no device was found and set the shutdown flag.
    SignalShutdown,
    /// Read the shutdown flag.
    CheckTerminated,
    /// Tune and configure the device.
    Configure,
    /// Read one buffer from the device.
    Read,
    /// Send the buffer just read to the processing thread.
    Send,
    /// Close the device.
    Close,
    /// Return from the thread.
    Return,
    /// Panic, for the given reason.
    Abort { reason: AbortReason },
}

/// What came of the last action.
#[derive(Clone, Copy, Debug, PartialEq, Eq, Structural)]
pub enum ReceiverEvent {
    /// Whether a device was opened.
    Opened { ok: bool },
    /// The shutdown flag was set.
    ShutdownSignalled,
    /// The value the shutdown flag was read as.
    Terminated { flag: bool },
    /// Whether configuring the device succeeded.
    Configured { ok: bool },
    /// What came of a read.
    ReadDone { outcome: ReadOutcome },
    /// Whether the buffer was handed to the processing thread.
    Sent { ok: bool },
    /// Whether the device was closed.
    Closed { ok: bool },
}

/// The action that a state waits on.
pub open spec fn pending(s: ReceiverState) -> ReceiverAction {
    match s {
        ReceiverState::Opening => ReceiverAction::Open,
        ReceiverState::SignallingShutdown => ReceiverAction::SignalShutdown,
        ReceiverState::CheckingAfterOpen { .. } => ReceiverAction::CheckTerminated,
        ReceiverState::Configuring => ReceiverAction::Configure,
        ReceiverState::Polling => ReceiverAction::CheckTerminated,
        ReceiverState::Reading { .. } => ReceiverAction::Read,
        ReceiverState::Sending { .. } => ReceiverAction::Send,
        ReceiverState::Closing => ReceiverAction::Close,
        ReceiverState::Stopped => ReceiverAction::Return,
        ReceiverState::Aborted { reason } => ReceiverAction::Abort { reason },
    }
}

/// The transition relation. An event that does not answer the state's
/// pending action leaves the state as it is.
pub open spec fn next_state(s: ReceiverState, e: ReceiverEvent) -> ReceiverState {
    match (s, e) {
        (ReceiverState::Opening, ReceiverEvent::Opened { ok }) => if ok {
            ReceiverState::CheckingAfterOpen { device_open: true }
        } else {
            ReceiverState::SignallingShutdown
        },
        (ReceiverState::SignallingShutdown, ReceiverEvent::ShutdownSignalled) => {
            ReceiverState::CheckingAfterOpen { device_open: false }
        },
        (ReceiverState::CheckingAfterOpen { device_open }, ReceiverEvent::Terminated { flag }) => {
            if flag {
                ReceiverState::Stopped
            } else if device_open {
                ReceiverState::Configuring
            } else {
                ReceiverState::Aborted { reason: AbortReason::NoDevice }
            }
        },
        (ReceiverState::Configuring, ReceiverEvent::Configured { ok }) => if ok {
            ReceiverState::Polling
        } else {
            ReceiverState::Aborted { reason: AbortReason::ConfigurationFailed }
        },
        (ReceiverState::Polling, ReceiverEvent::Terminated { flag }) => if flag {
            ReceiverState::Closing
        } else {
            ReceiverState::Reading { sent: 0 }
        },
        (ReceiverState::Reading { sent }, ReceiverEvent::ReadDone { outcome }) => {
            if outcome == ReadOutcome::Full {
                ReceiverState::Sending { sent }
            } else {
                ReceiverState::Polling
            }
        },
        (ReceiverState::Sending { sent }, ReceiverEvent::Sent { ok }) => if !ok {
            ReceiverState::Aborted { reason: AbortReason::ChannelClosed }
        } else if sent + 1 < BATCH_READS {
            ReceiverState::Reading { sent: (sent + 1) as u32 }
        } else {
            ReceiverState::Polling
        },
        (ReceiverState::Closing, ReceiverEvent::Closed { ok }) => if ok {
            ReceiverState::Stopped
        } else {
            ReceiverState::Aborted { reason: AbortReason::CloseFailed }
        },
        _ => s,
    }
}

/// The state the receiving thread starts in, and its first action.
pub fn receiver_start() -> (r: (ReceiverState, ReceiverAction))
    ensures
        r.0 == ReceiverState::Opening,
        r.1 == pending(r.0),
{
    (ReceiverState::Opening, ReceiverAction::Open)
}

/// The action that `state` waits on.
pub fn pending_action(state: ReceiverState) -> (a: ReceiverAction)
    ensures
        a == pending(state),
{
    match state {
        ReceiverState::Opening => ReceiverAction::Open,
        ReceiverState::SignallingShutdown => ReceiverAction::SignalShutdown,
        ReceiverState::CheckingAfterOpen { .. } => ReceiverAction::CheckTerminated,
        ReceiverState::Configuring => ReceiverAction::Configure,
        ReceiverState::Polling => ReceiverAction::CheckTerminated,
        ReceiverState::Reading { .. } => ReceiverAction::Read,
        ReceiverState::Sending { .. } => ReceiverAction::Send,
        ReceiverState::Closing => ReceiverAction::Close,
        ReceiverState::Stopped => ReceiverAction::Return,
        ReceiverState::Aborted { reason } => ReceiverAction::Abort { reason },
    }
}

/// One step of the receiving thread: given where it stands and what came
/// of its last action, the state it moves to and the action to perform.
pub fn receiver_step(state: ReceiverState, event: ReceiverEvent) -> (r: (
    ReceiverState,
    ReceiverAction,
))
    ensures
        r.0 == next_state(state, event),
        r.1 == pending(r.0),
{
    let next = match (state, event) {
        (ReceiverState::Opening, ReceiverEvent::Opened { ok }) => if ok {
            ReceiverState::CheckingAfterOpen { device_open: true }
        } else {
            ReceiverState::SignallingShutdown
        },
        (ReceiverState::SignallingShutdown, ReceiverEvent::ShutdownSignalled) => {
            ReceiverState::CheckingAfterOpen { device_open: false }
        },
        (ReceiverState::CheckingAfterOpen { device_open }, ReceiverEvent::Terminated { flag }) => {
            if flag {
                ReceiverState::Stopped
            } else if device_open {
                ReceiverState::Configuring
            } else {
                ReceiverState::Aborted { reason: AbortReason::NoDevice }
            }
        },
        (ReceiverState::Configuring, ReceiverEvent::Configured { ok }) => if ok {
            ReceiverState::Polling
        } else {
            ReceiverState::Aborted { reason: AbortReason::ConfigurationFailed }
        },
        (ReceiverState::Polling, ReceiverEvent::Terminated { flag }) => if flag {
            ReceiverState::Closing
        } else {
            ReceiverState::Reading { sent: 0 }
        },
        (ReceiverState::Reading { sent }, ReceiverEvent::ReadDone { outcome }) => {
            match outcome {
                ReadOutcome::Full => ReceiverState::Sending { sent },
                _ => ReceiverState::Polling,
            }
        },
        (ReceiverState::Sending { sent }, ReceiverEvent::Sent { ok }) => if !ok {
            ReceiverState::Aborted { reason: AbortReason::ChannelClosed }
        } else if sent < BATCH_READS - 1 {
            ReceiverState::Reading { sent: sent + 1 }
        } else {
            ReceiverState::Polling
        },
        (ReceiverState::Closing, ReceiverEvent::Closed { ok }) => if ok {
            ReceiverState::Stopped
        } else {
            ReceiverState::Aborted { reason: AbortReason::CloseFailed }
        },
        _ => state,
    };
    (next, pending_action(next))
}

/// Classifies the result of a synchronous read into a buffer of
/// `buffer_len` bytes: an error, fewer bytes than the buffer holds, or a
/// full buffer.
pub fn classify_read(result: Result<usize, ()>, buffer_len: usize) -> (o: ReadOutcome)
    ensures
        o == (match result {
            Err(_) => ReadOutcome::Failed,
            Ok(n) => if n < buffer_len {
                ReadOutcome::Short
            } else {
                ReadOutcome::Full
            },
        }),
{
    match result {
        Ok(n) => if n < buffer_len {
            ReadOutcome::Short
        } else {
            ReadOutcome::Full
        },
        Err(_) => ReadOutcome::Failed,
    }
}

/// Allocates a zeroed sample buffer of `len` bytes.
pub fn alloc_buf(len: usize) -> (buf: Vec<u8>)
    ensures
        buf@ == Seq::new(len as nat, |i: int| 0u8),
{
    let buf = vec![0u8; len];
    assert(buf@ == Seq::new(len as nat, |i: int| 0u8));
    buf
}

/// The receiver's invariant: within a batch, fewer than `BATCH_READS`
/// buffers have been sent since the last check of the shutdown flag.
pub open spec fn well_formed(s: ReceiverState) -> bool {
    match s {
        ReceiverState::Reading { sent } => sent < BATCH_READS,
        ReceiverState::Sending { sent } => sent < BATCH_READS,
        _ => true,
    }
}

/// The state reached from `s` after the events `evs`, in order.
pub open spec fn run(s: ReceiverState, evs: Seq<ReceiverEvent>) -> ReceiverState
    decreases evs.len(),
{
    if evs.len() == 0 {
        s
    } else {
        run(next_state(s, evs[0]), evs.drop_first())
    }
}

/// How many buffers are handed to the processing thread when the events
/// `evs` are fed to the receiver from state `s`, counting until it comes
/// back to `Polling` (its next check of the shutdown flag).
pub open spec fn sends_until_poll(s: ReceiverState, evs: Seq<ReceiverEvent>) -> nat
    decreases evs.len(),
{
    if evs.len() == 0 || s == ReceiverState::Polling {
        0
    } else {
        let now: nat = if s is Sending && evs[0] == (ReceiverEvent::Sent { ok: true }) {
            1
        } else {
            0
        };
        now + sends_until_poll(next_state(s, evs[0]), evs.drop_first())
    }
}

/// Whether the receiver has seen the shutdown flag set (or given up) and
/// only winds down from `s`.
pub open spec fn winding_down(s: ReceiverState) -> bool {
    s is Closing || s is Stopped || s is Aborted
}

spec fn send_budget(s: ReceiverState) -> int {
    match s {
        ReceiverState::Reading { sent } => BATCH_READS - sent,
        ReceiverState::Sending { sent } => BATCH_READS - sent,
        _ => 0,
    }
}

/// The receiver starts well formed, and every step keeps it so.
pub proof fn lemma_well_formed_preserved(s: ReceiverState, e: ReceiverEvent)
    ensures
        well_formed(ReceiverState::Opening),
        well_formed(s) ==> well_formed(next_state(s, e)),
{
}

proof fn lemma_sends_within_budget(s: ReceiverState, evs: Seq<ReceiverEvent>)
    requires
        well_formed(s),
    ensures
        sends_until_poll(s, evs) <= send_budget(s),
    decreases evs.len(),
{
    if evs.len() > 0 && s != ReceiverState::Polling {
        let n = next_state(s, evs[0]);
        lemma_well_formed_preserved(s, evs[0]);
        lemma_sends_within_budget(n, evs.drop_first());
        if n == ReceiverState::Polling {
            assert(sends_until_poll(n, evs.drop_first()) == 0);
        }
    }
}

/// Between two checks of the shutdown flag the receiver hands at most
/// `BATCH_READS` buffers to the processing thread, whatever comes of its
/// reads and sends.
pub proof fn lemma_batch_bounded(evs: Seq<ReceiverEvent>)
    ensures
        sends_until_poll(
            next_state(ReceiverState::Polling, ReceiverEvent::Terminated { flag: false }),
            evs,
        ) <= BATCH_READS,
{
    lemma_sends_within_budget(ReceiverState::Reading { sent: 0 }, evs);
}

/// Once winding down, the receiver stays winding down, whatever events
/// follow.
pub proof fn lemma_winding_down_is_final(s: ReceiverState, evs: Seq<ReceiverEvent>)
    requires
        winding_down(s),
    ensures
        winding_down(run(s, evs)),
    decreases evs.len(),
{
    if evs.len() > 0 {
        lemma_winding_down_is_final(next_state(s, evs[0]), evs.drop_first());
    }
}

/// Once the shutdown flag has been read as set, the receiver never reads
/// the device or sends a buffer again: whatever events follow, the pending
/// action is `Close`, `Return` or `Abort`.
pub proof fn lemma_no_reads_after_shutdown(s: ReceiverState, evs: Seq<ReceiverEvent>)
    requires
        s is Polling || s is CheckingAfterOpen,
    ensures
        winding_down(run(next_state(s, ReceiverEvent::Terminated { flag: true }), evs)),
        pending(run(next_state(s, ReceiverEvent::Terminated { flag: true }), evs))
            != ReceiverAction::Read,
        pending(run(next_state(s, ReceiverEvent::Terminated { flag: true }), evs))
            != ReceiverAction::Send,
{
    lemma_winding_down_is_final(next_state(s, ReceiverEvent::Terminated { flag: true }), evs);
}

/// A new send starts only right after a read that filled the buffer.
pub proof fn lemma_send_follows_full_read(s: ReceiverState, e: ReceiverEvent)
    requires
        next_state(s, e) is Sending,
        next_state(s, e) != s,
    ensures
        s is Reading,
        e == (ReceiverEvent::ReadDone { outcome: ReadOutcome::Full }),
{
}

/// The device is configured only after it was opened and the shutdown
/// flag was then found clear.
pub proof fn lemma_configure_after_open(s: ReceiverState, e: ReceiverEvent)
    requires
        next_state(s, e) is Configuring,
        next_state(s, e) != s,
    ensures
        s == (ReceiverState::CheckingAfterOpen { device_open: true }),
        e == (ReceiverEvent::Terminated { flag: false }),
{
}

/// Whether `s` comes before the device is configured.
pub open spec fn before_configuration(s: ReceiverState) -> bool {
    s is Opening || s is SignallingShutdown || s is CheckingAfterOpen || s is Configuring
}

/// The device is read, or a buffer sent, only after a configuration that
/// succeeded (configuring resets the device's endpoint, which must happen
/// before the first read): from any state before configuration, a run
/// that reaches `Reading` or `Sending` has passed a `Configured { ok: true }`.
pub proof fn lemma_reads_follow_configuration(s: ReceiverState, evs: Seq<ReceiverEvent>)
    requires
        before_configuration(s),
        run(s, evs) is Reading || run(s, evs) is Sending,
    ensures
        evs.contains(ReceiverEvent::Configured { ok: true }),
    decreases evs.len(),
{
    if evs.len() == 0 {
    } else {
        let n = next_state(s, evs[0]);
        if evs[0] == (ReceiverEvent::Configured { ok: true }) {
            assert(evs[0] == evs[0]);
        } else {
            assert(before_configuration(n) || winding_down(n));
            if winding_down(n) {
                lemma_winding_down_is_final(n, evs.drop_first());
            } else {
                lemma_reads_follow_configuration(n, evs.drop_first());
                let k = choose|k: int|
                    0 <= k < evs.drop_first().len() && evs.drop_first()[k] == (
                    ReceiverEvent::Configured { ok: true });
                assert(evs[k + 1] == (ReceiverEvent::Configured { ok: true }));
            }
        }
    }
}

/// A read that does not fill the buffer, short or failed, ends the batch
/// whatever the batch's count: the receiver goes back to checking the
/// shutdown flag, and sends nothing more in that batch, whatever follows.
pub proof fn lemma_incomplete_read_ends_batch(
    sent: u32,
    outcome: ReadOutcome,
    evs: Seq<ReceiverEvent>,
)
    requires
        outcome != ReadOutcome::Full,
        evs.len() > 0,
        evs[0] == (ReceiverEvent::ReadDone { outcome }),
    ensures
        next_state(ReceiverState::Reading { sent }, ReceiverEvent::ReadDone { outcome })
            == ReceiverState::Polling,
        pending(next_state(ReceiverState::Reading { sent }, ReceiverEvent::ReadDone { outcome }))
            == ReceiverAction::CheckTerminated,
        sends_until_poll(ReceiverState::Reading { sent }, evs) == 0,
{
    let rest = evs.drop_first();
    assert(sends_until_poll(ReceiverState::Polling, rest) == 0);
}

/// A read that fills the buffer is always followed by sending that buffer,
/// and the batch's count is unchanged until the send is done.
pub proof fn lemma_full_read_is_sent(sent: u32)
    ensures
        next_state(
            ReceiverState::Reading { sent },
            ReceiverEvent::ReadDone { outcome: ReadOutcome::Full },
        ) == (ReceiverState::Sending { sent }),
        pending(
            next_state(
                ReceiverState::Reading { sent },
                ReceiverEvent::ReadDone { outcome: ReadOutcome::Full },
            ),
        ) == ReceiverAction::Send,
{
}

/// After a buffer is sent, the receiver reads again, with one more buffer
/// counted in the batch, exactly when fewer than `BATCH_READS` buffers have
/// been sent in the batch; otherwise it checks the shutdown flag. A send
/// that fails makes it give up.
pub proof fn lemma_send_continues_batch(sent: u32, ok: bool)
    requires
        sent < BATCH_READS,
    ensures
        ok && sent + 1 < BATCH_READS ==> next_state(
            ReceiverState::Sending { sent },
            ReceiverEvent::Sent { ok },
        ) == (ReceiverState::Reading { sent: (sent + 1) as u32 }),
        ok && sent + 1 == BATCH_READS ==> next_state(
            ReceiverState::Sending { sent },
            ReceiverEvent::Sent { ok },
        ) == ReceiverState::Polling,
        !ok ==> next_state(ReceiverState::Sending { sent }, ReceiverEvent::Sent { ok }) == (
        ReceiverState::Aborted { reason: AbortReason::ChannelClosed }),
{
}

/// Reading the shutdown flag before a batch: set, the receiver closes the
/// device; clear, it starts a new batch with nothing sent yet and reads.
/// Right after opening, a set flag makes it return at once.
pub proof fn lemma_flag_decides(flag: bool, device_open: bool)
    ensures
        next_state(ReceiverState::Polling, ReceiverEvent::Terminated { flag }) == (if flag {
            ReceiverState::Closing
        } else {
            ReceiverState::Reading { sent: 0 }
        }),
        pending(next_state(ReceiverState::Polling, ReceiverEvent::Terminated { flag })) == (if flag {
            ReceiverAction::Close
        } else {
            ReceiverAction::Read
        }),
        flag ==> next_state(
            ReceiverState::CheckingAfterOpen { device_open },
            ReceiverEvent::Terminated { flag },
        ) == ReceiverState::Stopped,
{
}

/// Opening: when a device opens, the receiver next checks the shutdown
/// flag; when none does, it first sets the flag, then checks it.
pub proof fn lemma_open_outcome(ok: bool)
    ensures
        pending(next_state(ReceiverState::Opening, ReceiverEvent::Opened { ok })) == (if ok {
            ReceiverAction::CheckTerminated
        } else {
            ReceiverAction::SignalShutdown
        }),
        !ok ==> pending(
            next_state(
                next_state(ReceiverState::Opening, ReceiverEvent::Opened { ok }),
                ReceiverEvent::ShutdownSignalled,
            ),
        ) == ReceiverAction::CheckTerminated,
{
}

/// Configuring and closing: success moves on (to the first check of the
/// shutdown flag, or to returning), failure gives up with its reason.
pub proof fn lemma_configure_and_close_outcomes(ok: bool)
    ensures
        next_state(ReceiverState::Configuring, ReceiverEvent::Configured { ok }) == (if ok {
            ReceiverState::Polling
        } else {
            ReceiverState::Aborted { reason: AbortReason::ConfigurationFailed }
        }),
        next_state(ReceiverState::Closing, ReceiverEvent::Closed { ok }) == (if ok {
            ReceiverState::Stopped
        } else {
            ReceiverState::Aborted { reason: AbortReason::CloseFailed }
        }),
{
}

/// What each state asks the thread to do: configure while configuring,
/// return once stopped, and panic for the recorded reason once aborted.
pub proof fn lemma_final_and_configure_actions(reason: AbortReason)
    ensures
        pending(ReceiverState::Configuring) == ReceiverAction::Configure,
        pending(ReceiverState::Stopped) == ReceiverAction::Return,
        pending(ReceiverState::Aborted { reason }) == (ReceiverAction::Abort { reason }),
{
}

/// An event that does not answer the pending action changes nothing: the
/// state stays and its action is asked for again.
pub proof fn lemma_unexpected_event_ignored(s: ReceiverState, e: ReceiverEvent)
    requires
        !(s is Opening && e is Opened),
        !(s is SignallingShutdown && e is ShutdownSignalled),
        !(s is CheckingAfterOpen && e is Terminated),
        !(s is Configuring && e is Configured),
        !(s is Polling && e is Terminated),
        !(s is Reading && e is ReadDone),
        !(s is Sending && e is Sent),
        !(s is Closing && e is Closed),
    ensures
        next_state(s, e) == s,
{
}

} // verus!
