//! The engine's run state and its decisions: when the capture loop reports silence, when the
//! output thread sends, and the colour part of deciding whether a new frame is worth sending.
use vstd::prelude::*;
use crate::color::Rgbw;

verus! {

/// Where the engine is in its life.
#[derive(Debug, Clone, Copy, PartialEq, Eq, Structural)]
pub enum EngineState {
    Stopped,
    Starting,
    Running,
    Failed,
}

/// Whether one channel moved by at least the dead band.
pub open spec fn channel_moved(next: u8, prev: u8, deadband: i16) -> bool {
    let d: int = next as int - prev as int;
    (if d < 0 {
        -d
    } else {
        d
    }) >= deadband as int
}

/// Whether a colour moved far enough from the last one sent: some channel by at least the dead
/// band.
pub open spec fn color_moved(next: Rgbw, prev: Rgbw, deadband: i16) -> bool {
    ||| channel_moved(next.r, prev.r, deadband)
    ||| channel_moved(next.g, prev.g, deadband)
    ||| channel_moved(next.b, prev.b, deadband)
    ||| channel_moved(next.w, prev.w, deadband)
}

/// Whether one channel moved by at least the dead band.
fn moved(next: u8, prev: u8, deadband: i16) -> (b: bool)
    ensures
        b == channel_moved(next, prev, deadband),
{
    let d: i16 = next as i16 - prev as i16;
    let a: i16 = if d < 0 {
        -d
    } else {
        d
    };
    a >= deadband
}

/// Whether a colour moved far enough from the last one sent to be worth sending again.
pub fn rgbw_moved(next: Rgbw, prev: Rgbw, deadband: i16) -> (b: bool)
    ensures
        b == color_moved(next, prev, deadband),
{
    moved(next.r, prev.r, deadband) || moved(next.g, prev.g, deadband) || moved(next.b, prev.b, deadband) || moved(
        next.w,
        prev.w,
        deadband,
    )
}

/// Law: with a dead band of zero or less every colour counts as moved, even an unchanged one;
/// with one above 255 none ever does.
pub proof fn lemma_deadband_extremes(next: Rgbw, prev: Rgbw, deadband: i16)
    ensures
        deadband <= 0 ==> color_moved(next, prev, deadband),
        deadband > 255 ==> !color_moved(next, prev, deadband),
{
}

/// Whether a frame differs enough from the last one a device got to be sent: always when the
/// device got none yet, else when its colour moved by at least the dead band or its brightness moved
/// (`overall_moved`, measured by the caller).
pub open spec fn frame_differs(next: Rgbw, last: Option<Rgbw>, deadband: i16, overall_moved: bool) -> bool {
    match last {
        None => true,
        Some(prev) => color_moved(next, prev, deadband) || overall_moved,
    }
}

/// Law: with a dead band of one or more, a frame that repeats the last one sent, in colour and
/// brightness, is not sent again.
pub proof fn lemma_repeat_not_resent(c: Rgbw, deadband: i16)
    requires
        deadband >= 1,
    ensures
        !frame_differs(c, Some(c), deadband, false),
{
}

/// Whether a frame is worth sending to a device.
pub fn frame_changed(next: Rgbw, last: Option<Rgbw>, deadband: i16, overall_moved: bool) -> (b: bool)
    ensures
        b == frame_differs(next, last, deadband, overall_moved),
{
    match last {
        None => true,
        Some(prev) => rgbw_moved(next, prev, deadband) || overall_moved,
    }
}

/// The longest the capture loop waits for audio before it looks at the run flag again, in ms.
pub const SHUTDOWN_POLL_MS: u64 = 100;

/// How long audio may stay away before the lights dim: the configured time, at least 1 ms.
pub fn silence_timeout_ms(configured: u64) -> (ms: u64)
    ensures
        ms == if configured < 1 {
            1
        } else {
            configured
        },
{
    if configured < 1 {
        1
    } else {
        configured
    }
}

/// How long the capture loop waits for one chunk: the silence timeout, at most
/// `SHUTDOWN_POLL_MS`.
pub fn poll_interval_ms(timeout_ms: u64) -> (ms: u64)
    ensures
        ms == if timeout_ms < SHUTDOWN_POLL_MS {
            timeout_ms
        } else {
            SHUTDOWN_POLL_MS
        },
{
    if timeout_ms < SHUTDOWN_POLL_MS {
        timeout_ms
    } else {
        SHUTDOWN_POLL_MS
    }
}

/// What happened in the capture loop.
#[derive(Debug, Clone, Copy, PartialEq, Eq, Structural)]
pub enum PipelineEvent {
    /// The analysis produced a result; `has_signal` tells whether it heard something.
    Analysed { has_signal: bool },
    /// No chunk came within the poll interval; audio has been away for `quiet_ms`.
    Quiet { quiet_ms: u64 },
    /// The capture is gone.
    Disconnected,
}

/// What the capture loop does about it.
#[derive(Debug, Clone, Copy, PartialEq, Eq, Structural)]
pub enum PipelineAction {
    /// Hand the result to the output thread.
    SendSound,
    /// Tell the output thread to dim for silence.
    SendSilence,
    /// Keep waiting.
    Wait,
    /// Leave the loop.
    Stop,
}

/// The capture loop's decision: `dimmed` says whether silence was already reported. Every result
/// is sent, and one that hears something ends the silence; after `timeout_ms` without audio the
/// silence is reported once; a vanished capture ends the loop.
pub open spec fn step_of(dimmed: bool, event: PipelineEvent, timeout_ms: u64) -> (bool, PipelineAction) {
    match event {
        PipelineEvent::Analysed { has_signal } => (dimmed && !has_signal, PipelineAction::SendSound),
        PipelineEvent::Quiet { quiet_ms } => if !dimmed && quiet_ms >= timeout_ms {
            (true, PipelineAction::SendSilence)
        } else {
            (dimmed, PipelineAction::Wait)
        },
        PipelineEvent::Disconnected => (dimmed, PipelineAction::Stop),
    }
}

/// One decision of the capture loop: the new `dimmed` flag and what to do.
pub fn pipeline_step(dimmed: bool, event: PipelineEvent, timeout_ms: u64) -> (r: (bool, PipelineAction))
    ensures
        r == step_of(dimmed, event, timeout_ms),
{
    match event {
        PipelineEvent::Analysed { has_signal } => (dimmed && !has_signal, PipelineAction::SendSound),
        PipelineEvent::Quiet { quiet_ms } => {
            if !dimmed && quiet_ms >= timeout_ms {
                (true, PipelineAction::SendSilence)
            } else {
                (dimmed, PipelineAction::Wait)
            }
        },
        PipelineEvent::Disconnected => (dimmed, PipelineAction::Stop),
    }
}

/// The `dimmed` flag after a run of events.
pub open spec fn dimmed_after(dimmed: bool, events: Seq<PipelineEvent>, timeout_ms: u64) -> bool
    decreases events.len(),
{
    if events.len() == 0 {
        dimmed
    } else {
        step_of(dimmed_after(dimmed, events.drop_last(), timeout_ms), events.last(), timeout_ms).0
    }
}

/// The action taken on event `i` of a run.
pub open spec fn action_at(dimmed: bool, events: Seq<PipelineEvent>, timeout_ms: u64, i: int) -> PipelineAction {
    step_of(dimmed_after(dimmed, events.take(i), timeout_ms), events[i], timeout_ms).1
}

/// Lemma: the `dimmed` flag after a prefix that reported silence stays set until a result hears
/// something.
proof fn lemma_dimmed_until_signal(dimmed: bool, events: Seq<PipelineEvent>, timeout_ms: u64, i: int, j: int)
    requires
        0 <= i < j <= events.len(),
        dimmed_after(dimmed, events.take(i + 1), timeout_ms),
        forall|k: int| i < k < j ==> events[k] != (PipelineEvent::Analysed { has_signal: true }),
    ensures
        dimmed_after(dimmed, events.take(j), timeout_ms),
    decreases j - i,
{
    if j > i + 1 {
        lemma_dimmed_until_signal(dimmed, events, timeout_ms, i, j - 1);
        assert(events.take(j).drop_last() =~= events.take(j - 1));
        assert(events.take(j).last() == events[j - 1]);
    }
}

/// Law: silence is reported once per quiet stretch. Between any two reports of silence in a run
/// of events there is a result that heard something.
pub proof fn lemma_silence_once(dimmed: bool, events: Seq<PipelineEvent>, timeout_ms: u64, i: int, j: int)
    requires
        0 <= i < j < events.len(),
        action_at(dimmed, events, timeout_ms, i) == PipelineAction::SendSilence,
        action_at(dimmed, events, timeout_ms, j) == PipelineAction::SendSilence,
    ensures
        exists|k: int| i < k < j && #[trigger] events[k] == (PipelineEvent::Analysed { has_signal: true }),
{
    assert(events.take(i + 1).drop_last() =~= events.take(i));
    assert(events.take(i + 1).last() == events[i]);
    assert(dimmed_after(dimmed, events.take(i + 1), timeout_ms));
    if !exists|k: int| i < k < j && #[trigger] events[k] == (PipelineEvent::Analysed { has_signal: true }) {
        lemma_dimmed_until_signal(dimmed, events, timeout_ms, i, j);
    }
}

/// Whether the output thread may send again: at least `min_interval_ms` passed since it last did.
pub fn send_due(since_last_ms: u64, min_interval_ms: u64) -> (b: bool)
    ensures
        b == (since_last_ms >= min_interval_ms),
{
    since_last_ms >= min_interval_ms
}

/// The segments a device is driven with: what it reports, at least one.
pub fn runtime_segments(reported: usize) -> (n: usize)
    ensures
        n == if reported < 1 {
            1
        } else {
            reported
        },
{
    if reported < 1 {
        1
    } else {
        reported
    }
}

/// Whether a device gets one colour per segment rather than one for all: it has more than one
/// segment and there are segment colours to give.
pub fn applies_segments(reported: usize, colors: usize) -> (b: bool)
    ensures
        b == (reported > 1 && colors > 0),
{
    runtime_segments(reported) > 1 && colors > 0
}

/// How many segment colours the output thread keeps for a device: one per segment when it has
/// several, none otherwise.
pub fn gradient_len(reported: usize) -> (n: usize)
    ensures
        n == if reported > 1 {
            reported
        } else {
            0
        },
{
    let s = runtime_segments(reported);
    if s > 1 {
        s
    } else {
        0
    }
}

/// Where the engine's run is when it is asked to start.
#[derive(Debug, Clone, Copy, PartialEq, Eq, Structural)]
pub enum RunSlot {
    /// No run was started, or the last one was stopped.
    Empty,
    /// A run is going.
    Active,
    /// A run ended by itself and was not collected yet.
    Finished,
}

/// What starting the engine does.
#[derive(Debug, Clone, Copy, PartialEq, Eq, Structural)]
pub enum StartAction {
    /// Leave the running engine alone.
    KeepRunning,
    /// Start a new run.
    Launch,
    /// Collect the finished run, then start a new one.
    CollectThenLaunch,
}

/// Starting the engine: a running engine stays as it is; a finished run is collected before a
/// new one starts; otherwise a new run starts.
pub fn start_action(slot: RunSlot) -> (a: StartAction)
    ensures
        a == match slot {
            RunSlot::Active => StartAction::KeepRunning,
            RunSlot::Empty => StartAction::Launch,
            RunSlot::Finished => StartAction::CollectThenLaunch,
        },
{
    match slot {
        RunSlot::Active => StartAction::KeepRunning,
        RunSlot::Empty => StartAction::Launch,
        RunSlot::Finished => StartAction::CollectThenLaunch,
    }
}

} // verus!
