//! Monitor logic: decides, for each run of the monitor, whether the transcript
//! delta is to be counted, and accumulates the counted bytes into the saved state.
//!
//! A run reads the saved state (the transcript offset counted so far and the
//! cumulative status), looks at the transcript, and answers each event with an
//! action: nothing to do, count the delta from the saved offset, or save a new
//! state. The caller performs the actions.
use vstd::prelude::*;

verus! {

/// Cumulative byte counts of the transcript's text.
#[derive(Debug, Clone, Copy, PartialEq, Eq, Structural)]
pub struct MonitorStatus {
    /// Bytes of non-thinking text.
    pub non_thinking_bytes: u64,
    /// Bytes of thinking text.
    pub thinking_bytes: u64,
}

impl Default for MonitorStatus {
    /// No bytes counted yet.
    fn default() -> (status: Self)
        ensures
            status.non_thinking_bytes == 0,
            status.thinking_bytes == 0,
    {
        MonitorStatus { non_thinking_bytes: 0, thinking_bytes: 0 }
    }
}

/// What the monitor keeps between runs.
#[derive(Debug, Clone, Copy, PartialEq, Eq, Structural)]
pub struct MonitorState {
    /// Transcript byte offset up to which the transcript has been counted.
    pub offset: u64,
    /// Cumulative status, if one was saved.
    pub status: Option<MonitorStatus>,
}

/// What the caller observed or did.
#[derive(Debug, Clone, Copy, PartialEq, Eq, Structural)]
pub enum MonitorEvent {
    /// The transcript file does not exist.
    TranscriptMissing,
    /// The transcript file has this many bytes.
    TranscriptSize(u64),
    /// The delta from the saved offset was counted, in a transcript of `size` bytes.
    DeltaCounted {
        /// Size of the transcript when its delta was counted.
        size: u64,
        /// Non-thinking bytes of the delta.
        non_thinking_bytes: u64,
        /// Thinking bytes of the delta.
        thinking_bytes: u64,
    },
}

/// What the caller is to do next.
#[derive(Debug, Clone, Copy, PartialEq, Eq, Structural)]
pub enum MonitorAction {
    /// Nothing: the run is over and the saved state stays as it is.
    Done,
    /// Count the transcript delta that starts at this byte offset.
    CountDelta {
        /// Offset at which the delta starts.
        offset: u64,
    },
    /// Save this state; the run is then over.
    Save(MonitorState),
}

/// The saved status, or no bytes when none was saved.
pub open spec fn previous_status(state: MonitorState) -> MonitorStatus {
    match state.status {
        Some(s) => s,
        None => MonitorStatus { non_thinking_bytes: 0, thinking_bytes: 0 },
    }
}

/// Whether adding a delta's counts to the saved status fits in `u64`.
pub open spec fn accumulation_fits(state: MonitorState, non_thinking: u64, thinking: u64) -> bool {
    &&& previous_status(state).non_thinking_bytes + non_thinking <= u64::MAX
    &&& previous_status(state).thinking_bytes + thinking <= u64::MAX
}

/// The state after a delta of a transcript of `size` bytes was counted: the
/// delta's counts on top of the saved totals, and the offset moved to `size`.
pub open spec fn accumulated(
    state: MonitorState,
    size: u64,
    non_thinking: u64,
    thinking: u64,
) -> MonitorState {
    MonitorState {
        offset: size,
        status: Some(
            MonitorStatus {
                non_thinking_bytes: (previous_status(state).non_thinking_bytes
                    + non_thinking) as u64,
                thinking_bytes: (previous_status(state).thinking_bytes + thinking) as u64,
            },
        ),
    }
}

/// The monitor's answer to an event: a missing transcript, or one that has not
/// grown past the saved offset, asks for nothing; a grown one asks for its delta
/// from the saved offset; a counted delta is accumulated and saved.
pub open spec fn monitor_step(state: MonitorState, event: MonitorEvent) -> MonitorAction {
    match event {
        MonitorEvent::TranscriptMissing => MonitorAction::Done,
        MonitorEvent::TranscriptSize(size) => if size <= state.offset {
            MonitorAction::Done
        } else {
            MonitorAction::CountDelta { offset: state.offset }
        },
        MonitorEvent::DeltaCounted { size, non_thinking_bytes, thinking_bytes } => MonitorAction::Save(
            accumulated(state, size, non_thinking_bytes, thinking_bytes),
        ),
    }
}

/// Update the monitor state for a new transcript delta.
///
/// Given the saved state and what the caller observed, returns what to do: a
/// missing transcript, or one that has not grown since the saved offset, is a
/// no-op; otherwise the delta from the saved offset is to be counted, and once
/// it is, its non-thinking and thinking byte counts are added to the cumulative
/// totals and the offset moves to the transcript's size.
pub fn update_monitor(state: &MonitorState, event: MonitorEvent) -> (action: MonitorAction)
    requires
        event matches MonitorEvent::DeltaCounted { non_thinking_bytes, thinking_bytes, .. }
            ==> accumulation_fits(*state, non_thinking_bytes, thinking_bytes),
    ensures
        action == monitor_step(*state, event),
        event is TranscriptMissing ==> action == MonitorAction::Done,
        event matches MonitorEvent::TranscriptSize(size) ==> (size <= state.offset ==> action
            == MonitorAction::Done),
        event matches MonitorEvent::TranscriptSize(size) ==> (size > state.offset ==> action
            == (MonitorAction::CountDelta { offset: state.offset })),
        event matches MonitorEvent::DeltaCounted { size, non_thinking_bytes, thinking_bytes }
            ==> action == MonitorAction::Save(
            MonitorState {
                offset: size,
                status: Some(
                    MonitorStatus {
                        non_thinking_bytes: (match state.status {
                            Some(s) => s.non_thinking_bytes,
                            None => 0u64,
                        } + non_thinking_bytes) as u64,
                        thinking_bytes: (match state.status {
                            Some(s) => s.thinking_bytes,
                            None => 0u64,
                        } + thinking_bytes) as u64,
                    },
                ),
            },
        ),
{
    match event {
        MonitorEvent::TranscriptMissing => MonitorAction::Done,
        MonitorEvent::TranscriptSize(size) => {
            if size <= state.offset {
                MonitorAction::Done
            } else {
                MonitorAction::CountDelta { offset: state.offset }
            }
        },
        MonitorEvent::DeltaCounted { size, non_thinking_bytes, thinking_bytes } => {
            let prev = match state.status {
                Some(s) => s,
                None => MonitorStatus::default(),
            };
            let status = MonitorStatus {
                non_thinking_bytes: prev.non_thinking_bytes + non_thinking_bytes,
                thinking_bytes: prev.thinking_bytes + thinking_bytes,
            };
            MonitorAction::Save(MonitorState { offset: size, status: Some(status) })
        },
    }
}

/// The totals are cumulative: counting two deltas in two runs saves the same
/// state as counting both at once in one run that ends at the later size.
pub proof fn lemma_accumulation_is_cumulative(
    state: MonitorState,
    size1: u64,
    nt1: u64,
    th1: u64,
    size2: u64,
    nt2: u64,
    th2: u64,
)
    requires
        accumulation_fits(state, nt1, th1),
        nt1 + nt2 <= u64::MAX,
        th1 + th2 <= u64::MAX,
        accumulation_fits(state, (nt1 + nt2) as u64, (th1 + th2) as u64),
    ensures
        accumulation_fits(accumulated(state, size1, nt1, th1), nt2, th2),
        accumulated(accumulated(state, size1, nt1, th1), size2, nt2, th2) == accumulated(
            state,
            size2,
            (nt1 + nt2) as u64,
            (th1 + th2) as u64,
        ),
{
}

/// Counting never lowers the totals, and the saved offset becomes the size of
/// the transcript whose delta was counted.
pub proof fn lemma_accumulation_is_monotone(
    state: MonitorState,
    size: u64,
    non_thinking: u64,
    thinking: u64,
)
    requires
        accumulation_fits(state, non_thinking, thinking),
    ensures
        ({
            let next = accumulated(state, size, non_thinking, thinking);
            &&& next.offset == size
            &&& previous_status(next).non_thinking_bytes >= previous_status(
                state,
            ).non_thinking_bytes
            &&& previous_status(next).thinking_bytes >= previous_status(state).thinking_bytes
        }),
{
}

/// A transcript that is missing, or has not grown past the saved offset, leaves
/// the saved state as it is; one that has grown is counted from the saved offset.
pub proof fn lemma_no_growth_is_noop(state: MonitorState, size: u64)
    ensures
        monitor_step(state, MonitorEvent::TranscriptMissing) == MonitorAction::Done,
        size <= state.offset ==> monitor_step(state, MonitorEvent::TranscriptSize(size))
            == MonitorAction::Done,
        size > state.offset ==> monitor_step(state, MonitorEvent::TranscriptSize(size))
            == (MonitorAction::CountDelta { offset: state.offset }),
{
}

/// A run never lowers the saved state: when a transcript of `size` bytes is to
/// be counted, the state saved once its delta is counted has a larger offset
/// and totals no lower than before.
pub proof fn lemma_run_never_lowers_state(
    state: MonitorState,
    size: u64,
    non_thinking: u64,
    thinking: u64,
)
    requires
        monitor_step(state, MonitorEvent::TranscriptSize(size)) is CountDelta,
        accumulation_fits(state, non_thinking, thinking),
    ensures
        ({
            let event = MonitorEvent::DeltaCounted {
                size,
                non_thinking_bytes: non_thinking,
                thinking_bytes: thinking,
            };
            &&& monitor_step(state, event) matches MonitorAction::Save(next)
            &&& next.offset > state.offset
            &&& previous_status(next).non_thinking_bytes >= previous_status(
                state,
            ).non_thinking_bytes
            &&& previous_status(next).thinking_bytes >= previous_status(state).thinking_bytes
        }),
{
}

} // verus!
