//! Data plane of a terminal emulator: relays bytes between a raw-mode host
//! terminal and a shell running inside a pseudo-terminal, keeps the window
//! geometry in step, and decides when the session ends.
//!
//! Everything here is plain logic over values and over the `Term` /
//! `WinSizeExt` capabilities; the system calls live with the callers.

mod event;
mod raw_mode;
mod term;
mod winsize;

pub use event::{
    action_of, classify_failure, lemma_quit_after_ignored, lemma_quit_ends_loop, token_count, lemma_resize_propagates, resize_count, resizes_ok, dispatch_signals, process_event, classify_signal, error_for, resize_requested, signal_verdict,
    signals_handled, ProcessEventError, SignalAction, SignalConfig, DEVICE_GONE, INPUT_TOKEN,
    PTY_TOKEN, SIGNAL_TOKEN, after_wait, run_cycle, LoopState, WaitOutcome,
};
pub use raw_mode::{after_rounds, enter_raw_mode, LocalModes, lemma_release_restores, lemma_rounds_restore, nonblocking_flags, restored, snapshot, with_nonblocking, RawModeGuard};
pub use term::{blocked, deliver, hard_failure, stalled, Endpoint, lemma_echo_round_trip, lemma_relays_none, read_record, transfer_result, transferred, lemma_relays_compose, forward_inputs, gather_outputs, relays, IoFailure, Term, CHUNK_SIZE};
pub use winsize::{WinSizeExt, WindowSize};
