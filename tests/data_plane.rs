use std::collections::VecDeque;

use terminal::{
    after_wait, classify_failure, classify_signal, deliver, dispatch_signals, forward_inputs,
    gather_outputs, process_event, run_cycle, IoFailure, LoopState, ProcessEventError,
    RawModeGuard, SignalAction, Endpoint, with_nonblocking, SignalConfig, Term, WaitOutcome, WinSizeExt, WindowSize,
    CHUNK_SIZE, DEVICE_GONE, INPUT_TOKEN, PTY_TOKEN, SIGNAL_TOKEN,
};

const SIGUSR1: i32 = 10;
const SIGWINCH: i32 = 28;
const SIGCHLD: i32 = 17;

/// A scripted device: reads come from a queue of outcomes, writes pile up.
struct Device {
    incoming: VecDeque<Result<Vec<u8>, IoFailure>>,
    out: Vec<u8>,
    write_failure: Option<IoFailure>,
    blocks_left: usize,
    per_write: usize,
    echoes: bool,
    geometry: WindowSize,
    geometry_failure: Option<IoFailure>,
}

impl Device {
    fn new() -> Device {
        Device {
            incoming: VecDeque::new(),
            out: Vec::new(),
            write_failure: None,
            blocks_left: 0,
            per_write: usize::MAX,
            echoes: false,
            geometry: WindowSize::new(24, 80, 0, 0),
            geometry_failure: None,
        }
    }

    fn with_input(bytes: &[u8]) -> Device {
        let mut e = Device::new();
        e.incoming.push_back(Ok(bytes.to_vec()));
        e
    }
}

impl Term for Device {
    fn read_chunk(&mut self, max: usize) -> Result<Vec<u8>, IoFailure> {
        match self.incoming.pop_front() {
            None => Err(IoFailure::WouldBlock),
            Some(Ok(mut bytes)) => {
                if bytes.len() > max {
                    let rest = bytes.split_off(max);
                    self.incoming.push_front(Ok(rest));
                }
                Ok(bytes)
            }
            Some(Err(e)) => Err(e),
        }
    }

    fn write(&mut self, data: &[u8]) -> Result<usize, IoFailure> {
        if let Some(e) = self.write_failure {
            return Err(e);
        }
        if self.blocks_left > 0 {
            self.blocks_left -= 1;
            return Err(IoFailure::WouldBlock);
        }
        let n = data.len().min(self.per_write);
        self.out.extend_from_slice(&data[..n]);
        if self.echoes {
            self.incoming.push_back(Ok(data[..n].to_vec()));
        }
        Ok(n)
    }
}

impl WinSizeExt for Device {
    fn get_term_size(&self) -> Result<WindowSize, IoFailure> {
        match self.geometry_failure {
            Some(e) => Err(e),
            None => Ok(self.geometry),
        }
    }

    fn set_term_size(&mut self, win: &WindowSize) -> Result<(), IoFailure> {
        match self.geometry_failure {
            Some(e) => Err(e),
            None => {
                self.geometry = *win;
                Ok(())
            }
        }
    }
}

fn config() -> SignalConfig {
    SignalConfig { quit: SIGUSR1, resize: SIGWINCH, child_exit: None }
}

#[test]
fn host_input_reaches_pty() {
    let mut host = Endpoint::new(Device::with_input(b"ls -l\r"));
    let mut pty = Endpoint::new(Device::new());
    assert_eq!(forward_inputs(&mut host, &mut pty), Ok(()));
    assert_eq!(pty.device().out, b"ls -l\r".to_vec());
    assert!(host.device().out.is_empty());
}

#[test]
fn pty_output_reaches_host() {
    let mut host = Endpoint::new(Device::new());
    let mut pty = Endpoint::new(Device::with_input(b"\x1b[1mbold\x1b[0m"));
    assert_eq!(gather_outputs(&mut host, &mut pty), Ok(12));
    assert_eq!(host.device().out, b"\x1b[1mbold\x1b[0m".to_vec());
}

#[test]
fn one_chunk_per_cycle_in_order() {
    let data: Vec<u8> = (0..600u32).map(|i| (i % 251) as u8).collect();
    let mut host = Endpoint::new(Device::new());
    let mut pty = Endpoint::new(Device::with_input(&data));
    assert_eq!(gather_outputs(&mut host, &mut pty), Ok(CHUNK_SIZE));
    assert_eq!(host.device().out.len(), 256);
    assert_eq!(gather_outputs(&mut host, &mut pty), Ok(256));
    assert_eq!(gather_outputs(&mut host, &mut pty), Ok(88));
    assert_eq!(gather_outputs(&mut host, &mut pty), Ok(0));
    assert_eq!(host.device().out, data);
}

#[test]
fn echo_child_round_trip() {
    let typed: Vec<u8> = vec![0, 1, 2, 0x7f, 0xff, b'a', b'\r', b'\n', 0x1b, b'[', b'A'];
    let mut host = Endpoint::new(Device::with_input(&typed));
    let mut pty = Device::new();
    pty.echoes = true;
    let mut pty = Endpoint::new(pty);
    assert_eq!(process_event(INPUT_TOKEN, &mut pty, &mut host, &vec![], &config()), Ok(()));
    assert_eq!(process_event(PTY_TOKEN, &mut pty, &mut host, &vec![], &config()), Ok(()));
    assert_eq!(host.device().out, typed);
}

#[test]
fn would_block_read_moves_nothing() {
    let mut host = Endpoint::new(Device::new());
    let mut pty = Endpoint::new(Device::new());
    assert_eq!(gather_outputs(&mut host, &mut pty), Ok(0));
    assert_eq!(forward_inputs(&mut host, &mut pty), Ok(()));
    assert!(host.device().out.is_empty());
    assert!(pty.device().out.is_empty());
    assert_eq!(deliver(Err(IoFailure::WouldBlock), &mut host), Ok(0));
    assert_eq!(process_event(PTY_TOKEN, &mut pty, &mut host, &vec![], &config()), Ok(()));
    assert_eq!(process_event(INPUT_TOKEN, &mut pty, &mut host, &vec![], &config()), Ok(()));
}

#[test]
fn deliver_writes_bytes_and_passes_errors() {
    let mut sink = Endpoint::new(Device::new());
    assert_eq!(deliver(Ok(vec![9, 8, 7]), &mut sink), Ok(3));
    assert_eq!(sink.device().out, vec![9, 8, 7]);
    assert_eq!(deliver(Err(IoFailure::Os(9)), &mut sink), Err(IoFailure::Os(9)));
    assert_eq!(sink.device().out, vec![9, 8, 7]);
}

#[test]
fn device_gone_means_process_died() {
    assert_eq!(classify_failure(IoFailure::Os(DEVICE_GONE)), ProcessEventError::ProcessDied);
    assert_eq!(classify_failure(IoFailure::Os(5)), ProcessEventError::ProcessDied);
    let mut host = Endpoint::new(Device::new());
    let mut pty = Device::new();
    pty.incoming.push_back(Err(IoFailure::Os(5)));
    let mut pty = Endpoint::new(pty);
    assert_eq!(
        process_event(PTY_TOKEN, &mut pty, &mut host, &vec![], &config()),
        Err(ProcessEventError::ProcessDied)
    );
}

#[test]
fn other_failures_are_io_errors() {
    assert_eq!(classify_failure(IoFailure::Os(9)), ProcessEventError::IoError(IoFailure::Os(9)));
    assert_eq!(classify_failure(IoFailure::Other), ProcessEventError::IoError(IoFailure::Other));
    let mut host = Endpoint::new(Device::with_input(b"x"));
    let mut pty = Device::new();
    pty.write_failure = Some(IoFailure::Os(32));
    let mut pty = Endpoint::new(pty);
    assert_eq!(
        process_event(INPUT_TOKEN, &mut pty, &mut host, &vec![], &config()),
        Err(ProcessEventError::IoError(IoFailure::Os(32)))
    );
    let mut host = Device::new();
    host.incoming.push_back(Err(IoFailure::Os(5)));
    let mut host = Endpoint::new(host);
    let mut pty = Endpoint::new(Device::new());
    assert_eq!(
        process_event(INPUT_TOKEN, &mut pty, &mut host, &vec![], &config()),
        Err(ProcessEventError::ProcessDied)
    );
}

#[test]
fn resize_pushes_host_geometry() {
    let mut host = Device::new();
    host.geometry = WindowSize::new(40, 120, 0, 0);
    let mut host = Endpoint::new(host);
    let mut pty = Endpoint::new(Device::new());
    assert_eq!(
        process_event(SIGNAL_TOKEN, &mut pty, &mut host, &vec![SIGWINCH], &config()),
        Ok(())
    );
    assert_eq!(pty.get_term_size(), Ok(WindowSize::new(40, 120, 0, 0)));
    assert_eq!(
        pty.get_term_size(),
        Ok(WindowSize { rows: 40, cols: 120, pixel_width: 0, pixel_height: 0 })
    );
}

#[test]
fn resize_failure_is_io_error() {
    let mut host = Device::new();
    host.geometry_failure = Some(IoFailure::Os(25));
    let mut host = Endpoint::new(host);
    let mut pty = Endpoint::new(Device::new());
    assert_eq!(
        dispatch_signals(&vec![SIGWINCH], &config(), &mut pty, &mut host),
        Err(ProcessEventError::IoError(IoFailure::Os(25)))
    );
    assert_eq!(pty.device().geometry, WindowSize::new(24, 80, 0, 0));
}

#[test]
fn quit_signal_breaks_loop() {
    let mut host = Endpoint::new(Device::new());
    let mut pty = Endpoint::new(Device::new());
    assert_eq!(
        process_event(SIGNAL_TOKEN, &mut pty, &mut host, &vec![SIGUSR1], &config()),
        Err(ProcessEventError::SigBreak)
    );
    assert_eq!(
        run_cycle(&vec![SIGNAL_TOKEN, PTY_TOKEN], &mut pty, &mut host, &vec![SIGUSR1], &config()),
        LoopState::Terminated(ProcessEventError::SigBreak)
    );
    assert!(host.device().out.is_empty());
}

#[test]
fn resize_before_quit_still_applies() {
    let mut host = Device::new();
    host.geometry = WindowSize::new(50, 132, 800, 600);
    let mut host = Endpoint::new(host);
    let mut pty = Endpoint::new(Device::new());
    assert_eq!(
        dispatch_signals(&vec![SIGWINCH, SIGUSR1], &config(), &mut pty, &mut host),
        Err(ProcessEventError::SigBreak)
    );
    assert_eq!(pty.device().geometry, WindowSize::new(50, 132, 800, 600));
}

#[test]
fn quit_before_resize_skips_it() {
    let mut host = Device::new();
    host.geometry = WindowSize::new(50, 132, 0, 0);
    let mut host = Endpoint::new(host);
    let mut pty = Endpoint::new(Device::new());
    assert_eq!(
        dispatch_signals(&vec![SIGUSR1, SIGWINCH], &config(), &mut pty, &mut host),
        Err(ProcessEventError::SigBreak)
    );
    assert_eq!(pty.device().geometry, WindowSize::new(24, 80, 0, 0));
}

#[test]
fn child_exit_signal_means_process_died() {
    let cfg = SignalConfig { quit: SIGUSR1, resize: SIGWINCH, child_exit: Some(SIGCHLD) };
    let mut host = Endpoint::new(Device::new());
    let mut pty = Endpoint::new(Device::new());
    assert_eq!(
        dispatch_signals(&vec![SIGCHLD], &cfg, &mut pty, &mut host),
        Err(ProcessEventError::ProcessDied)
    );
    assert_eq!(
        dispatch_signals(&vec![SIGCHLD], &config(), &mut pty, &mut host),
        Ok(())
    );
    assert_eq!(
        run_cycle(&vec![SIGNAL_TOKEN], &mut pty, &mut host, &vec![SIGCHLD], &cfg),
        LoopState::Terminated(ProcessEventError::ProcessDied)
    );
}

#[test]
fn signal_classification() {
    let cfg = SignalConfig { quit: SIGUSR1, resize: SIGWINCH, child_exit: Some(SIGCHLD) };
    assert_eq!(classify_signal(SIGUSR1, &cfg), SignalAction::Quit);
    assert_eq!(classify_signal(SIGWINCH, &cfg), SignalAction::Resize);
    assert_eq!(classify_signal(SIGCHLD, &cfg), SignalAction::ChildExit);
    assert_eq!(classify_signal(2, &cfg), SignalAction::Ignore);
    assert_eq!(classify_signal(SIGCHLD, &config()), SignalAction::Ignore);
}

#[test]
fn unrelated_signals_are_ignored() {
    let mut host = Device::new();
    host.geometry = WindowSize::new(30, 100, 0, 0);
    let mut host = Endpoint::new(host);
    let mut pty = Endpoint::new(Device::new());
    assert_eq!(
        process_event(SIGNAL_TOKEN, &mut pty, &mut host, &vec![2, 15], &config()),
        Ok(())
    );
    assert_eq!(pty.device().geometry, WindowSize::new(24, 80, 0, 0));
    assert_eq!(process_event(SIGNAL_TOKEN, &mut pty, &mut host, &vec![], &config()), Ok(()));
}

#[test]
fn unknown_token_does_nothing() {
    let mut host = Endpoint::new(Device::with_input(b"abc"));
    let mut pty = Endpoint::new(Device::with_input(b"def"));
    assert_eq!(process_event(7, &mut pty, &mut host, &vec![SIGUSR1], &config()), Ok(()));
    assert_eq!(
        run_cycle(&vec![3, 9], &mut pty, &mut host, &vec![SIGUSR1], &config()),
        LoopState::Running
    );
    assert!(host.device().out.is_empty());
    assert!(pty.device().out.is_empty());
    assert_eq!(host.device().incoming.len(), 1);
}

#[test]
fn cycle_runs_events_in_order() {
    let mut host = Endpoint::new(Device::with_input(b"in"));
    let mut pty = Device::with_input(b"out");
    pty.incoming.push_back(Err(IoFailure::Os(5)));
    let mut pty = Endpoint::new(pty);
    assert_eq!(
        run_cycle(&vec![PTY_TOKEN, INPUT_TOKEN], &mut pty, &mut host, &vec![], &config()),
        LoopState::Running
    );
    assert_eq!(host.device().out, b"out".to_vec());
    assert_eq!(pty.device().out, b"in".to_vec());
    assert_eq!(
        run_cycle(&vec![PTY_TOKEN, INPUT_TOKEN], &mut pty, &mut host, &vec![], &config()),
        LoopState::Terminated(ProcessEventError::ProcessDied)
    );
}

#[test]
fn interrupted_wait_is_retried() {
    assert_eq!(after_wait(Ok(())), WaitOutcome::Dispatch);
    assert_eq!(after_wait(Err(IoFailure::Interrupted)), WaitOutcome::Retry);
    assert_eq!(after_wait(Err(IoFailure::Os(9))), WaitOutcome::Fail(IoFailure::Os(9)));
}

#[test]
fn raw_mode_release_restores_snapshot() {
    let (guard, applied) = RawModeGuard::acquire(0x8a3bu32, 2, 0o4000);
    assert_eq!(applied, 2 | 0o4000);
    assert_eq!(guard.saved_flags(), 2);
    assert_eq!(guard.release(), (0x8a3b, 2));
    let (guard, applied) = RawModeGuard::acquire(String::from("attrs"), 0o4002, 0o4000);
    assert_eq!(applied, 0o4002);
    assert_eq!(guard.release(), (String::from("attrs"), 0o4002));
}

#[test]
fn nonblocking_bit_is_added() {
    assert_eq!(with_nonblocking(0o2, 0o4000), 0o4002);
    assert_eq!(with_nonblocking(0o4002, 0o4000), 0o4002);
    assert_eq!(with_nonblocking(0, 0o4000), 0o4000);
}

#[test]
fn endpoint_starts_empty() {
    let ep = Endpoint::new(Device::with_input(b"q"));
    assert!(ep.device().out.is_empty());
    assert_eq!(ep.device().incoming.len(), 1);
}

#[test]
fn error_messages() {
    assert_eq!(ProcessEventError::ProcessDied.message(), "The underlying process died, exiting");
    assert_eq!(ProcessEventError::SigBreak.message(), "A signal required the event loop to exit");
    assert!(!ProcessEventError::IoError(IoFailure::Other).message().is_empty());
}

/// A device whose geometry can be read but not set.
struct FixedGeometry {
    geometry: WindowSize,
}

impl WinSizeExt for FixedGeometry {
    fn get_term_size(&self) -> Result<WindowSize, IoFailure> {
        Ok(self.geometry)
    }

    fn set_term_size(&mut self, _win: &WindowSize) -> Result<(), IoFailure> {
        Err(IoFailure::Os(1))
    }
}

#[test]
fn failed_geometry_update_is_io_error() {
    let mut host = Device::new();
    host.geometry = WindowSize::new(40, 120, 0, 0);
    let mut host = Endpoint::new(host);
    let mut pty = Endpoint::new(FixedGeometry { geometry: WindowSize::new(24, 80, 0, 0) });
    assert_eq!(
        dispatch_signals(&vec![SIGWINCH, SIGUSR1], &config(), &mut pty, &mut host),
        Err(ProcessEventError::IoError(IoFailure::Os(1)))
    );
    assert_eq!(pty.device().geometry, WindowSize::new(24, 80, 0, 0));
}

#[test]
fn every_resize_is_applied_in_order() {
    let mut host = Device::new();
    host.geometry = WindowSize::new(40, 120, 0, 0);
    let mut host = Endpoint::new(host);
    let mut pty = Endpoint::new(Device::new());
    assert_eq!(
        dispatch_signals(&vec![SIGWINCH, 2, SIGWINCH], &config(), &mut pty, &mut host),
        Ok(())
    );
    assert_eq!(pty.device().geometry, WindowSize::new(40, 120, 0, 0));
}

#[test]
fn blocked_write_is_queued_not_failed() {
    let mut host = Endpoint::new(Device::with_input(b"typed"));
    let mut pty = Device::new();
    pty.blocks_left = 1;
    let mut pty = Endpoint::new(pty);
    assert_eq!(forward_inputs(&mut host, &mut pty), Ok(()));
    assert!(pty.device().out.is_empty());
    assert_eq!(pty.queued(), 5);
    assert_eq!(
        run_cycle(&vec![], &mut pty, &mut host, &vec![], &config()),
        LoopState::Running
    );
    assert_eq!(pty.device().out, b"typed".to_vec());
    assert_eq!(pty.queued(), 0);
}

#[test]
fn blocked_write_keeps_order_across_chunks() {
    let mut host = Device::with_input(b"abc");
    host.incoming.push_back(Ok(b"def".to_vec()));
    let mut host = Endpoint::new(host);
    let mut pty = Device::new();
    pty.blocks_left = 1;
    let mut pty = Endpoint::new(pty);
    assert_eq!(process_event(INPUT_TOKEN, &mut pty, &mut host, &vec![], &config()), Ok(()));
    assert_eq!(process_event(INPUT_TOKEN, &mut pty, &mut host, &vec![], &config()), Ok(()));
    assert_eq!(pty.device().out, b"abcdef".to_vec());
    assert_eq!(pty.queued(), 0);
}

#[test]
fn partial_writes_are_completed() {
    let data: Vec<u8> = (0..200u8).collect();
    let mut host = Endpoint::new(Device::new());
    let mut pty = Endpoint::new(Device::with_input(&data));
    let mut narrow = Device::new();
    narrow.per_write = 7;
    let mut narrow_host = Endpoint::new(narrow);
    assert_eq!(gather_outputs(&mut narrow_host, &mut pty), Ok(200));
    assert_eq!(narrow_host.device().out, data);
    assert_eq!(narrow_host.queued(), 0);
    assert_eq!(gather_outputs(&mut host, &mut pty), Ok(0));
}

#[test]
fn failed_write_is_io_error() {
    let mut host = Endpoint::new(Device::with_input(b"typed"));
    let mut pty = Device::new();
    pty.write_failure = Some(IoFailure::Os(32));
    let mut pty = Endpoint::new(pty);
    assert_eq!(forward_inputs(&mut host, &mut pty), Err(IoFailure::Os(32)));
    assert!(pty.device().out.is_empty());
}
