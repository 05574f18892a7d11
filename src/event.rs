use vstd::prelude::*;

use crate::term::{
    blocked, forward_inputs, gather_outputs, lemma_relays_compose, lemma_relays_none, relays, transfer_result, transferred,
    Endpoint, IoFailure, Term,
};
use crate::winsize::{WinSizeExt, WindowSize};

verus! {

/// Readiness token of the PTY master.
pub const PTY_TOKEN: usize = 0;

/// Readiness token of the host input.
pub const INPUT_TOKEN: usize = 1;

/// Readiness token of the signal channel.
pub const SIGNAL_TOKEN: usize = 2;

/// Error number a PTY master read fails with once the child side is gone.
pub const DEVICE_GONE: i32 = 5;

/// Why the event loop stops.
#[derive(Clone, Copy, Debug, PartialEq, Eq, Structural)]
pub enum ProcessEventError {
    /// The child's terminal line is gone: the shell has exited.
    ProcessDied,
    /// A read, write or geometry call failed.
    IoError(IoFailure),
    /// The designated quit signal arrived.
    SigBreak,
}

impl ProcessEventError {
    /// A one-line description of the condition.
    pub fn message(&self) -> (r: &'static str)
        ensures
            match self {
                ProcessEventError::ProcessDied => r@ == "The underlying process died, exiting"@,
                ProcessEventError::IoError(_) => r@ == "An unknown io error arised"@,
                ProcessEventError::SigBreak => r@ == "A signal required the event loop to exit"@,
            },
    {
        match self {
            ProcessEventError::ProcessDied => {
                proof {
                    reveal_strlit("The underlying process died, exiting");
                }
                "The underlying process died, exiting"
            },
            ProcessEventError::IoError(_) => {
                proof {
                    reveal_strlit("An unknown io error arised");
                }
                "An unknown io error arised"
            },
            ProcessEventError::SigBreak => {
                proof {
                    reveal_strlit("A signal required the event loop to exit");
                }
                "A signal required the event loop to exit"
            },
        }
    }
}

/// The loop condition a failed transfer amounts to.
pub open spec fn error_for(e: IoFailure) -> ProcessEventError {
    if e == IoFailure::Os(DEVICE_GONE) {
        ProcessEventError::ProcessDied
    } else {
        ProcessEventError::IoError(e)
    }
}

/// Maps a failed transfer to the loop condition it means: the device-gone
/// error is the child's death, anything else an I/O error.
pub fn classify_failure(e: IoFailure) -> (r: ProcessEventError)
    ensures
        r == error_for(e),
{
    match e {
        IoFailure::Os(code) => {
            if code == DEVICE_GONE {
                ProcessEventError::ProcessDied
            } else {
                ProcessEventError::IoError(e)
            }
        },
        _ => ProcessEventError::IoError(e),
    }
}

/// The signal numbers the loop reacts to.
#[derive(Clone, Copy, Debug, PartialEq, Eq, Structural)]
pub struct SignalConfig {
    /// Ends the loop cleanly.
    pub quit: i32,
    /// Asks for the host geometry to be pushed to the PTY.
    pub resize: i32,
    /// Where delivered, ends the loop as the child's death.
    pub child_exit: Option<i32>,
}

/// What one pending signal asks the loop to do.
#[derive(Clone, Copy, Debug, PartialEq, Eq, Structural)]
pub enum SignalAction {
    Quit,
    Resize,
    ChildExit,
    Ignore,
}

/// The action for `sig`; the quit signal wins over the others.
pub open spec fn action_of(sig: i32, cfg: SignalConfig) -> SignalAction {
    if sig == cfg.quit {
        SignalAction::Quit
    } else if sig == cfg.resize {
        SignalAction::Resize
    } else if cfg.child_exit == Some(sig) {
        SignalAction::ChildExit
    } else {
        SignalAction::Ignore
    }
}

/// Classifies one pending signal.
pub fn classify_signal(sig: i32, cfg: &SignalConfig) -> (r: SignalAction)
    ensures
        r == action_of(sig, *cfg),
{
    if sig == cfg.quit {
        SignalAction::Quit
    } else if sig == cfg.resize {
        SignalAction::Resize
    } else {
        match cfg.child_exit {
            Some(c) => {
                if sig == c {
                    SignalAction::ChildExit
                } else {
                    SignalAction::Ignore
                }
            },
            None => SignalAction::Ignore,
        }
    }
}

/// Where the pending signals, taken in order, end the loop: at the first quit
/// or child-exit signal.
pub open spec fn signal_verdict(pending: Seq<i32>, cfg: SignalConfig) -> Result<
    (),
    ProcessEventError,
>
    decreases pending.len(),
{
    if pending.len() == 0 {
        Ok(())
    } else {
        match action_of(pending[0], cfg) {
            SignalAction::Quit => Err(ProcessEventError::SigBreak),
            SignalAction::ChildExit => Err(ProcessEventError::ProcessDied),
            _ => signal_verdict(pending.drop_first(), cfg),
        }
    }
}

/// How many resize signals come before the first signal that ends the loop.
pub open spec fn resize_count(pending: Seq<i32>, cfg: SignalConfig) -> nat
    decreases pending.len(),
{
    if pending.len() == 0 {
        0
    } else {
        match action_of(pending[0], cfg) {
            SignalAction::Quit => 0,
            SignalAction::ChildExit => 0,
            SignalAction::Resize => 1 + resize_count(pending.drop_first(), cfg),
            SignalAction::Ignore => resize_count(pending.drop_first(), cfg),
        }
    }
}

/// Whether a resize signal comes before the first signal that ends the loop.
pub open spec fn resize_requested(pending: Seq<i32>, cfg: SignalConfig) -> bool {
    resize_count(pending, cfg) > 0
}

/// The first `n` host queries all succeeded, and each geometry read was then
/// set on the PTY, successfully.
pub open spec fn resizes_ok(
    queries: Seq<Result<WindowSize, IoFailure>>,
    updates: Seq<(WindowSize, Result<(), IoFailure>)>,
    n: int,
) -> bool {
    &&& 0 <= n <= queries.len()
    &&& n <= updates.len()
    &&& forall|j: int|
        0 <= j < n ==> queries[j] == Ok::<WindowSize, IoFailure>(updates[j].0) && updates[j].1
            == Ok::<(), IoFailure>(())
}

/// The outcome of handling `pending`, given the host queries and PTY updates
/// made meanwhile: each resize before the first stopping signal reads the
/// host geometry and then sets it on the PTY. If every such call succeeds the
/// result is the verdict; otherwise the calls stop at the first failure,
/// which is returned as an I/O error.
pub open spec fn signals_handled(
    pending: Seq<i32>,
    cfg: SignalConfig,
    r: Result<(), ProcessEventError>,
    queries: Seq<Result<WindowSize, IoFailure>>,
    updates: Seq<(WindowSize, Result<(), IoFailure>)>,
) -> bool {
    let k = resize_count(pending, cfg);
    match r {
        Err(ProcessEventError::IoError(e)) => {
            &&& 1 <= queries.len() <= k
            &&& resizes_ok(queries, updates, queries.len() - 1)
            &&& {
                ||| (updates.len() == queries.len() - 1 && queries.last() == Err::<
                    WindowSize,
                    IoFailure,
                >(e))
                ||| (updates.len() == queries.len() && queries.last() == Ok::<
                    WindowSize,
                    IoFailure,
                >(updates.last().0) && updates.last().1 == Err::<(), IoFailure>(e))
            }
        },
        _ => {
            &&& r == signal_verdict(pending, cfg)
            &&& queries.len() == k
            &&& updates.len() == k
            &&& resizes_ok(queries, updates, k as int)
        },
    }
}

proof fn lemma_skip_step(pending: Seq<i32>, i: int)
    requires
        0 <= i < pending.len(),
    ensures
        pending.skip(i).len() > 0,
        pending.skip(i)[0] == pending[i],
        pending.skip(i).drop_first() == pending.skip(i + 1),
{
    assert(pending.skip(i).drop_first() =~= pending.skip(i + 1));
}

proof fn lemma_skip_push<T>(a: Seq<T>, x: T, n: int)
    requires
        0 <= n <= a.len(),
    ensures
        a.push(x).skip(n) == a.skip(n).push(x),
        a.push(x).take(n) == a.take(n),
{
    assert(a.push(x).skip(n) =~= a.skip(n).push(x));
    assert(a.push(x).take(n) =~= a.take(n));
}

/// Handles the signals drained from the signal channel, in order: a resize
/// reads the host geometry and sets it on the PTY, the quit signal ends the
/// loop with `SigBreak`, a child-exit signal with `ProcessDied`; others are
/// ignored.
pub fn dispatch_signals<P: WinSizeExt, H: WinSizeExt>(
    pending: &Vec<i32>,
    cfg: &SignalConfig,
    pty: &mut Endpoint<P>,
    host: &mut Endpoint<H>,
) -> (r: Result<(), ProcessEventError>)
    ensures
        final(host).queries().take(old(host).queries().len() as int) == old(host).queries(),
        final(pty).updates().take(old(pty).updates().len() as int) == old(pty).updates(),
        final(host).queries().len() >= old(host).queries().len(),
        final(pty).updates().len() >= old(pty).updates().len(),
        signals_handled(
            pending@,
            *cfg,
            r,
            final(host).queries().skip(old(host).queries().len() as int),
            final(pty).updates().skip(old(pty).updates().len() as int),
        ),
        final(host).updates() == old(host).updates(),
        final(pty).queries() == old(pty).queries(),
        final(host).same_streams(old(host)),
        final(pty).same_streams(old(pty)),
{
    let ghost host0 = *host;
    let ghost pty0 = *pty;
    let ghost hn = host.queries().len() as int;
    let ghost pn = pty.updates().len() as int;
    let mut i: usize = 0;
    proof {
        assert(pending@.skip(0) =~= pending@);
        assert(host.queries().take(hn) =~= host0.queries());
        assert(pty.updates().take(pn) =~= pty0.updates());
    }
    while i < pending.len()
        invariant
            0 <= i <= pending.len(),
            signal_verdict(pending@, *cfg) == signal_verdict(pending@.skip(i as int), *cfg),
            host.queries().len() >= hn,
            pty.updates().len() >= pn,
            host.queries().take(hn) == host0.queries(),
            pty.updates().take(pn) == pty0.updates(),
            host.queries().len() - hn == pty.updates().len() - pn,
            resize_count(pending@, *cfg) == (host.queries().len() - hn) + resize_count(
                pending@.skip(i as int),
                *cfg,
            ),
            resizes_ok(
                host.queries().skip(hn),
                pty.updates().skip(pn),
                host.queries().len() - hn,
            ),
            host.updates() == host0.updates(),
            pty.queries() == pty0.queries(),
            host.same_streams(&host0),
            pty.same_streams(&pty0),
            hn == old(host).queries().len(),
            pn == old(pty).updates().len(),
            host0 == *old(host),
            pty0 == *old(pty),
        decreases pending.len() - i,
    {
        proof {
            lemma_skip_step(pending@, i as int);
        }
        let sig = pending[i];
        match classify_signal(sig, cfg) {
            SignalAction::Quit => {
                return Err(ProcessEventError::SigBreak);
            },
            SignalAction::ChildExit => {
                return Err(ProcessEventError::ProcessDied);
            },
            SignalAction::Resize => {
                let ghost hq = host.queries();
                let ghost pu = pty.updates();
                let got = host.get_term_size();
                proof {
                    lemma_skip_push(hq, got, hn);
                }
                let ghost got_rec = got;
                let win = match got {
                    Ok(w) => w,
                    Err(e) => {
                        proof {
                            assert(pty.updates().skip(pn).len() == host.queries().skip(hn).len()
                                - 1);
                        }
                        return Err(ProcessEventError::IoError(e));
                    },
                };
                let set = pty.set_term_size(&win);
                let ghost set_rec = set;
                proof {
                    lemma_skip_push(pu, (win, set), pn);
                    assert forall|j: int|
                        0 <= j < host.queries().len() - hn - 1 implies host.queries().skip(hn)[j]
                        == hq.skip(hn)[j] && pty.updates().skip(pn)[j] == pu.skip(pn)[j] by {}
                }
                match set {
                    Ok(()) => {
                        proof {
                            let q = host.queries().skip(hn);
                            let u = pty.updates().skip(pn);
                            assert(host.queries() == hq.push(got_rec));
                            assert(got_rec == Ok::<WindowSize, IoFailure>(win));
                            assert(q == hq.skip(hn).push(Ok::<WindowSize, IoFailure>(win)));
                            assert(pty.updates() == pu.push((win, set_rec)));
                            assert(set_rec is Ok);
                            assert(set_rec == Ok::<(), IoFailure>(())) by {
                                let unit: () = set_rec->Ok_0;
                                assert(unit == ());
                            }
                            assert(u == pu.skip(pn).push((win, Ok::<(), IoFailure>(()))));
                            assert forall|j: int| 0 <= j < q.len() implies q[j]
                                == Ok::<WindowSize, IoFailure>(u[j].0) && u[j].1 == Ok::<
                                (),
                                IoFailure,
                            >(()) by {
                                if j < q.len() - 1 {
                                    assert(q[j] == hq.skip(hn)[j]);
                                    assert(u[j] == pu.skip(pn)[j]);
                                }
                            }
                        }
                    },
                    Err(e) => {
                        return Err(ProcessEventError::IoError(e));
                    },
                }
            },
            SignalAction::Ignore => {},
        }
        i = i + 1;
    }
    proof {
        assert(pending@.skip(i as int).len() == 0);
    }
    Ok(())
}

/// Does the work one readiness event asks for: a chunk from the PTY to the
/// host, a chunk from the host to the PTY, or the pending signals. Any other
/// token is left alone.
pub fn process_event<P: Term + WinSizeExt, H: Term + WinSizeExt>(
    token: usize,
    pty: &mut Endpoint<P>,
    echo: &mut Endpoint<H>,
    pending: &Vec<i32>,
    cfg: &SignalConfig,
) -> (r: Result<(), ProcessEventError>)
    ensures
        token == PTY_TOKEN ==> {
            &&& transferred(*old(pty), *final(pty), *old(echo), *final(echo))
            &&& r == match transfer_result(*final(pty), *old(echo), *final(echo)) {
                Ok(_) => Ok::<(), ProcessEventError>(()),
                Err(e) => Err(error_for(e)),
            }
            &&& relays(
                old(pty).consumed(),
                final(pty).consumed(),
                old(echo).accepted(),
                final(echo).accepted(),
            )
            &&& final(pty).reads().last().1 == Err::<Seq<u8>, IoFailure>(IoFailure::WouldBlock)
                ==> {
                &&& r is Ok
                &&& final(echo).same_streams(old(echo))
            }
        },
        token == INPUT_TOKEN ==> {
            &&& transferred(*old(echo), *final(echo), *old(pty), *final(pty))
            &&& r == match transfer_result(*final(echo), *old(pty), *final(pty)) {
                Ok(_) => Ok::<(), ProcessEventError>(()),
                Err(e) => Err(error_for(e)),
            }
            &&& relays(
                old(echo).consumed(),
                final(echo).consumed(),
                old(pty).accepted(),
                final(pty).accepted(),
            )
            &&& final(echo).reads().last().1 == Err::<Seq<u8>, IoFailure>(IoFailure::WouldBlock)
                ==> {
                &&& r is Ok
                &&& final(pty).same_streams(old(pty))
            }
        },
        token == SIGNAL_TOKEN ==> {
            &&& final(echo).queries().take(old(echo).queries().len() as int) == old(
                echo,
            ).queries()
            &&& final(pty).updates().take(old(pty).updates().len() as int) == old(pty).updates()
            &&& final(echo).queries().len() >= old(echo).queries().len()
            &&& final(pty).updates().len() >= old(pty).updates().len()
            &&& signals_handled(
                pending@,
                *cfg,
                r,
                final(echo).queries().skip(old(echo).queries().len() as int),
                final(pty).updates().skip(old(pty).updates().len() as int),
            )
            &&& final(echo).updates() == old(echo).updates()
            &&& final(pty).queries() == old(pty).queries()
            &&& final(echo).same_streams(old(echo))
            &&& final(pty).same_streams(old(pty))
        },
        token > SIGNAL_TOKEN ==> {
            &&& r is Ok
            &&& *final(pty) == *old(pty)
            &&& *final(echo) == *old(echo)
        },
{
    if token == PTY_TOKEN {
        match gather_outputs(echo, pty) {
            Ok(_) => Ok(()),
            Err(e) => Err(classify_failure(e)),
        }
    } else if token == INPUT_TOKEN {
        match forward_inputs(echo, pty) {
            Ok(()) => Ok(()),
            Err(e) => Err(classify_failure(e)),
        }
    } else if token == SIGNAL_TOKEN {
        dispatch_signals(pending, cfg, pty, echo)
    } else {
        Ok(())
    }
}

/// What to do once the wait step returns.
#[derive(Clone, Copy, Debug, PartialEq, Eq, Structural)]
pub enum WaitOutcome {
    /// Sources are ready: dispatch the events.
    Dispatch,
    /// A signal interrupted the wait: wait again.
    Retry,
    /// The wait itself failed.
    Fail(IoFailure),
}

/// Decides on the result of the wait step: an interrupted wait is retried,
/// never an error.
pub fn after_wait(r: Result<(), IoFailure>) -> (w: WaitOutcome)
    ensures
        match r {
            Ok(()) => w == WaitOutcome::Dispatch,
            Err(IoFailure::Interrupted) => w == WaitOutcome::Retry,
            Err(e) => w == WaitOutcome::Fail(e),
        },
{
    match r {
        Ok(()) => WaitOutcome::Dispatch,
        Err(IoFailure::Interrupted) => WaitOutcome::Retry,
        Err(e) => WaitOutcome::Fail(e),
    }
}

/// The event loop's only two states.
#[derive(Clone, Copy, Debug, PartialEq, Eq, Structural)]
pub enum LoopState {
    Running,
    Terminated(ProcessEventError),
}

/// How many times `t` occurs in `tokens`.
pub open spec fn token_count(tokens: Seq<usize>, t: usize) -> nat
    decreases tokens.len(),
{
    if tokens.len() == 0 {
        0
    } else {
        token_count(tokens.drop_last(), t) + if tokens.last() == t {
            1nat
        } else {
            0nat
        }
    }
}

/// Runs one wait cycle: first writes what is still queued for the PTY and
/// the host, then dispatches the events in the order they were reported,
/// stopping at the first that ends the loop. `pending` holds the signals
/// drained from the signal channel in this cycle.
pub fn run_cycle<P: Term + WinSizeExt, H: Term + WinSizeExt>(
    tokens: &Vec<usize>,
    pty: &mut Endpoint<P>,
    echo: &mut Endpoint<H>,
    pending: &Vec<i32>,
    cfg: &SignalConfig,
) -> (s: LoopState)
    ensures
        relays(old(pty).consumed(), final(pty).consumed(), old(echo).accepted(), final(echo).accepted()),
        relays(old(echo).consumed(), final(echo).consumed(), old(pty).accepted(), final(pty).accepted()),
        s == LoopState::Running ==> {
            &&& final(pty).reads().len() == old(pty).reads().len() + token_count(
                tokens@,
                PTY_TOKEN,
            )
            &&& final(echo).reads().len() == old(echo).reads().len() + token_count(
                tokens@,
                INPUT_TOKEN,
            )
        },
        s matches LoopState::Terminated(e) ==> {
            ||| exists|f: IoFailure| f != IoFailure::WouldBlock && e == error_for(f)
            ||| (e is IoError && tokens@.contains(SIGNAL_TOKEN) && resize_requested(
                pending@,
                *cfg,
            ))
            ||| signal_verdict(pending@, *cfg) == Err::<(), ProcessEventError>(e)
        },
        old(pty).backlog().len() == 0 && old(echo).backlog().len() == 0 && (forall|i: int|
            0 <= i < tokens@.len() ==> tokens@[i] >= SIGNAL_TOKEN) && signal_verdict(
            pending@,
            *cfg,
        ) is Ok && !resize_requested(pending@, *cfg) ==> s == LoopState::Running,
        old(pty).backlog().len() == 0 && old(echo).backlog().len() == 0 && (forall|i: int|
            0 <= i < tokens@.len() ==> tokens@[i] > SIGNAL_TOKEN) ==> {
            &&& s == LoopState::Running
            &&& *final(pty) == *old(pty)
            &&& *final(echo) == *old(echo)
        },
        s == LoopState::Terminated(ProcessEventError::SigBreak) ==> {
            &&& tokens@.contains(SIGNAL_TOKEN)
            &&& signal_verdict(pending@, *cfg) == Err::<(), ProcessEventError>(
                ProcessEventError::SigBreak,
            )
        },
        old(pty).backlog().len() == 0 && old(echo).backlog().len() == 0 && tokens@.len() > 0
            && tokens@[0] == SIGNAL_TOKEN && !resize_requested(pending@, *cfg) && (signal_verdict(
            pending@,
            *cfg,
        ) matches Err(e)) ==> s == LoopState::Terminated(signal_verdict(pending@, *cfg)->Err_0),
{
    let ghost pty0 = *pty;
    let ghost echo0 = *echo;
    proof {
        lemma_relays_none(pty.consumed(), echo.accepted());
        lemma_relays_none(echo.consumed(), pty.accepted());
    }
    match echo.flush() {
        Ok(()) => {},
        Err(e) => {
            return LoopState::Terminated(classify_failure(e));
        },
    }
    match pty.flush() {
        Ok(()) => {},
        Err(e) => {
            return LoopState::Terminated(classify_failure(e));
        },
    }
    let ghost pty_s = *pty;
    let ghost echo_s = *echo;
    let mut i: usize = 0;
    proof {
        assert(tokens@.take(0) =~= Seq::<usize>::empty());
    }
    while i < tokens.len()
        invariant
            0 <= i <= tokens.len(),
            pty0 == *old(pty),
            echo0 == *old(echo),
            pty_s.reads() == pty0.reads(),
            echo_s.reads() == echo0.reads(),
            relays(pty0.consumed(), pty.consumed(), echo0.accepted(), echo.accepted()),
            relays(echo0.consumed(), echo.consumed(), pty0.accepted(), pty.accepted()),
            pty.reads().len() == pty0.reads().len() + token_count(
                tokens@.take(i as int),
                PTY_TOKEN,
            ),
            echo.reads().len() == echo0.reads().len() + token_count(
                tokens@.take(i as int),
                INPUT_TOKEN,
            ),
            pty0.backlog().len() == 0 && echo0.backlog().len() == 0 && (forall|j: int|
                0 <= j < tokens@.len() ==> tokens@[j] > SIGNAL_TOKEN) ==> {
                &&& *pty == pty0
                &&& *echo == echo0
            },
            i > 0 && tokens@[0] == SIGNAL_TOKEN && !resize_requested(pending@, *cfg)
                ==> signal_verdict(pending@, *cfg) is Ok,
        decreases tokens.len() - i,
    {
        let ghost pty1 = *pty;
        let ghost echo1 = *echo;
        let token = tokens[i];
        proof {
            assert(tokens@.take(i + 1).drop_last() =~= tokens@.take(i as int));
            lemma_relays_none(pty1.consumed(), echo1.accepted());
            lemma_relays_none(echo1.consumed(), pty1.accepted());
        }
        let r = process_event(token, pty, echo, pending, cfg);
        proof {
            if token == PTY_TOKEN {
                lemma_relays_compose(
                    pty0.consumed(),
                    pty1.consumed(),
                    pty.consumed(),
                    echo0.accepted(),
                    echo1.accepted(),
                    echo.accepted(),
                );
                assert(echo.consumed() == echo1.consumed());
                assert(pty.accepted() == pty1.accepted());
            } else if token == INPUT_TOKEN {
                lemma_relays_compose(
                    echo0.consumed(),
                    echo1.consumed(),
                    echo.consumed(),
                    pty0.accepted(),
                    pty1.accepted(),
                    pty.accepted(),
                );
                assert(pty.consumed() == pty1.consumed());
                assert(echo.accepted() == echo1.accepted());
            }
        }
        match r {
            Ok(()) => {},
            Err(e) => {
                proof {
                    if token == SIGNAL_TOKEN {
                        assert(tokens@.contains(tokens@[i as int]));
                    }
                }
                return LoopState::Terminated(e);
            },
        }
        i = i + 1;
    }
    proof {
        assert(tokens@.take(tokens@.len() as int) =~= tokens@);
    }
    LoopState::Running
}

/// A quit signal at the head of the pending signals ends the loop with
/// `SigBreak`, whatever follows it, and no geometry work comes before it.
pub proof fn lemma_quit_ends_loop(pending: Seq<i32>, cfg: SignalConfig)
    requires
        pending.len() > 0,
        action_of(pending[0], cfg) == SignalAction::Quit,
    ensures
        signal_verdict(pending, cfg) == Err::<(), ProcessEventError>(ProcessEventError::SigBreak),
        !resize_requested(pending, cfg),
{
}

/// A quit signal preceded only by signals the loop ignores ends the loop with
/// `SigBreak`, whatever follows it, and no geometry work comes before it.
pub proof fn lemma_quit_after_ignored(pending: Seq<i32>, cfg: SignalConfig, i: int)
    requires
        0 <= i < pending.len(),
        action_of(pending[i], cfg) == SignalAction::Quit,
        forall|j: int| 0 <= j < i ==> action_of(pending[j], cfg) == SignalAction::Ignore,
    ensures
        signal_verdict(pending, cfg) == Err::<(), ProcessEventError>(ProcessEventError::SigBreak),
        resize_count(pending, cfg) == 0,
    decreases i,
{
    if i > 0 {
        let rest = pending.drop_first();
        assert(action_of(pending[0], cfg) == SignalAction::Ignore);
        assert(rest[i - 1] == pending[i]);
        assert forall|j: int| 0 <= j < i - 1 implies action_of(rest[j], cfg)
            == SignalAction::Ignore by {
            assert(rest[j] == pending[j + 1]);
        }
        lemma_quit_after_ignored(rest, cfg, i - 1);
    }
}

/// When the pending signals hold a resize and nothing that ends the loop,
/// handling them pushes the host geometry to the PTY and the loop goes on.
pub proof fn lemma_resize_propagates(pending: Seq<i32>, cfg: SignalConfig)
    requires
        forall|i: int|
            0 <= i < pending.len() ==> action_of(pending[i], cfg) != SignalAction::Quit
                && action_of(pending[i], cfg) != SignalAction::ChildExit,
        exists|i: int| 0 <= i < pending.len() && action_of(pending[i], cfg) == SignalAction::Resize,
    ensures
        resize_requested(pending, cfg),
        signal_verdict(pending, cfg) == Ok::<(), ProcessEventError>(()),
    decreases pending.len(),
{
    lemma_no_stop_verdict(pending, cfg);
    if action_of(pending[0], cfg) != SignalAction::Resize {
        let rest = pending.drop_first();
        let k = choose|i: int|
            0 <= i < pending.len() && action_of(pending[i], cfg) == SignalAction::Resize;
        assert(k > 0);
        assert(rest[k - 1] == pending[k]);
        assert forall|i: int| 0 <= i < rest.len() implies action_of(rest[i], cfg)
            != SignalAction::Quit && action_of(rest[i], cfg) != SignalAction::ChildExit by {
            assert(rest[i] == pending[i + 1]);
        }
        lemma_resize_propagates(rest, cfg);
    }
}

proof fn lemma_no_stop_verdict(pending: Seq<i32>, cfg: SignalConfig)
    requires
        forall|i: int|
            0 <= i < pending.len() ==> action_of(pending[i], cfg) != SignalAction::Quit
                && action_of(pending[i], cfg) != SignalAction::ChildExit,
    ensures
        signal_verdict(pending, cfg) == Ok::<(), ProcessEventError>(()),
    decreases pending.len(),
{
    if pending.len() > 0 {
        let rest = pending.drop_first();
        assert forall|i: int| 0 <= i < rest.len() implies action_of(rest[i], cfg)
            != SignalAction::Quit && action_of(rest[i], cfg) != SignalAction::ChildExit by {
            assert(rest[i] == pending[i + 1]);
        }
        lemma_no_stop_verdict(rest, cfg);
    }
}

} // verus!
