use vstd::prelude::*;

use nix::sys::termios::{LocalFlags, Termios};

verus! {

/// nix's terminal attribute set, carried through unopened.
#[verifier::external_type_specification]
#[verifier::external_body]
pub struct ExTermios(Termios);

/// The local-mode flag word of a terminal attribute set, with the masks of
/// the echo and canonical-input modes within it.
#[derive(Clone, Copy, Debug, PartialEq, Eq, Structural)]
pub struct LocalModes {
    pub flags: u32,
    pub echo: u32,
    pub canonical: u32,
}

impl LocalModes {
    /// Input is delivered byte by byte and not echoed back.
    pub open spec fn is_raw(self) -> bool {
        &&& self.flags & self.echo == 0
        &&& self.flags & self.canonical == 0
    }
}

/// Relies on nix::sys::termios::cfmakeraw, documented to make input
/// available character by character with echoing disabled: the copy of
/// `attrs` it returns has the ECHO and ICANON local modes (nix's
/// `LocalFlags`, non-zero masks) cleared.
#[verifier::external_body]
fn make_raw(attrs: &Termios) -> (r: (Termios, LocalModes))
    ensures
        r.1.is_raw(),
        r.1.echo != 0,
        r.1.canonical != 0,
{
    let mut raw = attrs.clone();
    nix::sys::termios::cfmakeraw(&mut raw);
    let modes = LocalModes {
        flags: raw.local_flags.bits() as u32,
        echo: LocalFlags::ECHO.bits() as u32,
        canonical: LocalFlags::ICANON.bits() as u32,
    };
    (raw, modes)
}

/// The snapshot a raw-mode acquisition keeps: the terminal attributes and the
/// descriptor status flags as they were before raw mode was applied.
///
/// The guard cannot be copied or cloned, and `release` consumes it, so each
/// snapshot is given back exactly once.
pub struct RawModeGuard<A> {
    attrs: A,
    flags: i32,
}

/// The guard that an acquisition over `attrs` and `flags` yields.
pub closed spec fn snapshot<A>(attrs: A, flags: i32) -> RawModeGuard<A> {
    RawModeGuard { attrs, flags }
}

/// The attributes and flags that releasing `g` puts back.
pub closed spec fn restored<A>(g: RawModeGuard<A>) -> (A, i32) {
    (g.attrs, g.flags)
}

/// Descriptor flags with the non-blocking bit `nonblock` added.
pub open spec fn nonblocking_flags(flags: i32, nonblock: i32) -> i32 {
    flags | nonblock
}

/// Adds the non-blocking bit `nonblock` to descriptor flags `flags`.
pub fn with_nonblocking(flags: i32, nonblock: i32) -> (r: i32)
    ensures
        r == nonblocking_flags(flags, nonblock),
{
    flags | nonblock
}

impl<A> RawModeGuard<A> {
    /// Takes the snapshot of `attrs` and `flags` (read from the descriptor
    /// before any change) and returns it with the descriptor flags to apply:
    /// the same flags plus the non-blocking bit `nonblock`.
    pub fn acquire(attrs: A, flags: i32, nonblock: i32) -> (r: (RawModeGuard<A>, i32))
        ensures
            r.0 == snapshot(attrs, flags),
            r.1 == nonblocking_flags(flags, nonblock),
    {
        (RawModeGuard { attrs, flags }, with_nonblocking(flags, nonblock))
    }

    /// Gives back the attributes and flags to re-apply, consuming the guard.
    pub fn release(self) -> (r: (A, i32))
        ensures
            r == restored(self),
    {
        (self.attrs, self.flags)
    }

    /// The descriptor flags the snapshot holds.
    pub fn saved_flags(&self) -> (r: i32)
        ensures
            r == restored(*self).1,
    {
        self.flags
    }
}

/// Enters raw mode on a snapshot read from the host input: returns the guard
/// holding `attrs` and `flags`, the raw attribute set to apply with a view of
/// its local modes (echo and canonical input off), and the descriptor flags
/// to apply (the old ones plus the non-blocking bit).
pub fn enter_raw_mode(attrs: Termios, flags: i32, nonblock: i32) -> (r: (
    RawModeGuard<Termios>,
    Termios,
    LocalModes,
    i32,
))
    ensures
        r.0 == snapshot(attrs, flags),
        r.2.is_raw(),
        r.2.echo != 0,
        r.2.canonical != 0,
        r.3 == nonblocking_flags(flags, nonblock),
{
    let (raw, modes) = make_raw(&attrs);
    let (guard, raw_flags) = RawModeGuard::acquire(attrs, flags, nonblock);
    (guard, raw, modes, raw_flags)
}

/// Acquiring raw mode and then releasing it, on any path, hands back exactly
/// the attributes and flags that were in force before.
pub proof fn lemma_release_restores<A>(attrs: A, flags: i32)
    ensures
        restored(snapshot(attrs, flags)) == (attrs, flags),
{
}

/// What `k` successive acquire-and-release rounds, starting from `attrs` and
/// `flags`, leave in force.
pub open spec fn after_rounds<A>(attrs: A, flags: i32, k: nat) -> (A, i32)
    decreases k,
{
    if k == 0 {
        (attrs, flags)
    } else {
        let prev = after_rounds(attrs, flags, (k - 1) as nat);
        restored(snapshot(prev.0, prev.1))
    }
}

/// Repeating acquire and release any number of times changes nothing.
pub proof fn lemma_rounds_restore<A>(attrs: A, flags: i32, k: nat)
    ensures
        after_rounds(attrs, flags, k) == (attrs, flags),
    decreases k,
{
    if k > 0 {
        lemma_rounds_restore(attrs, flags, (k - 1) as nat);
        lemma_release_restores(attrs, flags);
    }
}

} // verus!
