use vstd::prelude::*;

use crate::winsize::{WinSizeExt, WindowSize};

verus! {

/// Largest number of bytes moved per ready source in one wait cycle.
pub const CHUNK_SIZE: usize = 256;

/// Why a read, write or geometry call on a descriptor did not succeed.
#[derive(Clone, Copy, Debug, PartialEq, Eq, Structural)]
pub enum IoFailure {
    /// Non-blocking descriptor with nothing available (or no room) right now.
    WouldBlock,
    /// The call was interrupted by a signal before it did anything.
    Interrupted,
    /// Any other failure, with the operating system's error number.
    Os(i32),
    /// A failure that carries no operating-system error number.
    Other,
}

/// The bytes newly taken from a source (`src_before` grown to `src_after`)
/// were appended, unchanged and in order, to a sink (`dst_before` grown to
/// `dst_after`).
pub open spec fn relays(
    src_before: Seq<u8>,
    src_after: Seq<u8>,
    dst_before: Seq<u8>,
    dst_after: Seq<u8>,
) -> bool {
    &&& src_before.is_prefix_of(src_after)
    &&& dst_after == dst_before + src_after.skip(src_before.len() as int)
}

/// A byte device of the data plane: the host terminal or the PTY master.
pub trait Term {
    /// Reads at most `max` bytes that are available now.
    fn read_chunk(&mut self, max: usize) -> (r: Result<Vec<u8>, IoFailure>)
        ensures
            r matches Ok(bytes) ==> bytes@.len() <= max,
    ;

    /// Writes a prefix of `data`, returning how many bytes it took.
    fn write(&mut self, data: &[u8]) -> (r: Result<usize, IoFailure>)
        ensures
            r matches Ok(n) ==> n <= data@.len(),
    ;
}

/// A failure that only means "no progress now": the data stays queued.
pub open spec fn blocked(e: IoFailure) -> bool {
    e == IoFailure::WouldBlock || e == IoFailure::Interrupted
}

/// A write outcome that ends the session.
pub open spec fn hard_failure(w: Result<usize, IoFailure>) -> bool {
    match w {
        Ok(_) => false,
        Err(e) => !blocked(e),
    }
}

/// A write outcome after which the device takes no more for now.
pub open spec fn stalled(w: Result<usize, IoFailure>) -> bool {
    match w {
        Ok(n) => n == 0,
        Err(e) => blocked(e),
    }
}

/// A device together with the bytes accepted for it but not yet written
/// (`backlog`) and the record of what went through it: `consumed` is every
/// byte read from it, `produced` every byte it took, and `reads` (with the
/// size asked for), `writes`, `queries`, `updates` log each call made on the
/// device with the outcome it returned.
pub struct Endpoint<D> {
    device: D,
    backlog: Vec<u8>,
    consumed: Ghost<Seq<u8>>,
    produced: Ghost<Seq<u8>>,
    reads: Ghost<Seq<(usize, Result<Seq<u8>, IoFailure>)>>,
    writes: Ghost<Seq<(Seq<u8>, Result<usize, IoFailure>)>>,
    queries: Ghost<Seq<Result<WindowSize, IoFailure>>>,
    updates: Ghost<Seq<(WindowSize, Result<(), IoFailure>)>>,
}

/// The logged form of a read's outcome.
pub open spec fn read_record(r: Result<Vec<u8>, IoFailure>) -> Result<Seq<u8>, IoFailure> {
    match r {
        Ok(bytes) => Ok(bytes@),
        Err(e) => Err(e),
    }
}

impl<D> Endpoint<D> {
    pub closed spec fn consumed(&self) -> Seq<u8> {
        self.consumed@
    }

    pub closed spec fn produced(&self) -> Seq<u8> {
        self.produced@
    }

    pub closed spec fn backlog(&self) -> Seq<u8> {
        self.backlog@
    }

    pub closed spec fn reads(&self) -> Seq<(usize, Result<Seq<u8>, IoFailure>)> {
        self.reads@
    }

    pub closed spec fn writes(&self) -> Seq<(Seq<u8>, Result<usize, IoFailure>)> {
        self.writes@
    }

    pub closed spec fn queries(&self) -> Seq<Result<WindowSize, IoFailure>> {
        self.queries@
    }

    pub closed spec fn updates(&self) -> Seq<(WindowSize, Result<(), IoFailure>)> {
        self.updates@
    }

    pub closed spec fn inner(&self) -> D {
        self.device
    }

    /// Every byte handed to the endpoint for writing, in order: those the
    /// device took, then those still queued.
    pub open spec fn accepted(&self) -> Seq<u8> {
        self.produced() + self.backlog()
    }

    /// The write log of `self` extends that of `before`.
    pub open spec fn writes_extend(&self, before: &Self) -> bool {
        &&& self.writes().len() >= before.writes().len()
        &&& self.writes().take(before.writes().len() as int) == before.writes()
    }

    /// After writing from `before`: the backlog is empty, or the device took
    /// no more for now.
    pub open spec fn drained(&self, before: &Self) -> bool {
        ||| self.backlog().len() == 0
        ||| (self.writes().len() > before.writes().len() && stalled(self.writes().last().1))
    }

    /// The byte side of the record is the same in `self` and `other`.
    pub open spec fn same_streams(&self, other: &Self) -> bool {
        &&& self.consumed() == other.consumed()
        &&& self.produced() == other.produced()
        &&& self.backlog() == other.backlog()
        &&& self.reads() == other.reads()
        &&& self.writes() == other.writes()
    }

    /// The geometry side of the record is the same in `self` and `other`.
    pub open spec fn same_geometry(&self, other: &Self) -> bool {
        &&& self.queries() == other.queries()
        &&& self.updates() == other.updates()
    }

    /// Starts the record of `device` with nothing read, written or exchanged.
    pub fn new(device: D) -> (r: Endpoint<D>)
        ensures
            r.inner() == device,
            r.consumed() == Seq::<u8>::empty(),
            r.produced() == Seq::<u8>::empty(),
            r.backlog() == Seq::<u8>::empty(),
            r.reads() == Seq::<(usize, Result<Seq<u8>, IoFailure>)>::empty(),
            r.writes() == Seq::<(Seq<u8>, Result<usize, IoFailure>)>::empty(),
            r.queries() == Seq::<Result<WindowSize, IoFailure>>::empty(),
            r.updates() == Seq::<(WindowSize, Result<(), IoFailure>)>::empty(),
    {
        Endpoint {
            device,
            backlog: Vec::new(),
            consumed: Ghost(Seq::empty()),
            produced: Ghost(Seq::empty()),
            reads: Ghost(Seq::empty()),
            writes: Ghost(Seq::empty()),
            queries: Ghost(Seq::empty()),
            updates: Ghost(Seq::empty()),
        }
    }

    /// The device behind the endpoint.
    pub fn device(&self) -> (r: &D)
        ensures
            *r == self.inner(),
    {
        &self.device
    }

    /// How many accepted bytes still wait to be written.
    pub fn queued(&self) -> (r: usize)
        ensures
            r == self.backlog().len(),
    {
        self.backlog.len()
    }
}

impl<D: Term> Endpoint<D> {
    /// Reads at most `max` bytes, logging the request and its outcome and
    /// recording the bytes as consumed.
    pub fn read_chunk(&mut self, max: usize) -> (r: Result<Vec<u8>, IoFailure>)
        ensures
            final(self).reads() == old(self).reads().push((max, read_record(r))),
            final(self).produced() == old(self).produced(),
            final(self).backlog() == old(self).backlog(),
            final(self).writes() == old(self).writes(),
            final(self).same_geometry(old(self)),
            match r {
                Ok(bytes) => {
                    &&& bytes@.len() <= max
                    &&& final(self).consumed() == old(self).consumed() + bytes@
                },
                Err(_) => final(self).consumed() == old(self).consumed(),
            },
    {
        let r = self.device.read_chunk(max);
        let ghost rec = read_record(r);
        match &r {
            Ok(bytes) => {
                self.consumed = Ghost(self.consumed@ + bytes@);
            },
            Err(_) => {},
        }
        self.reads = Ghost(self.reads@.push((max, rec)));
        r
    }

    /// Writes queued bytes until the backlog is empty or the device takes no
    /// more for now. Only a failure other than would-block or interruption is
    /// returned; what was not written stays queued, in order.
    pub fn flush(&mut self) -> (r: Result<(), IoFailure>)
        ensures
            final(self).accepted() == old(self).accepted(),
            final(self).produced().len() >= old(self).produced().len(),
            final(self).writes_extend(old(self)),
            final(self).consumed() == old(self).consumed(),
            final(self).reads() == old(self).reads(),
            final(self).same_geometry(old(self)),
            old(self).backlog().len() == 0 ==> *final(self) == *old(self),
            match r {
                Ok(()) => {
                    &&& final(self).drained(old(self))
                    &&& final(self).writes().len() > old(self).writes().len() ==> !hard_failure(
                        final(self).writes().last().1,
                    )
                },
                Err(e) => {
                    &&& !blocked(e)
                    &&& final(self).writes().len() > old(self).writes().len()
                    &&& final(self).writes().last().1 == Err::<usize, IoFailure>(e)
                },
            },
    {
        let ghost s0 = *self;
        proof {
            assert(self.writes@.take(self.writes@.len() as int) =~= self.writes@);
        }
        while self.backlog.len() > 0
            invariant
                self.accepted() == s0.accepted(),
                self.produced().len() >= s0.produced().len(),
                self.writes_extend(&s0),
                self.consumed() == s0.consumed(),
                self.reads() == s0.reads(),
                self.same_geometry(&s0),
                s0.backlog().len() == 0 ==> *self == s0,
                s0 == *old(self),
                self.writes().len() > s0.writes().len() ==> !hard_failure(self.writes().last().1),
            decreases self.backlog.len(),
        {
            let ghost data = self.backlog@;
            let ghost wl = self.writes@;
            let w = self.device.write(self.backlog.as_slice());
            self.writes = Ghost(self.writes@.push((data, w)));
            proof {
                assert(self.writes@.take(s0.writes().len() as int) =~= wl.take(
                    s0.writes().len() as int,
                ));
            }
            match w {
                Ok(n) => {
                    if n == 0 {
                        return Ok(());
                    }
                    let rest = self.backlog.split_off(n);
                    proof {
                        assert(data =~= self.backlog@ + rest@);
                        assert(self.produced@ + data =~= (self.produced@ + self.backlog@)
                            + rest@);
                    }
                    self.produced = Ghost(self.produced@ + self.backlog@);
                    self.backlog = rest;
                },
                Err(e) => {
                    match e {
                        IoFailure::WouldBlock => {
                            return Ok(());
                        },
                        IoFailure::Interrupted => {
                            return Ok(());
                        },
                        _ => {
                            return Err(e);
                        },
                    }
                },
            }
        }
        Ok(())
    }

    /// Accepts `data` behind whatever is queued, then writes as much as the
    /// device takes now.
    pub fn send(&mut self, data: &[u8]) -> (r: Result<(), IoFailure>)
        ensures
            final(self).accepted() == old(self).accepted() + data@,
            final(self).produced().len() >= old(self).produced().len(),
            final(self).writes_extend(old(self)),
            final(self).consumed() == old(self).consumed(),
            final(self).reads() == old(self).reads(),
            final(self).same_geometry(old(self)),
            match r {
                Ok(()) => {
                    &&& final(self).drained(old(self))
                    &&& final(self).writes().len() > old(self).writes().len() ==> !hard_failure(
                        final(self).writes().last().1,
                    )
                },
                Err(e) => {
                    &&& !blocked(e)
                    &&& final(self).writes().len() > old(self).writes().len()
                    &&& final(self).writes().last().1 == Err::<usize, IoFailure>(e)
                },
            },
    {
        let mut extra: Vec<u8> = Vec::new();
        let mut i: usize = 0;
        while i < data.len()
            invariant
                0 <= i <= data@.len(),
                extra@ == data@.take(i as int),
            decreases data@.len() - i,
        {
            extra.push(data[i]);
            i = i + 1;
            proof {
                assert(extra@ =~= data@.take(i as int));
            }
        }
        proof {
            assert(data@.take(data@.len() as int) =~= data@);
        }
        self.backlog.append(&mut extra);
        proof {
            assert(self.produced@ + self.backlog@ =~= (self.produced@ + old(self).backlog@)
                + data@);
        }
        self.flush()
    }
}

impl<D: WinSizeExt> Endpoint<D> {
    /// Reads the device's geometry, logging the outcome.
    pub fn get_term_size(&mut self) -> (r: Result<WindowSize, IoFailure>)
        ensures
            final(self).queries() == old(self).queries().push(r),
            final(self).updates() == old(self).updates(),
            final(self).same_streams(old(self)),
    {
        let r = self.device.get_term_size();
        self.queries = Ghost(self.queries@.push(r));
        r
    }

    /// Sets the device's geometry to `win`, logging the attempt.
    pub fn set_term_size(&mut self, win: &WindowSize) -> (r: Result<(), IoFailure>)
        ensures
            final(self).updates() == old(self).updates().push((*win, r)),
            final(self).queries() == old(self).queries(),
            final(self).same_streams(old(self)),
    {
        let r = self.device.set_term_size(win);
        self.updates = Ghost(self.updates@.push((*win, r)));
        r
    }
}

/// The result one transfer owes, read off the logs: the length of the chunk
/// read unless writing failed for good, nothing moved on a would-block read,
/// and otherwise the read's failure.
pub open spec fn transfer_result<S, W>(
    src: Endpoint<S>,
    dst0: Endpoint<W>,
    dst1: Endpoint<W>,
) -> Result<usize, IoFailure> {
    match src.reads().last().1 {
        Ok(d) => if dst1.writes().len() > dst0.writes().len() && hard_failure(
            dst1.writes().last().1,
        ) {
            Err(dst1.writes().last().1->Err_0)
        } else {
            Ok(d.len() as usize)
        },
        Err(IoFailure::WouldBlock) => Ok(0),
        Err(e) => Err(e),
    }
}

/// One transfer from `src` to `dst` (before: `src0`, `dst0`; after: `src1`,
/// `dst1`): exactly one read asking for one chunk; when it gave bytes, they
/// are accepted by `dst` behind what it had queued, and written as far as the
/// device takes them; when it failed, `dst` is not touched.
pub open spec fn transferred<S, W>(
    src0: Endpoint<S>,
    src1: Endpoint<S>,
    dst0: Endpoint<W>,
    dst1: Endpoint<W>,
) -> bool {
    &&& src1.reads() == src0.reads().push((CHUNK_SIZE, src1.reads().last().1))
    &&& src1.writes() == src0.writes()
    &&& src1.produced() == src0.produced()
    &&& src1.backlog() == src0.backlog()
    &&& src1.same_geometry(&src0)
    &&& dst1.reads() == dst0.reads()
    &&& dst1.consumed() == dst0.consumed()
    &&& dst1.same_geometry(&dst0)
    &&& match src1.reads().last().1 {
        Ok(d) => {
            &&& d.len() <= CHUNK_SIZE
            &&& src1.consumed() == src0.consumed() + d
            &&& dst1.accepted() == dst0.accepted() + d
            &&& dst1.produced().len() >= dst0.produced().len()
            &&& dst1.writes_extend(&dst0)
            &&& !(dst1.writes().len() > dst0.writes().len() && hard_failure(
                dst1.writes().last().1,
            )) ==> dst1.drained(&dst0)
        },
        Err(_) => {
            &&& src1.consumed() == src0.consumed()
            &&& dst1.same_streams(&dst0)
        },
    }
}

/// Moves one chunk read from `src` into `other`. Nothing available, or a
/// device that takes nothing now, is no failure.
pub fn forward_inputs<S: Term, W: Term>(src: &mut Endpoint<S>, other: &mut Endpoint<W>) -> (r:
    Result<(), IoFailure>)
    ensures
        transferred(*old(src), *final(src), *old(other), *final(other)),
        r == match transfer_result(*final(src), *old(other), *final(other)) {
            Ok(_) => Ok::<(), IoFailure>(()),
            Err(e) => Err(e),
        },
        relays(old(src).consumed(), final(src).consumed(), old(other).accepted(), final(other).accepted()),
{
    let ghost before = src.consumed();
    let ghost out_before = other.accepted();
    let got = src.read_chunk(CHUNK_SIZE);
    proof {
        lemma_fresh_bytes(before, src.consumed(), got, out_before);
    }
    match deliver(got, other) {
        Ok(_) => Ok(()),
        Err(e) => Err(e),
    }
}

/// Moves one chunk read from `other` into `dst`, returning its length.
/// Nothing available counts as zero bytes moved.
pub fn gather_outputs<S: Term, R: Term>(dst: &mut Endpoint<S>, other: &mut Endpoint<R>) -> (r:
    Result<usize, IoFailure>)
    ensures
        transferred(*old(other), *final(other), *old(dst), *final(dst)),
        r == transfer_result(*final(other), *old(dst), *final(dst)),
        r matches Ok(n) ==> n <= CHUNK_SIZE,
        relays(old(other).consumed(), final(other).consumed(), old(dst).accepted(), final(dst).accepted()),
{
    let ghost before = other.consumed();
    let ghost out_before = dst.accepted();
    let got = other.read_chunk(CHUNK_SIZE);
    proof {
        lemma_fresh_bytes(before, other.consumed(), got, out_before);
    }
    deliver(got, dst)
}

/// What a read appended is exactly what `skip` past the old history yields.
proof fn lemma_fresh_bytes(
    before: Seq<u8>,
    after: Seq<u8>,
    got: Result<Vec<u8>, IoFailure>,
    out: Seq<u8>,
)
    requires
        match got {
            Ok(bytes) => after == before + bytes@,
            Err(_) => after == before,
        },
    ensures
        before.is_prefix_of(after),
        match got {
            Ok(bytes) => after.skip(before.len() as int) == bytes@,
            Err(_) => after.skip(before.len() as int) == Seq::<u8>::empty() && out + after.skip(
                before.len() as int,
            ) == out,
        },
{
    match got {
        Ok(bytes) => {
            assert(after.skip(before.len() as int) =~= bytes@);
            assert(after.take(before.len() as int) =~= before);
        },
        Err(_) => {
            assert(after.skip(before.len() as int) =~= Seq::<u8>::empty());
            assert(out + Seq::<u8>::empty() =~= out);
            assert(after.take(before.len() as int) =~= before);
        },
    }
}

/// Relaying is kept across cycles: chunks moved one cycle after another
/// arrive unchanged and in order, as if moved in one go.
pub proof fn lemma_relays_compose(
    s0: Seq<u8>,
    s1: Seq<u8>,
    s2: Seq<u8>,
    d0: Seq<u8>,
    d1: Seq<u8>,
    d2: Seq<u8>,
)
    requires
        relays(s0, s1, d0, d1),
        relays(s1, s2, d1, d2),
    ensures
        relays(s0, s2, d0, d2),
{
    assert(s2.take(s1.len() as int) =~= s1);
    assert(s2.take(s0.len() as int) =~= s0) by {
        assert(s1.take(s0.len() as int) =~= s0);
        assert forall|i: int| 0 <= i < s0.len() implies s2[i] == s0[i] by {
            assert(s2[i] == s1[i]);
        }
    }
    assert(s2.skip(s0.len() as int) =~= s1.skip(s0.len() as int) + s2.skip(s1.len() as int));
    assert(d2 =~= d0 + s2.skip(s0.len() as int));
}

/// Moving nothing relays nothing.
pub proof fn lemma_relays_none(src: Seq<u8>, dst: Seq<u8>)
    ensures
        relays(src, src, dst, dst),
{
    assert(src.skip(src.len() as int) =~= Seq::<u8>::empty());
    assert(dst + Seq::<u8>::empty() =~= dst);
    assert(src.take(src.len() as int) =~= src);
}

/// With a child that echoes what it is sent, the bytes the host output has
/// taken since the session began are a prefix of the bytes typed on the host
/// input: nothing is reordered, altered or invented on the way, and whatever
/// is still queued follows in order.
pub proof fn lemma_echo_round_trip(
    typed: Seq<u8>,
    to_child: Seq<u8>,
    from_child: Seq<u8>,
    host_accepted: Seq<u8>,
    shown: Seq<u8>,
)
    requires
        relays(Seq::empty(), typed, Seq::empty(), to_child),
        from_child.is_prefix_of(to_child),
        relays(Seq::empty(), from_child, Seq::empty(), host_accepted),
        shown.is_prefix_of(host_accepted),
    ensures
        shown.is_prefix_of(typed),
{
    assert(to_child =~= typed);
    assert(host_accepted =~= from_child);
}

/// Hands the outcome of a read to `dest`: bytes are accepted and written as
/// far as the device takes them, a would-block read means zero bytes moved,
/// any other read failure is returned untouched.
pub fn deliver<W: Term>(got: Result<Vec<u8>, IoFailure>, dest: &mut Endpoint<W>) -> (r: Result<
    usize,
    IoFailure,
>)
    ensures
        match got {
            Ok(bytes) => {
                &&& final(dest).accepted() == old(dest).accepted() + bytes@
                &&& final(dest).produced().len() >= old(dest).produced().len()
                &&& final(dest).writes_extend(old(dest))
                &&& final(dest).reads() == old(dest).reads()
                &&& final(dest).consumed() == old(dest).consumed()
                &&& final(dest).same_geometry(old(dest))
                &&& if final(dest).writes().len() > old(dest).writes().len() && hard_failure(
                    final(dest).writes().last().1,
                ) {
                    r == Err::<usize, IoFailure>(final(dest).writes().last().1->Err_0)
                } else {
                    &&& r == Ok::<usize, IoFailure>(bytes@.len() as usize)
                    &&& final(dest).drained(old(dest))
                }
            },
            Err(IoFailure::WouldBlock) => {
                &&& r == Ok::<usize, IoFailure>(0)
                &&& *final(dest) == *old(dest)
            },
            Err(e) => {
                &&& r == Err::<usize, IoFailure>(e)
                &&& *final(dest) == *old(dest)
            },
        },
{
    match got {
        Ok(bytes) => match dest.send(bytes.as_slice()) {
            Ok(()) => Ok(bytes.len()),
            Err(e) => Err(e),
        },
        Err(IoFailure::WouldBlock) => Ok(0),
        Err(e) => Err(e),
    }
}

} // verus!
