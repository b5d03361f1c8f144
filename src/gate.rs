//! Readiness gate: buffers "open this file" requests until the frontend has
//! signalled that it is ready, then hands each request out exactly once.
//!
//! The startup state is a two-state machine {Buffering, Ready}. Every operation takes
//! `&mut self`, so a host that shares one gate between threads keeps it behind a
//! single lock; each operation is then one atomic transition of this machine.
use vstd::prelude::*;

verus! {

/// Abstract state of a gate: whether the frontend is ready, and the paths
/// waiting for it, oldest first.
pub struct GateModel {
    pub ready: bool,
    pub pending: Seq<Seq<char>>,
}

/// The states a gate can be in: once ready, nothing is left waiting.
pub open spec fn gate_wf(s: GateModel) -> bool {
    s.ready ==> s.pending.len() == 0
}

/// The state of a freshly created gate.
pub open spec fn initial_gate() -> GateModel {
    GateModel { ready: false, pending: Seq::empty() }
}

/// A request for `p`: delivered at once when ready, otherwise queued.
/// Returns the next state and the paths delivered by this step.
pub open spec fn submit_step(s: GateModel, p: Seq<char>) -> (GateModel, Seq<Seq<char>>) {
    if s.ready {
        (s, seq![p])
    } else {
        (GateModel { ready: false, pending: s.pending.push(p) }, Seq::empty())
    }
}

/// The frontend-ready signal: the first one flips the state to ready and delivers the
/// queue in order; any later one does nothing.
pub open spec fn flush_step(s: GateModel) -> (GateModel, Seq<Seq<char>>) {
    if s.ready {
        (s, Seq::empty())
    } else {
        (GateModel { ready: true, pending: Seq::empty() }, s.pending)
    }
}

/// One operation on a gate, as seen by the lock that serialises them.
pub enum GateOp {
    Submit(Seq<char>),
    Flush,
}

pub open spec fn op_step(s: GateModel, op: GateOp) -> (GateModel, Seq<Seq<char>>) {
    match op {
        GateOp::Submit(p) => submit_step(s, p),
        GateOp::Flush => flush_step(s),
    }
}

/// Runs `ops` in order from `s`: the final state, and every path delivered,
/// in delivery order.
pub open spec fn run_ops(s: GateModel, ops: Seq<GateOp>) -> (GateModel, Seq<Seq<char>>)
    decreases ops.len(),
{
    if ops.len() == 0 {
        (s, Seq::empty())
    } else {
        let prev = run_ops(s, ops.drop_last());
        let last = op_step(prev.0, ops.last());
        (last.0, prev.1 + last.1)
    }
}

/// The paths submitted by `ops`, in submission order.
pub open spec fn submitted(ops: Seq<GateOp>) -> Seq<Seq<char>>
    decreases ops.len(),
{
    if ops.len() == 0 {
        Seq::empty()
    } else {
        match ops.last() {
            GateOp::Submit(p) => submitted(ops.drop_last()).push(p),
            GateOp::Flush => submitted(ops.drop_last()),
        }
    }
}

/// Whether some operation of `ops` is a flush.
pub open spec fn has_flush(ops: Seq<GateOp>) -> bool {
    exists|i: int| 0 <= i < ops.len() && ops[i] is Flush
}

/// The startup state as an executable object. `ready` only ever goes from false to
/// true; `pending` is drained once, at that flip, and never refilled.
pub struct StartupState {
    ready: bool,
    pending: Vec<String>,
}

/// The paths that an optional immediate delivery stands for.
pub open spec fn delivered_now(r: Option<String>) -> Seq<Seq<char>> {
    match r {
        Some(p) => seq![p@],
        None => Seq::empty(),
    }
}

/// The paths of a list of deliveries.
pub open spec fn delivered_all(v: Seq<String>) -> Seq<Seq<char>> {
    v.map_values(|p: String| p@)
}

impl View for StartupState {
    type V = GateModel;

    closed spec fn view(&self) -> GateModel {
        GateModel { ready: self.ready, pending: delivered_all(self.pending@) }
    }
}

impl StartupState {
    #[verifier::type_invariant]
    spec fn inv(&self) -> bool {
        gate_wf(self@)
    }

    /// A gate that is not ready and holds no request.
    pub fn new() -> (r: StartupState)
        ensures
            r@ == initial_gate(),
            gate_wf(r@),
    {
        let r = StartupState { ready: false, pending: Vec::new() };
        assert(r@.pending =~= Seq::<Seq<char>>::empty());
        r
    }

    /// Whether the frontend has signalled that it is ready.
    pub fn is_ready(&self) -> (r: bool)
        ensures
            r == self@.ready,
            gate_wf(self@),
    {
        proof {
            use_type_invariant(self);
        }
        self.ready
    }

    /// Submits a request for `path`. When the startup state is ready the path comes back
    /// at once, for the caller to deliver; otherwise it is queued and `None`
    /// comes back.
    pub fn enqueue_or_emit(&mut self, path: &str) -> (r: Option<String>)
        ensures
            (final(self)@, delivered_now(r)) == submit_step(old(self)@, path@),
            r is Some <==> old(self)@.ready,
            r matches Some(p) ==> p@ == path@,
            gate_wf(old(self)@),
            gate_wf(final(self)@),
    {
        proof {
            use_type_invariant(&*self);
        }
        if self.ready {
            Some(path.to_string())
        } else {
            let p = path.to_string();
            let mut queue: Vec<String> = Vec::new();
            std::mem::swap(&mut queue, &mut self.pending);
            queue.push(p);
            proof {
                assert(delivered_all(queue@) =~= delivered_all(old(self).pending@).push(path@));
            }
            self.pending = queue;
            None
        }
    }

    /// Marks the frontend ready. The first call returns every queued path in
    /// submission order and leaves the queue empty for good; later calls
    /// return nothing.
    pub fn mark_ready_and_flush(&mut self) -> (r: Vec<String>)
        ensures
            (final(self)@, delivered_all(r@)) == flush_step(old(self)@),
            gate_wf(old(self)@),
            gate_wf(final(self)@),
            old(self)@.ready ==> r@.len() == 0 && final(self)@ == old(self)@
                && final(self)@.pending.len() == 0,
    {
        proof {
            use_type_invariant(&*self);
        }
        let mut out: Vec<String> = Vec::new();
        if !self.ready {
            std::mem::swap(&mut out, &mut self.pending);
            self.ready = true;
            assert(delivered_all(self.pending@) =~= Seq::<Seq<char>>::empty());
        } else {
            assert(delivered_all(out@) =~= Seq::<Seq<char>>::empty());
        }
        out
    }
}

impl Default for StartupState {
    fn default() -> (r: StartupState)
        ensures
            r@ == initial_gate(),
            gate_wf(r@),
    {
        StartupState::new()
    }
}

proof fn lemma_flush_keeps_ready(s: GateModel, ops: Seq<GateOp>)
    requires
        has_flush(ops),
    ensures
        run_ops(s, ops).0.ready,
    decreases ops.len(),
{
    let prev = ops.drop_last();
    if ops.last() is Flush {
    } else {
        let i = choose|i: int| 0 <= i < ops.len() && ops[i] is Flush;
        assert(prev[i] is Flush);
        lemma_flush_keeps_ready(s, prev);
    }
}

/// From any valid state, whatever operations run, the state stays valid, and
/// the paths delivered followed by the paths still waiting are exactly the
/// paths waiting at the start followed by every path submitted, in
/// submission order: none is lost, none is delivered twice, none overtakes
/// another.
pub proof fn lemma_run_delivers_in_order(s: GateModel, ops: Seq<GateOp>)
    requires
        gate_wf(s),
    ensures
        gate_wf(run_ops(s, ops).0),
        run_ops(s, ops).1 + run_ops(s, ops).0.pending == s.pending + submitted(ops),
    decreases ops.len(),
{
    if ops.len() > 0 {
        let prev_ops = ops.drop_last();
        lemma_run_delivers_in_order(s, prev_ops);
        let prev = run_ops(s, prev_ops);
        let last = op_step(prev.0, ops.last());
        match ops.last() {
            GateOp::Submit(p) => {
                if prev.0.ready {
                    assert(prev.1 + seq![p] + last.0.pending =~= (prev.1 + prev.0.pending).push(p));
                } else {
                    assert(prev.1 + last.0.pending =~= (prev.1 + prev.0.pending).push(p));
                }
                assert((s.pending + submitted(prev_ops)).push(p) =~= s.pending + submitted(ops));
            },
            GateOp::Flush => {
                if prev.0.ready {
                    assert(prev.1 + Seq::<Seq<char>>::empty() =~= prev.1);
                } else {
                    assert(prev.1 + prev.0.pending + last.0.pending =~= prev.1 + prev.0.pending);
                }
            },
        }
    }
}

/// Every request submitted to a fresh gate is delivered exactly once and in
/// submission order, however submits and ready signals interleave, as soon
/// as one ready signal has arrived; until then, nothing is lost either.
pub proof fn lemma_each_request_delivered_once(ops: Seq<GateOp>)
    ensures
        run_ops(initial_gate(), ops).1 + run_ops(initial_gate(), ops).0.pending == submitted(ops),
        has_flush(ops) ==> run_ops(initial_gate(), ops).1 == submitted(ops),
{
    lemma_run_delivers_in_order(initial_gate(), ops);
    assert(initial_gate().pending + submitted(ops) =~= submitted(ops));
    if has_flush(ops) {
        lemma_flush_keeps_ready(initial_gate(), ops);
        let r = run_ops(initial_gate(), ops);
        assert(r.1 + r.0.pending =~= r.1);
    }
}

/// The operations that submit each of `ps` in turn.
pub open spec fn submits_of(ps: Seq<Seq<char>>) -> Seq<GateOp> {
    Seq::new(ps.len(), |i: int| GateOp::Submit(ps[i]))
}

proof fn lemma_submits_of(ps: Seq<Seq<char>>)
    ensures
        submitted(submits_of(ps)) == ps,
        run_ops(initial_gate(), submits_of(ps)) == (
        GateModel { ready: false, pending: ps },
        Seq::<Seq<char>>::empty(),
        ),
    decreases ps.len(),
{
    if ps.len() > 0 {
        let prev = ps.drop_last();
        lemma_submits_of(prev);
        assert(submits_of(ps).drop_last() =~= submits_of(prev));
        assert(prev.push(ps.last()) =~= ps);
        assert(Seq::<Seq<char>>::empty() + Seq::<Seq<char>>::empty() =~= Seq::<
            Seq<char>,
        >::empty());
    } else {
        assert(submits_of(ps) =~= Seq::<GateOp>::empty());
        assert(ps =~= Seq::<Seq<char>>::empty());
    }
}

/// Paths submitted before the ready signal are not delivered on submission;
/// the signal then delivers each of them once, in submission order.
pub proof fn lemma_flush_delivers_buffered(ps: Seq<Seq<char>>)
    ensures
        run_ops(initial_gate(), submits_of(ps)).1 == Seq::<Seq<char>>::empty(),
        flush_step(run_ops(initial_gate(), submits_of(ps)).0).1 == ps,
        flush_step(run_ops(initial_gate(), submits_of(ps)).0).0.pending == Seq::<
            Seq<char>,
        >::empty(),
{
    lemma_submits_of(ps);
}

/// A second ready signal, from whichever thread, delivers nothing and
/// changes nothing.
pub proof fn lemma_flush_idempotent(s: GateModel)
    requires
        gate_wf(s),
    ensures
        flush_step(flush_step(s).0) == (flush_step(s).0, Seq::<Seq<char>>::empty()),
{
}

/// A submit racing with the ready signal is delivered exactly once, whichever
/// of the two the lock lets in first: either order delivers the waiting paths
/// and then `p`, and leaves nothing waiting.
pub proof fn lemma_submit_races_flush(s: GateModel, p: Seq<char>)
    requires
        gate_wf(s),
    ensures
        run_ops(s, seq![GateOp::Submit(p), GateOp::Flush]).1 == s.pending.push(p),
        run_ops(s, seq![GateOp::Flush, GateOp::Submit(p)]).1 == s.pending.push(p),
        run_ops(s, seq![GateOp::Submit(p), GateOp::Flush]).0.pending.len() == 0,
        run_ops(s, seq![GateOp::Flush, GateOp::Submit(p)]).0.pending.len() == 0,
{
    let a = seq![GateOp::Submit(p), GateOp::Flush];
    let b = seq![GateOp::Flush, GateOp::Submit(p)];
    assert(a.drop_last().drop_last() =~= Seq::<GateOp>::empty());
    assert(b.drop_last().drop_last() =~= Seq::<GateOp>::empty());
    assert(a.drop_last() =~= seq![GateOp::Submit(p)]);
    assert(b.drop_last() =~= seq![GateOp::Flush]);
    let e = Seq::<Seq<char>>::empty();
    reveal_with_fuel(run_ops, 3);
    if s.ready {
        assert(e + seq![p] + e =~= s.pending.push(p));
        assert(e + e + seq![p] =~= s.pending.push(p));
    } else {
        assert(e + e + s.pending.push(p) =~= s.pending.push(p));
        assert(e + s.pending + seq![p] =~= s.pending.push(p));
    }
}

} // verus!
