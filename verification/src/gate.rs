//! The descriptor-lifecycle gate.
//!
//! Each connection descriptor is shared between a reader, a writer and the
//! owner that eventually closes it. Exclusive access during each read or write
//! attempt, and close-after-quiescence, are modelled as a small transition
//! system: an operation must be enabled before it is applied. The laws below
//! state that every admissible history closes the descriptor at most once and
//! only once no read or write is in flight.

use vstd::prelude::*;

verus! {

/// The lifecycle state of one I/O descriptor.
#[derive(Clone, Copy, PartialEq, Eq, Structural, Debug)]
pub struct DescriptorGate {
    /// The descriptor has not been closed.
    pub open: bool,
    /// A read attempt holds the descriptor.
    pub reading: bool,
    /// A write attempt holds the descriptor.
    pub writing: bool,
    /// How many times the descriptor was closed.
    pub closes: u32,
}

/// The operations on a descriptor.
#[derive(Clone, Copy, PartialEq, Eq, Structural, Debug)]
pub enum GateOp {
    BeginRead,
    EndRead,
    BeginWrite,
    EndWrite,
    Close,
}

impl DescriptorGate {
    /// Every reachable gate state: at most one close, none while open, and no
    /// I/O in flight on a closed descriptor.
    pub open spec fn wf(self) -> bool {
        &&& self.closes <= 1
        &&& (self.open ==> self.closes == 0)
        &&& (!self.open ==> !self.reading && !self.writing)
    }

    /// Whether `op` may be applied in this state.
    pub open spec fn enabled(self, op: GateOp) -> bool {
        match op {
            GateOp::BeginRead => self.open && !self.reading,
            GateOp::EndRead => self.reading,
            GateOp::BeginWrite => self.open && !self.writing,
            GateOp::EndWrite => self.writing,
            GateOp::Close => self.open && !self.reading && !self.writing,
        }
    }

    /// The state after `op`.
    pub open spec fn step(self, op: GateOp) -> DescriptorGate {
        match op {
            GateOp::BeginRead => DescriptorGate { reading: true, ..self },
            GateOp::EndRead => DescriptorGate { reading: false, ..self },
            GateOp::BeginWrite => DescriptorGate { writing: true, ..self },
            GateOp::EndWrite => DescriptorGate { writing: false, ..self },
            GateOp::Close => DescriptorGate {
                open: false,
                reading: false,
                writing: false,
                closes: (self.closes + 1) as u32,
            },
        }
    }

    /// A gate for a freshly created descriptor.
    pub fn new() -> (g: DescriptorGate)
        ensures
            g == (DescriptorGate { open: true, reading: false, writing: false, closes: 0 }),
            g.wf(),
    {
        DescriptorGate { open: true, reading: false, writing: false, closes: 0 }
    }

    /// Acquires the descriptor for one read attempt.
    pub fn begin_read(&mut self)
        requires
            old(self).enabled(GateOp::BeginRead),
        ensures
            *final(self) == old(self).step(GateOp::BeginRead),
    {
        self.reading = true;
    }

    /// Releases the descriptor after one read attempt.
    pub fn end_read(&mut self)
        requires
            old(self).enabled(GateOp::EndRead),
        ensures
            *final(self) == old(self).step(GateOp::EndRead),
    {
        self.reading = false;
    }

    /// Acquires the descriptor for one write attempt.
    pub fn begin_write(&mut self)
        requires
            old(self).enabled(GateOp::BeginWrite),
        ensures
            *final(self) == old(self).step(GateOp::BeginWrite),
    {
        self.writing = true;
    }

    /// Releases the descriptor after one write attempt.
    pub fn end_write(&mut self)
        requires
            old(self).enabled(GateOp::EndWrite),
        ensures
            *final(self) == old(self).step(GateOp::EndWrite),
    {
        self.writing = false;
    }

    /// Whether the descriptor may be closed now.
    pub fn can_close(&self) -> (b: bool)
        ensures
            b == self.enabled(GateOp::Close),
    {
        self.open && !self.reading && !self.writing
    }

    /// Closes the descriptor.
    pub fn close(&mut self)
        requires
            old(self).enabled(GateOp::Close),
            old(self).wf(),
        ensures
            *final(self) == old(self).step(GateOp::Close),
            final(self).closes == 1,
            !final(self).open,
    {
        self.open = false;
        self.reading = false;
        self.writing = false;
        self.closes = self.closes + 1;
    }
}

/// Runs a history of operations; `None` when some operation was not enabled.
pub open spec fn run(g: DescriptorGate, ops: Seq<GateOp>) -> Option<DescriptorGate>
    decreases ops.len(),
{
    if ops.len() == 0 {
        Some(g)
    } else if g.enabled(ops[0]) {
        run(g.step(ops[0]), ops.drop_first())
    } else {
        None
    }
}

/// How many closes a history holds.
pub open spec fn count_closes(ops: Seq<GateOp>) -> nat
    decreases ops.len(),
{
    if ops.len() == 0 {
        0
    } else {
        (if ops[0] is Close {
            1nat
        } else {
            0nat
        }) + count_closes(ops.drop_first())
    }
}

/// Every step from a well-formed state stays well-formed.
pub proof fn lemma_step_preserves_wf(g: DescriptorGate, op: GateOp)
    requires
        g.wf(),
        g.enabled(op),
    ensures
        g.step(op).wf(),
{
}

/// Every admissible history of a well-formed gate closes the descriptor at
/// most once, however reads, writes and the close interleave.
pub proof fn lemma_close_at_most_once(g: DescriptorGate, ops: Seq<GateOp>)
    requires
        g.wf(),
        run(g, ops) is Some,
    ensures
        count_closes(ops) + g.closes <= 1,
        run(g, ops).unwrap().wf(),
    decreases ops.len(),
{
    if ops.len() > 0 {
        lemma_step_preserves_wf(g, ops[0]);
        lemma_close_at_most_once(g.step(ops[0]), ops.drop_first());
    }
}

/// While a write attempt holds the descriptor, no admissible history closes
/// it before the write has released it: the close happens-after the write.
pub proof fn lemma_close_after_write_release(g: DescriptorGate, ops: Seq<GateOp>, i: int)
    requires
        g.writing,
        run(g, ops) is Some,
        0 <= i < ops.len(),
        ops[i] is Close,
    ensures
        exists|j: int| 0 <= j < i && ops[j] is EndWrite,
    decreases ops.len(),
{
    assert(g.enabled(ops[0]));
    if i == 0 {
        assert(!g.enabled(GateOp::Close));
    } else {
        if ops[0] is EndWrite {
            assert(0 <= 0 < i && ops[0] is EndWrite);
        } else {
            assert(g.step(ops[0]).writing);
            lemma_close_after_write_release(g.step(ops[0]), ops.drop_first(), i - 1);
            let j = choose|j: int| 0 <= j < i - 1 && ops.drop_first()[j] is EndWrite;
            assert(ops[j + 1] is EndWrite);
        }
    }
}

/// While a read attempt holds the descriptor, no admissible history closes it
/// before the read has released it: the close happens-after the read.
pub proof fn lemma_close_after_read_release(g: DescriptorGate, ops: Seq<GateOp>, i: int)
    requires
        g.reading,
        run(g, ops) is Some,
        0 <= i < ops.len(),
        ops[i] is Close,
    ensures
        exists|j: int| 0 <= j < i && ops[j] is EndRead,
    decreases ops.len(),
{
    assert(g.enabled(ops[0]));
    if i == 0 {
        assert(!g.enabled(GateOp::Close));
    } else {
        if ops[0] is EndRead {
            assert(0 <= 0 < i && ops[0] is EndRead);
        } else {
            assert(g.step(ops[0]).reading);
            lemma_close_after_read_release(g.step(ops[0]), ops.drop_first(), i - 1);
            let j = choose|j: int| 0 <= j < i - 1 && ops.drop_first()[j] is EndRead;
            assert(ops[j + 1] is EndRead);
        }
    }
}

/// Under a concurrent read and write, any admissible history that closes the
/// descriptor releases both directions first, and still closes only once.
pub proof fn lemma_concurrent_io_close(g: DescriptorGate, ops: Seq<GateOp>, i: int)
    requires
        g.wf(),
        g.reading,
        g.writing,
        run(g, ops) is Some,
        0 <= i < ops.len(),
        ops[i] is Close,
    ensures
        exists|j: int| 0 <= j < i && ops[j] is EndRead,
        exists|j: int| 0 <= j < i && ops[j] is EndWrite,
        count_closes(ops) + g.closes <= 1,
{
    lemma_close_after_read_release(g, ops, i);
    lemma_close_after_write_release(g, ops, i);
    lemma_close_at_most_once(g, ops);
}

} // verus!
