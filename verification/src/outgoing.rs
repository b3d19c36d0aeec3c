//! Bytes on their way to the shell.

use vstd::prelude::*;
use vstd::slice::slice_subrange;

verus! {

/// What went wrong with a read or a write.
#[derive(Clone, Copy, PartialEq, Eq, Structural, Debug)]
pub enum Fault {
    /// There was nothing to do at the moment.
    WouldBlock,
    /// The other end is closed.
    BrokenPipe,
    /// Anything else.
    Other,
}

/// Where bytes for the shell come from.
#[derive(Clone, Copy, PartialEq, Eq, Structural, Debug)]
pub enum Origin {
    /// The keyboard.
    Typed,
    /// A command of the history that was clicked.
    History,
}

/// What one attempt to write came to.
#[derive(Clone, Copy, PartialEq, Eq, Structural, Debug)]
pub enum WriteOutcome {
    /// So many bytes were taken.
    Written(usize),
    /// None were.
    Failed(Fault),
}

/// What to do after one attempt to write.
#[derive(Clone, Copy, PartialEq, Eq, Structural, Debug)]
pub enum WriteStep {
    /// Write what is left.
    Continue,
    /// All bytes were written.
    Done,
    /// Give up, and tell the user if so asked.
    Stop { report: bool },
}

/// A fault that the user is told about: every one, but for a closed shell while
/// typing.
pub open spec fn reported(origin: Origin, fault: Fault) -> bool {
    origin == Origin::History || fault != Fault::BrokenPipe
}

/// Bytes that are to be written, in as many attempts as it takes.
pub struct Outgoing {
    bytes: Vec<u8>,
    sent: usize,
    origin: Origin,
}

impl View for Outgoing {
    type V = Seq<u8>;

    /// The bytes that are still to be written.
    closed spec fn view(&self) -> Seq<u8> {
        self.bytes@.skip(self.sent as int)
    }
}

impl Outgoing {
    /// Where the bytes come from.
    pub closed spec fn from(&self) -> Origin {
        self.origin
    }

    /// No more bytes were written than there are.
    pub closed spec fn wf(&self) -> bool {
        self.sent <= self.bytes@.len()
    }

    /// All of `bytes`, none of them written yet.
    pub fn new(bytes: Vec<u8>, origin: Origin) -> (r: Outgoing)
        ensures
            r.wf(),
            r@ == bytes@,
            r.from() == origin,
    {
        assert(bytes@.skip(0) =~= bytes@);
        Outgoing { bytes, sent: 0, origin }
    }

    /// The bytes to hand to the next attempt.
    pub fn pending(&self) -> (r: &[u8])
        requires
            self.wf(),
        ensures
            r@ == self@,
    {
        let r = slice_subrange(self.bytes.as_slice(), self.sent, self.bytes.len());
        assert(r@ =~= self@);
        r
    }

    /// Whether nothing is left to write.
    pub fn is_done(&self) -> (r: bool)
        requires
            self.wf(),
        ensures
            r == (self@.len() == 0),
    {
        self.sent == self.bytes.len()
    }

    /// Takes note of an attempt, and says how to go on.
    pub fn step(&mut self, outcome: WriteOutcome) -> (r: WriteStep)
        requires
            old(self).wf(),
            outcome matches WriteOutcome::Written(n) ==> n <= old(self)@.len(),
        ensures
            final(self).wf(),
            final(self).from() == old(self).from(),
            match outcome {
                WriteOutcome::Written(n) => {
                    &&& final(self)@ == old(self)@.skip(n as int)
                    &&& r == if final(self)@.len() == 0 {
                        WriteStep::Done
                    } else {
                        WriteStep::Continue
                    }
                },
                WriteOutcome::Failed(fault) => {
                    &&& final(self)@ == old(self)@
                    &&& r == (WriteStep::Stop { report: reported(old(self).from(), fault) })
                },
            },
    {
        match outcome {
            WriteOutcome::Written(n) => {
                let ghost before = self@;
                let len = self.bytes.len();
                self.sent = self.sent + n;
                assert(self@ =~= before.skip(n as int));
                if self.sent == len {
                    WriteStep::Done
                } else {
                    WriteStep::Continue
                }
            },
            WriteOutcome::Failed(fault) => {
                let quiet = self.origin == Origin::Typed && fault == Fault::BrokenPipe;
                WriteStep::Stop { report: !quiet }
            },
        }
    }
}

/// Attempts that take `counts` bytes each can be made on `bytes`.
pub open spec fn attempts_fit(bytes: Seq<u8>, counts: Seq<nat>) -> bool
    decreases counts.len(),
{
    counts.len() == 0 || {
        &&& counts[0] <= bytes.len()
        &&& attempts_fit(bytes.skip(counts[0] as int), counts.skip(1))
    }
}

/// The bytes that attempts which take `counts` bytes each put out, in order.
pub open spec fn transmitted(bytes: Seq<u8>, counts: Seq<nat>) -> Seq<u8>
    decreases counts.len(),
{
    if counts.len() == 0 {
        Seq::empty()
    } else {
        bytes.take(counts[0] as int) + transmitted(
            bytes.skip(counts[0] as int),
            counts.skip(1),
        )
    }
}

/// The bytes that are left after attempts which take `counts` bytes each.
pub open spec fn left_over(bytes: Seq<u8>, counts: Seq<nat>) -> Seq<u8>
    decreases counts.len(),
{
    if counts.len() == 0 {
        bytes
    } else {
        left_over(bytes.skip(counts[0] as int), counts.skip(1))
    }
}

/// However the attempts part them, the bytes go out in order, none twice and none
/// left out.
pub proof fn lemma_nothing_lost(bytes: Seq<u8>, counts: Seq<nat>)
    requires
        attempts_fit(bytes, counts),
    ensures
        transmitted(bytes, counts) + left_over(bytes, counts) == bytes,
    decreases counts.len(),
{
    if counts.len() == 0 {
        assert(Seq::<u8>::empty() + bytes =~= bytes);
    } else {
        let n = counts[0] as int;
        lemma_nothing_lost(bytes.skip(n), counts.skip(1));
        let t = transmitted(bytes.skip(n), counts.skip(1));
        let l = left_over(bytes.skip(n), counts.skip(1));
        assert(bytes.take(n) + t + l =~= bytes.take(n) + (t + l));
        assert(bytes.take(n) + bytes.skip(n) =~= bytes);
    }
}

} // verus!
