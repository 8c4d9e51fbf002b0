//! The Result Sink, modelled as the append-only byte log that the output
//! stream accumulates. Access to the real stream is serialized by the
//! caller; here each `record` call is one whole step, so the log can never
//! hold an interleaved or partial record.
use vstd::prelude::*;

use crate::lines::{spec_lines, NEWLINE, CARRIAGE_RETURN};
use crate::pipeline::{encode_record, lemma_output_bytes_push, lemma_output_lines_round_trip,
    output_bytes, record_bytes};

verus! {

/// The accumulated output: its bytes, and (in ghost) the addresses recorded
/// so far, in the order the calls came.
pub struct Sink {
    content: Vec<u8>,
    records: Ghost<Seq<Seq<u8>>>,
}

impl Sink {
    /// The addresses recorded so far, in call order.
    pub closed spec fn records(self) -> Seq<Seq<u8>> {
        self.records@
    }

    /// The bytes of the output so far.
    pub closed spec fn bytes(self) -> Seq<u8> {
        self.content@
    }

    /// The sink's invariant: the log is exactly one complete,
    /// newline-terminated record per recorded address, in call order.
    pub closed spec fn wf(self) -> bool {
        self.content@ == output_bytes(self.records@)
    }

    /// A fresh, empty sink: the output file as created, truncated.
    pub fn new() -> (s: Sink)
        ensures
            s.wf(),
            s.records() == Seq::<Seq<u8>>::empty(),
            s.bytes() == Seq::<u8>::empty(),
    {
        Sink { content: Vec::new(), records: Ghost(Seq::empty()) }
    }

    /// Appends one address as one complete record. The whole call is one
    /// step of the log: no bytes of another record can fall between its
    /// address and its newline.
    pub fn record(&mut self, addr: &Vec<u8>)
        requires
            old(self).wf(),
        ensures
            final(self).wf(),
            final(self).records() == old(self).records().push(addr@),
            final(self).bytes() == old(self).bytes() + record_bytes(addr@),
    {
        let mut rec = encode_record(addr);
        self.content.append(&mut rec);
        proof {
            self.records@ = self.records@.push(addr@);
            lemma_output_bytes_push(old(self).records@, addr@);
        }
    }

    /// The log is always a whole number of lines: split back at newlines,
    /// it yields exactly the recorded addresses, however many writers took
    /// their turns.
    pub proof fn lemma_no_partial_line(self)
        requires
            self.wf(),
            forall|i: int| 0 <= i < self.records().len() ==> !(#[trigger] self.records()[i]).contains(
                NEWLINE,
            ),
            forall|i: int|
                0 <= i < self.records().len() ==> ((#[trigger] self.records()[i]).len() == 0
                    || self.records()[i].last() != CARRIAGE_RETURN),
        ensures
            spec_lines(self.bytes()) == self.records(),
    {
        lemma_output_lines_round_trip(self.records());
    }

    /// Hands the accumulated bytes over, for the caller to flush out.
    pub fn into_bytes(self) -> (out: Vec<u8>)
        ensures
            out@ == self.bytes(),
    {
        self.content
    }
}

} // verus!
