//! The worker of one connection: it reads from its client, cuts what it
//! reads into lines, and writes each line to the console in one piece.
//!
//! Reading and writing are the embedding program's business. The worker is
//! told how each read and each write went, and answers with the lines to
//! write and with whether to go on. Every way of stopping is final.

use crate::lines::{
    complete_lines, is_line, lemma_chunks_do_not_matter, lemma_framing_is_unique,
    lemma_framing_preserves_bytes, lines_view, partial_line, LineBuffer,
};
use vstd::prelude::*;

verus! {

/// How a read from the client went.
#[derive(Debug, PartialEq, Eq)]
pub enum ReadOutcome {
    /// These bytes arrived.
    Data(Vec<u8>),
    /// The client closed the connection.
    EndOfStream,
    /// The read failed, or the connection was shut down under the worker.
    Failed,
}

/// How a write to the console went.
#[derive(Clone, Copy, Debug, PartialEq, Eq, Structural)]
pub enum WriteOutcome {
    /// The whole line was written.
    Written,
    /// The child has closed its input.
    BrokenPipe,
    /// The write failed for another reason.
    Failed,
}

/// The state of one connection's worker.
pub struct ConnectionWorker {
    buffer: LineBuffer,
    open: bool,
}

impl ConnectionWorker {
    /// The bytes that wait for the end of their line.
    pub closed spec fn pending(&self) -> Seq<u8> {
        self.buffer@
    }

    /// Whether the worker still reads from its client.
    pub closed spec fn is_open(&self) -> bool {
        self.open
    }

    /// The lines that a read makes due for writing, given the bytes that
    /// were waiting: the lines that arriving bytes complete; at the end of
    /// the stream the unfinished last line, if there is one; nothing after
    /// a failure.
    pub open spec fn spec_due(pending: Seq<u8>, outcome: ReadOutcome) -> Seq<Seq<u8>> {
        match outcome {
            ReadOutcome::Data(chunk) => complete_lines(pending + chunk@),
            ReadOutcome::EndOfStream => if pending.len() > 0 {
                seq![pending]
            } else {
                Seq::empty()
            },
            ReadOutcome::Failed => Seq::empty(),
        }
    }

    /// The bytes that wait after a read.
    pub open spec fn spec_left(pending: Seq<u8>, outcome: ReadOutcome) -> Seq<u8> {
        match outcome {
            ReadOutcome::Data(chunk) => partial_line(pending + chunk@),
            _ => Seq::empty(),
        }
    }

    /// A worker for a connection that was just accepted.
    pub fn new() -> (worker: Self)
        ensures
            worker.is_open(),
            worker.pending() == Seq::<u8>::empty(),
    {
        ConnectionWorker { buffer: LineBuffer::new(), open: true }
    }

    /// Whether the worker is to read again.
    pub fn wants_read(&self) -> (open: bool)
        ensures
            open == self.is_open(),
    {
        self.open
    }

    /// Takes the outcome of a read and hands out the lines to write now, in
    /// order. Only arriving bytes keep the worker open. A worker that has
    /// stopped hands out nothing and stays as it is.
    pub fn on_read(&mut self, outcome: &ReadOutcome) -> (due: Vec<Vec<u8>>)
        ensures
            old(self).is_open() ==> {
                &&& lines_view(due) == Self::spec_due(old(self).pending(), *outcome)
                &&& final(self).pending() == Self::spec_left(old(self).pending(), *outcome)
                &&& final(self).is_open() == (*outcome is Data)
            },
            !old(self).is_open() ==> {
                &&& lines_view(due) == Seq::<Seq<u8>>::empty()
                &&& final(self).pending() == old(self).pending()
                &&& !final(self).is_open()
            },
    {
        let mut due: Vec<Vec<u8>> = Vec::new();
        if !self.open {
            assert(lines_view(due) =~= Seq::<Seq<u8>>::empty());
            return due;
        }
        match outcome {
            ReadOutcome::Data(chunk) => {
                due = self.buffer.feed(chunk.as_slice());
            },
            ReadOutcome::EndOfStream => {
                self.open = false;
                match self.buffer.finish() {
                    Some(rest) => {
                        due.push(rest);
                        assert(lines_view(due) =~= seq![old(self).pending()]);
                    },
                    None => {
                        assert(lines_view(due) =~= Seq::<Seq<u8>>::empty());
                    },
                }
            },
            ReadOutcome::Failed => {
                self.open = false;
                let _ = self.buffer.finish();
                assert(lines_view(due) =~= Seq::<Seq<u8>>::empty());
            },
        }
        due
    }

    /// Takes the outcome of a write and says whether to go on. A write that
    /// did not succeed stops the worker for good: nothing is tried again,
    /// and the lines that are still due are dropped.
    pub fn on_write(&mut self, outcome: WriteOutcome) -> (go_on: bool)
        ensures
            go_on == (outcome is Written),
            final(self).is_open() == (old(self).is_open() && outcome is Written),
            final(self).pending() == old(self).pending(),
    {
        match outcome {
            WriteOutcome::Written => true,
            _ => {
                self.open = false;
                false
            },
        }
    }
}

/// The bytes that a worker receives: those of the reads that come before
/// the first read without data.
pub open spec fn received(reads: Seq<ReadOutcome>) -> Seq<u8>
    decreases reads.len(),
{
    if reads.len() == 0 {
        Seq::empty()
    } else {
        match reads[0] {
            ReadOutcome::Data(chunk) => chunk@ + received(reads.skip(1)),
            _ => Seq::empty(),
        }
    }
}

/// Whether the first read without data is the end of the stream.
pub open spec fn ends_cleanly(reads: Seq<ReadOutcome>) -> bool
    decreases reads.len(),
{
    if reads.len() == 0 {
        false
    } else {
        match reads[0] {
            ReadOutcome::Data(_) => ends_cleanly(reads.skip(1)),
            ReadOutcome::EndOfStream => true,
            ReadOutcome::Failed => false,
        }
    }
}

/// The lines that a worker sets out to write: the whole lines of what it
/// receives and, where the stream ends in the middle of a line, that
/// unfinished line too.
pub open spec fn planned(reads: Seq<ReadOutcome>) -> Seq<Seq<u8>> {
    let bytes = received(reads);
    if ends_cleanly(reads) && partial_line(bytes).len() > 0 {
        complete_lines(bytes).push(partial_line(bytes))
    } else {
        complete_lines(bytes)
    }
}

/// The lines that reach a console which takes `accepted` lines and then
/// fails; `None` stands for a console that never fails.
pub open spec fn forwarded(reads: Seq<ReadOutcome>, accepted: Option<usize>) -> Seq<Seq<u8>> {
    match accepted {
        Some(n) if n < planned(reads).len() => planned(reads).take(n as int),
        _ => planned(reads),
    }
}

/// Runs a worker over a recorded connection: `reads` are the outcomes of
/// its reads, one after the other, and the console takes `accepted` lines
/// before it fails (`None`: it never does). Returns the lines that reached
/// the console, in the order in which they were written.
pub fn run_connection(reads: &Vec<ReadOutcome>, accepted: Option<usize>) -> (written: Vec<Vec<u8>>)
    ensures
        lines_view(written) == forwarded(reads@, accepted),
{
    let mut worker = ConnectionWorker::new();
    let mut written: Vec<Vec<u8>> = Vec::new();
    let ghost mut bytes: Seq<u8> = Seq::empty();
    let mut i: usize = 0;
    proof {
        assert(reads@.skip(0) =~= reads@);
        assert(bytes + received(reads@) =~= received(reads@));
        assert(lines_view(written) =~= complete_lines(bytes));
    }
    while i < reads.len()
        invariant
            0 <= i <= reads.len(),
            worker.is_open(),
            worker.pending() == partial_line(bytes),
            bytes + received(reads@.skip(i as int)) == received(reads@),
            ends_cleanly(reads@.skip(i as int)) == ends_cleanly(reads@),
            lines_view(written) == complete_lines(bytes),
            accepted is Some ==> written.len() <= accepted.unwrap(),
        decreases reads.len() - i,
    {
        let ghost rest = reads@.skip(i as int);
        let ghost before = lines_view(written);
        let mut due = worker.on_read(&reads[i]);
        let ghost all_due = lines_view(due);
        proof {
            assert(rest[0] == reads@[i as int]);
            assert(rest.skip(1) =~= reads@.skip(i + 1));
            match reads@[i as int] {
                ReadOutcome::Data(chunk) => {
                    lemma_chunks_do_not_matter(bytes, chunk@);
                    assert(bytes + (chunk@ + received(rest.skip(1))) =~= (bytes + chunk@)
                        + received(rest.skip(1)));
                    bytes = bytes + chunk@;
                    lemma_plan_begins_with_lines(reads@, i + 1, bytes);
                },
                ReadOutcome::EndOfStream => {
                    assert(bytes + Seq::<u8>::empty() =~= bytes);
                    assert(planned(reads@) =~= before + all_due);
                    assert(planned(reads@).take(planned(reads@).len() as int) =~= planned(reads@));
                },
                ReadOutcome::Failed => {
                    assert(bytes + Seq::<u8>::empty() =~= bytes);
                    assert(planned(reads@) =~= before + all_due);
                    assert(planned(reads@).take(planned(reads@).len() as int) =~= planned(reads@));
                },
            }
        }
        let mut k: usize = 0;
        let mut go_on = true;
        while k < due.len() && go_on
            invariant
                0 <= k <= due.len(),
                lines_view(written) == before,
                lines_view(due) == all_due,
                accepted is Some ==> written.len() + k <= accepted.unwrap(),
                !go_on ==> accepted is Some && written.len() + k == accepted.unwrap() && k
                    < due.len(),
                go_on ==> worker.is_open() == (reads@[i as int] is Data),
                reads@[i as int] is Data ==> worker.pending() == partial_line(bytes),
            decreases due.len() - k + if go_on { 1int } else { 0int },
        {
            let taken = match accepted {
                Some(n) => k < n - written.len(),
                None => true,
            };
            let outcome = if taken {
                WriteOutcome::Written
            } else {
                WriteOutcome::BrokenPipe
            };
            go_on = worker.on_write(outcome);
            if go_on {
                k += 1;
            }
        }
        due.truncate(k);
        written.append(&mut due);
        proof {
            let total = before + all_due;
            assert(lines_view(written) =~= before + all_due.take(k as int));
            if go_on {
                assert(all_due.take(k as int) =~= all_due);
            } else {
                assert(planned(reads@).take(written.len() as int) =~= planned(reads@).take(
                    total.len() as int,
                ).take(written.len() as int));
                assert(total.take(written.len() as int) =~= lines_view(written));
            }
        }
        if !go_on || !worker.wants_read() {
            return written;
        }
        i += 1;
    }
    proof {
        assert(reads@.skip(i as int).len() == 0);
        assert(bytes + Seq::<u8>::empty() =~= bytes);
    }
    written
}

/// The whole lines of the bytes that a worker has received so far are the
/// beginning of what it sets out to write.
proof fn lemma_plan_begins_with_lines(reads: Seq<ReadOutcome>, i: int, bytes: Seq<u8>)
    requires
        0 <= i <= reads.len(),
        bytes + received(reads.skip(i)) == received(reads),
    ensures
        planned(reads).len() >= complete_lines(bytes).len(),
        planned(reads).take(complete_lines(bytes).len() as int) == complete_lines(bytes),
{
    let later = received(reads.skip(i));
    lemma_chunks_do_not_matter(bytes, later);
    assert(planned(reads).take(complete_lines(bytes).len() as int) =~= complete_lines(bytes));
}

/// Lines arrive as they were sent: when a client sends whole lines and the
/// console takes all that is written, the lines that reach the console are
/// the lines sent, in the order sent, and their bytes are the bytes
/// received. How the stream was cut into reads does not matter.
pub proof fn lemma_lines_arrive_in_order(reads: Seq<ReadOutcome>, sent: Seq<Seq<u8>>)
    requires
        forall|k: int| 0 <= k < sent.len() ==> is_line(#[trigger] sent[k]),
        received(reads) == sent.flatten(),
    ensures
        forwarded(reads, None) == sent,
        forwarded(reads, None).flatten() == received(reads),
{
    assert(sent.flatten() + Seq::<u8>::empty() =~= sent.flatten());
    lemma_framing_is_unique(received(reads), sent, Seq::empty());
}

/// A stream that ends loses no byte, even where it ends in the middle of a
/// line: what reaches a console that takes all is what was received.
pub proof fn lemma_closed_stream_arrives_whole(reads: Seq<ReadOutcome>)
    requires
        ends_cleanly(reads),
    ensures
        forwarded(reads, None).flatten() == received(reads),
{
    let bytes = received(reads);
    lemma_framing_preserves_bytes(bytes);
    if partial_line(bytes).len() > 0 {
        complete_lines(bytes).lemma_flatten_push(partial_line(bytes));
    } else {
        assert(complete_lines(bytes).flatten() + partial_line(bytes) =~= complete_lines(
            bytes,
        ).flatten());
    }
}

} // verus!
