use crate::buffer::CHUNK_SIZE;
use vstd::prelude::*;

verus! {

/// What a copy loop does next. A loop moves bytes one way, from the read
/// half it owns to the write half it owns, through one transfer buffer.
#[derive(Debug, PartialEq, Eq)]
pub enum CopyStep<E> {
    /// Read from the source into the transfer buffer.
    Read,
    /// Write the first `len` bytes of the transfer buffer to the
    /// destination, all of them, before anything else is read.
    Write { len: usize },
    /// Stop. `Ok` after a clean end of stream, `Err` with the first failure
    /// of a read or of a write.
    Done(Result<(), E>),
}

/// The step that follows a read: nothing read is the end of the stream, a
/// failure ends the loop with that failure, anything else is written out
/// in full.
pub open spec fn step_after_read<E>(outcome: Result<usize, E>) -> CopyStep<E> {
    match outcome {
        Ok(n) => if n == 0 {
            CopyStep::Done(Ok(()))
        } else {
            CopyStep::Write { len: n }
        },
        Err(e) => CopyStep::Done(Err(e)),
    }
}

/// The step that follows a write: back to reading, unless the write failed.
pub open spec fn step_after_write<E>(outcome: Result<(), E>) -> CopyStep<E> {
    match outcome {
        Ok(_) => CopyStep::Read,
        Err(e) => CopyStep::Done(Err(e)),
    }
}

impl<E> CopyStep<E> {
    /// A copy loop starts by reading.
    pub fn begin() -> (step: Self)
        ensures
            step == CopyStep::<E>::Read,
    {
        CopyStep::Read
    }

    /// Decides what follows a read that returned `outcome`: the number of
    /// bytes now at the front of the transfer buffer, or the failure.
    pub fn after_read(outcome: Result<usize, E>) -> (step: Self)
        ensures
            step == step_after_read(outcome),
    {
        match outcome {
            Ok(n) => {
                if n == 0 {
                    CopyStep::Done(Ok(()))
                } else {
                    CopyStep::Write { len: n }
                }
            },
            Err(e) => CopyStep::Done(Err(e)),
        }
    }

    /// Decides what follows a write that returned `outcome`.
    pub fn after_write(outcome: Result<(), E>) -> (step: Self)
        ensures
            step == step_after_write(outcome),
    {
        match outcome {
            Ok(_) => CopyStep::Read,
            Err(e) => CopyStep::Done(Err(e)),
        }
    }
}

/// One turn of a copy loop as its two halves saw it: the bytes a read
/// delivered or its failure, and how the write of those bytes ended. The
/// write's outcome counts only where the read delivered bytes.
pub struct Exchange<E> {
    pub read: Result<Seq<u8>, E>,
    pub write: Result<(), E>,
}

/// Where a copy loop stands between turns: the step it is at, what its
/// transfer buffer holds, and the bytes its destination has taken so far.
pub struct Progress<E> {
    pub step: CopyStep<E>,
    pub buffer: Seq<u8>,
    pub forwarded: Seq<u8>,
}

impl<E> Progress<E> {
    /// The loop is at a read, over a buffer of the full size.
    pub open spec fn reading(self) -> bool {
        self.step is Read && self.buffer.len() == CHUNK_SIZE
    }
}

/// A loop about to make its first read.
pub open spec fn fresh<E>(buffer: Seq<u8>) -> Progress<E> {
    Progress { step: CopyStep::Read, buffer, forwarded: Seq::empty() }
}

/// The transfer buffer once a read has put `chunk` at its front.
pub open spec fn filled_with(buffer: Seq<u8>, chunk: Seq<u8>) -> Seq<u8> {
    chunk + buffer.skip(chunk.len() as int)
}

/// One turn of a loop that is at a read. The read fills the buffer; where
/// the loop then asks for a write, the destination takes exactly the bytes
/// asked for if the write succeeds, and none that count if it fails. A
/// loop that has ended takes no turn.
pub open spec fn advance<E>(progress: Progress<E>, exchange: Exchange<E>) -> Progress<E> {
    if progress.step is Read {
        match exchange.read {
            Ok(chunk) => {
                let buffer = filled_with(progress.buffer, chunk);
                match step_after_read::<E>(Ok(chunk.len() as usize)) {
                    CopyStep::Write { len } => Progress {
                        step: step_after_write(exchange.write),
                        buffer,
                        forwarded: if exchange.write is Ok {
                            progress.forwarded + buffer.take(len as int)
                        } else {
                            progress.forwarded
                        },
                    },
                    step => Progress { step, buffer, forwarded: progress.forwarded },
                }
            },
            Err(e) => Progress {
                step: step_after_read::<E>(Err(e)),
                buffer: progress.buffer,
                forwarded: progress.forwarded,
            },
        }
    } else {
        progress
    }
}

/// A copy loop taken from `start` through `exchanges`, in order.
pub open spec fn run<E>(start: Progress<E>, exchanges: Seq<Exchange<E>>) -> Progress<E>
    decreases exchanges.len(),
{
    if exchanges.len() == 0 {
        start
    } else {
        advance(run(start, exchanges.drop_last()), exchanges.last())
    }
}

/// A read that delivers `chunk`, and a write of it that succeeds.
pub open spec fn delivery<E>(chunk: Seq<u8>) -> Exchange<E> {
    Exchange { read: Ok(chunk), write: Ok(()) }
}

/// The exchanges of a transport without faults that hands over `chunks`
/// one read at a time: every read and every write succeeds.
pub open spec fn faultless<E>(chunks: Seq<Seq<u8>>) -> Seq<Exchange<E>> {
    Seq::new(chunks.len(), |i: int| delivery(chunks[i]))
}

/// What one read can return short of the end of the stream: at least one
/// byte, at most a full buffer.
pub open spec fn readable(chunk: Seq<u8>) -> bool {
    0 < chunk.len() <= CHUNK_SIZE
}

/// An exchange without fault: the read delivers a chunk and the write of
/// it succeeds.
pub open spec fn delivers<E>(exchange: Exchange<E>) -> bool {
    match exchange.read {
        Ok(chunk) => readable(chunk) && exchange.write is Ok,
        Err(_) => false,
    }
}

/// An exchange that ends the loop: the read fails, or finds the stream at
/// its end, or delivers bytes whose write fails.
pub open spec fn stops<E>(exchange: Exchange<E>) -> bool {
    match exchange.read {
        Ok(chunk) => chunk.len() == 0 || (readable(chunk) && exchange.write is Err),
        Err(_) => true,
    }
}

/// How a loop ends on an exchange that stops it: cleanly at the end of the
/// stream, else with the failure of the read or of the write.
pub open spec fn verdict<E>(exchange: Exchange<E>) -> Result<(), E> {
    match exchange.read {
        Ok(chunk) => if chunk.len() == 0 {
            Ok(())
        } else {
            exchange.write
        },
        Err(e) => Err(e),
    }
}

/// One delivery: the loop passes on the chunk it read, whole and
/// unchanged, after all it has passed on before, and is back at a read.
pub proof fn lemma_delivery<E>(progress: Progress<E>, exchange: Exchange<E>)
    requires
        progress.reading(),
        delivers(exchange),
    ensures
        advance(progress, exchange).reading(),
        advance(progress, exchange).forwarded == progress.forwarded + exchange.read->Ok_0,
{
    let chunk = exchange.read->Ok_0;
    assert(filled_with(progress.buffer, chunk).take(chunk.len() as int) =~= chunk);
}

/// One stop: the loop ends with the verdict of the exchange, and passes on
/// nothing more.
pub proof fn lemma_stop<E>(progress: Progress<E>, exchange: Exchange<E>)
    requires
        progress.reading(),
        stops(exchange),
    ensures
        advance(progress, exchange).step == CopyStep::Done(verdict(exchange)),
        advance(progress, exchange).forwarded == progress.forwarded,
{
}

/// A loop that has ended stays as it is, whatever would come.
pub proof fn lemma_ended_loop_stays<E>(progress: Progress<E>, exchanges: Seq<Exchange<E>>)
    requires
        progress.step is Done,
    ensures
        run(progress, exchanges) == progress,
    decreases exchanges.len(),
{
    if exchanges.len() > 0 {
        lemma_ended_loop_stays(progress, exchanges.drop_last());
    }
}

/// Running over two stretches of exchanges is running over the first and
/// going on from there over the second.
pub proof fn lemma_run_in_stretches<E>(
    start: Progress<E>,
    early: Seq<Exchange<E>>,
    late: Seq<Exchange<E>>,
)
    ensures
        run(start, early + late) == run(run(start, early), late),
    decreases late.len(),
{
    if late.len() == 0 {
        assert(early + late =~= early);
    } else {
        lemma_run_in_stretches(start, early, late.drop_last());
        assert((early + late).drop_last() =~= early + late.drop_last());
    }
}

/// Byte-exact forwarding. Whatever stream a source hands over, and however
/// its reads cut that stream into chunks, a loop on a transport without
/// faults has passed on exactly that stream, in order, nothing lost and
/// nothing twice, and stands ready to read on.
pub proof fn lemma_stream_forwarded<E>(start: Progress<E>, chunks: Seq<Seq<u8>>)
    requires
        start.reading(),
        forall|i: int| 0 <= i < chunks.len() ==> readable(#[trigger] chunks[i]),
    ensures
        run(start, faultless(chunks)).reading(),
        run(start, faultless(chunks)).forwarded == start.forwarded + chunks.flatten(),
    decreases chunks.len(),
{
    if chunks.len() == 0 {
        assert(start.forwarded + chunks.flatten() =~= start.forwarded);
    } else {
        let before = chunks.drop_last();
        lemma_stream_forwarded(start, before);
        assert(faultless::<E>(chunks).drop_last() =~= faultless::<E>(before));
        lemma_delivery(run(start, faultless(before)), delivery(chunks.last()));
        before.lemma_flatten_push(chunks.last());
        assert(before.push(chunks.last()) =~= chunks);
        assert(start.forwarded + before.flatten() + chunks.last() =~= start.forwarded
            + (before.flatten() + chunks.last()));
    }
}

/// How a loop ends. After any chunks forwarded without fault, the first
/// exchange that stops the loop decides its result: `Ok` only at a clean
/// end of stream, else the first failure, unchanged. What was read before
/// has been forwarded exactly, and nothing that would come later is.
pub proof fn lemma_first_stop_decides<E>(
    start: Progress<E>,
    chunks: Seq<Seq<u8>>,
    last: Exchange<E>,
    later: Seq<Exchange<E>>,
)
    requires
        start.reading(),
        forall|i: int| 0 <= i < chunks.len() ==> readable(#[trigger] chunks[i]),
        stops(last),
    ensures
        run(start, faultless(chunks).push(last) + later).step == CopyStep::Done(verdict(last)),
        run(start, faultless(chunks).push(last) + later).forwarded == start.forwarded
            + chunks.flatten(),
{
    let stopped = faultless::<E>(chunks).push(last);
    lemma_stream_forwarded(start, chunks);
    assert(stopped.drop_last() =~= faultless::<E>(chunks));
    lemma_stop(run(start, faultless(chunks)), last);
    lemma_run_in_stretches(start, stopped, later);
    lemma_ended_loop_stays(run(start, stopped), later);
}

} // verus!
