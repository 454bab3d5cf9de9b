//! Reading an exact number of bytes from a stream, as a state machine: the
//! caller performs each read and hands over what it got.
use vstd::prelude::*;

verus! {

/// A read that could not be completed.
#[derive(Debug, Clone, Copy, PartialEq, Eq, Structural)]
pub enum ReadError {
    /// The stream ended before all the bytes arrived.
    TruncatedInput,
}

/// Progress of a read of exactly `wanted` bytes.
pub struct ExactRead {
    received: Vec<u8>,
    wanted: usize,
}

impl ExactRead {
    /// The number of bytes to read in all.
    pub closed spec fn wanted(&self) -> nat {
        self.wanted as nat
    }

    /// The bytes received so far.
    pub closed spec fn received(&self) -> Seq<u8> {
        self.received@
    }

    /// Never more bytes received than wanted.
    pub open spec fn wf(&self) -> bool {
        self.received().len() <= self.wanted()
    }

    /// All the wanted bytes have arrived.
    pub open spec fn complete(&self) -> bool {
        self.received().len() == self.wanted()
    }

    /// Starts a read of `wanted` bytes.
    pub fn new(wanted: usize) -> (r: ExactRead)
        ensures
            r.wf(),
            r.wanted() == wanted,
            r.received() == Seq::<u8>::empty(),
    {
        ExactRead { received: Vec::new(), wanted }
    }

    /// How many bytes are still to come.
    pub fn needed(&self) -> (r: usize)
        requires
            self.wf(),
        ensures
            r == self.wanted() - self.received().len(),
    {
        self.wanted - self.received.len()
    }

    /// Whether all the wanted bytes have arrived.
    pub fn is_complete(&self) -> (r: bool)
        requires
            self.wf(),
        ensures
            r == self.complete(),
    {
        self.received.len() == self.wanted
    }

    /// Takes the bytes of one read. An empty read before the end means the
    /// stream closed early: the read fails with `TruncatedInput`.
    pub fn absorb(&mut self, chunk: &[u8]) -> (r: Result<(), ReadError>)
        requires
            old(self).wf(),
            chunk@.len() <= old(self).wanted() - old(self).received().len(),
        ensures
            final(self).wf(),
            final(self).wanted() == old(self).wanted(),
            final(self).received() == old(self).received() + chunk@,
            r == (if chunk@.len() == 0 && !old(self).complete() {
                Err::<(), ReadError>(ReadError::TruncatedInput)
            } else {
                Ok::<(), ReadError>(())
            }),
    {
        if chunk.len() == 0 {
            assert(self.received@ + chunk@ =~= self.received@);
            if self.received.len() < self.wanted {
                return Err(ReadError::TruncatedInput);
            }
            return Ok(());
        }
        let mut i: usize = 0;
        while i < chunk.len()
            invariant
                i <= chunk@.len(),
                self.wanted == old(self).wanted,
                self.received@ == old(self).received@ + chunk@.subrange(0, i as int),
            decreases chunk@.len() - i,
        {
            self.received.push(chunk[i]);
            i = i + 1;
            assert(self.received@ =~= old(self).received@ + chunk@.subrange(0, i as int));
        }
        assert(chunk@.subrange(0, chunk@.len() as int) =~= chunk@);
        Ok(())
    }

    /// The bytes received.
    pub fn into_bytes(self) -> (r: Vec<u8>)
        ensures
            r@ == self.received(),
    {
        self.received
    }
}

} // verus!
