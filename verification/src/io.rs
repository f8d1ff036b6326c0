//! A writer wrapper that flushes after every write.
//!
//! The asynchronous writing itself (`write_and_flush` and the `AsyncWrite`
//! delegation) is done on the async runtime; this holds the wrapper.
use vstd::prelude::*;

verus! {

/// Wraps a writer so that every write is followed by a flush.
pub struct FlushWriter<W> {
    inner: W,
}

impl<W> FlushWriter<W> {
    /// The wrapped writer.
    pub closed spec fn wrapped(&self) -> W {
        self.inner
    }

    /// Wraps `inner`.
    pub fn new(inner: W) -> (res: Self)
        ensures
            res.wrapped() == inner,
    {
        Self { inner }
    }

    /// The wrapped writer, for direct use; what is done through the reference
    /// is what the wrapper holds afterwards.
    pub fn inner_mut(&mut self) -> (res: &mut W)
        ensures
            *res == old(self).wrapped(),
            final(self).wrapped() == *final(res),
    {
        &mut self.inner
    }

    /// Unwraps, returning the wrapped writer.
    pub fn into_inner(self) -> (res: W)
        ensures
            res == self.wrapped(),
    {
        self.inner
    }
}

} // verus!
