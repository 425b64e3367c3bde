use vstd::prelude::*;

use crate::bytes::extend_bytes;
use crate::error::Error;

verus! {

/// A destination for bytes; `written` is everything it has accepted.
/// `ready` is what the sink keeps true across writes; `start` is what the
/// destination held before this sink began to write to it.
pub trait Sink {
    spec fn written(&self) -> Seq<u8>;

    spec fn ready(&self) -> bool;

    spec fn start(&self) -> Seq<u8>;

    /// Every write will be taken: writing cannot fail.
    spec fn accepts(&self) -> bool;

    fn write_all(&mut self, buf: &[u8]) -> (r: Result<(), Error>)
        requires
            old(self).ready(),
        ensures
            final(self).ready(),
            final(self).start() == old(self).start(),
            old(self).accepts() ==> r is Ok && final(self).accepts(),
            r is Ok ==> final(self).written() == old(self).written() + buf@,
    ;
}

impl Sink for Vec<u8> {
    open spec fn written(&self) -> Seq<u8> {
        self@
    }

    open spec fn ready(&self) -> bool {
        true
    }

    open spec fn start(&self) -> Seq<u8> {
        Seq::empty()
    }

    open spec fn accepts(&self) -> bool {
        true
    }

    fn write_all(&mut self, buf: &[u8]) -> (r: Result<(), Error>) {
        extend_bytes(self, buf);
        Ok(())
    }
}

} // verus!
