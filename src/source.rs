use vstd::prelude::*;
use vstd::slice::slice_subrange;

use crate::error::Error;

verus! {

/// A buffered byte stream, read by filling a window and consuming from it.
///
/// `rest` is every byte that the stream has still to yield; `window` is the
/// part of it that is buffered now, always a prefix of `rest`.
pub trait BufSource {
    spec fn rest(&self) -> Seq<u8>;

    spec fn window(&self) -> Seq<u8>;

    /// The whole rest is buffered after every fill, and filling cannot fail.
    spec fn whole(&self) -> bool;

    /// Makes bytes available. On success the window is empty only at the end
    /// of the stream.
    fn fill(&mut self) -> (r: Result<(), Error>)
        ensures
            final(self).rest() == old(self).rest(),
            final(self).whole() == old(self).whole(),
            old(self).whole() ==> r is Ok && final(self).window() == final(self).rest(),
            r is Ok ==> final(self).window().len() <= final(self).rest().len(),
            r is Ok ==> final(self).window() == final(self).rest().take(final(self).window().len() as int),
            r is Ok ==> (final(self).window().len() == 0 <==> final(self).rest().len() == 0),
    ;

    /// The bytes buffered now.
    fn buffer(&self) -> (r: &[u8])
        ensures
            r@ == self.window(),
    ;

    /// Drops the first `amt` buffered bytes.
    fn consume(&mut self, amt: usize)
        requires
            amt <= old(self).window().len(),
        ensures
            final(self).rest() == old(self).rest().skip(amt as int),
            final(self).window() == old(self).window().skip(amt as int),
            final(self).whole() == old(self).whole(),
    ;
}

/// A byte slice is a source whose whole content is buffered at once.
impl<'a> BufSource for &'a [u8] {
    open spec fn rest(&self) -> Seq<u8> {
        (*self)@
    }

    open spec fn window(&self) -> Seq<u8> {
        (*self)@
    }

    open spec fn whole(&self) -> bool {
        true
    }

    fn fill(&mut self) -> (r: Result<(), Error>) {
        assert(self@.take(self@.len() as int) =~= self@);
        Ok(())
    }

    fn buffer(&self) -> (r: &[u8]) {
        *self
    }

    fn consume(&mut self, amt: usize) {
        let s: &'a [u8] = *self;
        *self = slice_subrange(s, amt, s.len());
        assert(self@ =~= old(self)@.skip(amt as int));
    }
}

/// A stream held in memory, owned: the bytes from `pos` on are still to
/// come, and all of them are buffered.
pub struct MemSource {
    data: Vec<u8>,
    pos: usize,
}

impl MemSource {
    pub fn new(data: Vec<u8>) -> (r: MemSource)
        ensures
            r.rest() == data@,
    {
        let r = MemSource { data, pos: 0 };
        assert(r.data@.skip(0) =~= r.data@);
        assert(r.rest() == data@);
        r
    }
}

impl MemSource {
    closed spec fn remaining(&self) -> Seq<u8> {
        if self.pos <= self.data@.len() {
            self.data@.skip(self.pos as int)
        } else {
            Seq::empty()
        }
    }
}

impl BufSource for MemSource {
    closed spec fn rest(&self) -> Seq<u8> {
        self.remaining()
    }

    closed spec fn window(&self) -> Seq<u8> {
        self.remaining()
    }

    open spec fn whole(&self) -> bool {
        true
    }

    fn fill(&mut self) -> (r: Result<(), Error>) {
        assert(self.window().take(self.window().len() as int) =~= self.window());
        Ok(())
    }

    fn buffer(&self) -> (r: &[u8]) {
        let d = self.data.as_slice();
        if self.pos <= d.len() {
            let r = slice_subrange(d, self.pos, d.len());
            assert(r@ =~= self.data@.skip(self.pos as int));
            r
        } else {
            let r = slice_subrange(d, 0, 0);
            assert(r@ =~= Seq::<u8>::empty());
            r
        }
    }

    fn consume(&mut self, amt: usize) {
        if self.pos <= self.data.len() {
            self.pos = self.pos + amt;
            assert(self.data@.skip(self.pos as int) =~= old(self).data@.skip(
                old(self).pos as int,
            ).skip(amt as int));
        } else {
            assert(Seq::<u8>::empty().skip(amt as int) =~= Seq::<u8>::empty());
        }
    }
}

} // verus!
