use vstd::prelude::*;

use crate::error::{Error, IoKind};
use crate::sink::Sink;

verus! {

/// How a request body announces its length.
#[derive(Debug, Clone, Copy, PartialEq, Eq, Structural)]
pub enum BodyKind {
    Empty,
    KnownLength(u64),
    Chunked,
}

/// A producer of request body bytes.
///
/// `content` is what the body writes; its kind must agree with it.
pub trait BodyWriter {
    spec fn content(&self) -> Seq<u8>;

    /// Writing the body cannot fail on a sink that takes every write.
    spec fn write_succeeds(&self) -> bool;

    fn kind(&mut self) -> (r: Result<BodyKind, Error>)
        ensures
            final(self).content() == old(self).content(),
            r matches Ok(BodyKind::Empty) ==> old(self).content().len() == 0,
            r matches Ok(BodyKind::KnownLength(n)) ==> old(self).content().len() == n,
    ;

    fn write<S: Sink>(&mut self, sink: &mut S) -> (r: Result<(), Error>)
        requires
            old(sink).ready(),
        ensures
            final(sink).ready(),
            final(sink).start() == old(sink).start(),
            old(self).write_succeeds() && old(sink).accepts() ==> r is Ok && final(sink).accepts(),
            final(self).content() == old(self).content(),
            r is Ok ==> final(sink).written() == old(sink).written() + old(self).content(),
    ;
}

/// A body with no bytes.
#[derive(Debug, Clone, Copy)]
pub struct EmptyBody;

impl BodyWriter for EmptyBody {
    open spec fn content(&self) -> Seq<u8> {
        Seq::empty()
    }

    open spec fn write_succeeds(&self) -> bool {
        true
    }

    fn kind(&mut self) -> (r: Result<BodyKind, Error>)
        ensures
            r == Ok::<BodyKind, Error>(BodyKind::Empty),
    {
        Ok(BodyKind::Empty)
    }

    fn write<S: Sink>(&mut self, sink: &mut S) -> (r: Result<(), Error>)
        ensures
            r is Ok,
            *final(sink) == *old(sink),
    {
        assert(sink.written() + Seq::<u8>::empty() =~= sink.written());
        Ok(())
    }
}

/// A body held in memory; its length is known up front.
#[derive(Debug)]
pub struct MemBody(pub Vec<u8>);

impl BodyWriter for MemBody {
    open spec fn content(&self) -> Seq<u8> {
        self.0@
    }

    open spec fn write_succeeds(&self) -> bool {
        true
    }

    fn kind(&mut self) -> (r: Result<BodyKind, Error>)
        ensures
            r == Ok::<BodyKind, Error>(BodyKind::KnownLength(old(self).0@.len() as u64)),
    {
        Ok(BodyKind::KnownLength(self.0.len() as u64))
    }

    fn write<S: Sink>(&mut self, sink: &mut S) -> (r: Result<(), Error>) {
        sink.write_all(self.0.as_slice())
    }
}

/// A body held in memory but sent in chunks, without announcing its
/// length: the form of producers that write as they go.
#[derive(Debug)]
pub struct ChunkedBody(pub Vec<u8>);

impl BodyWriter for ChunkedBody {
    open spec fn content(&self) -> Seq<u8> {
        self.0@
    }

    open spec fn write_succeeds(&self) -> bool {
        true
    }

    fn kind(&mut self) -> (r: Result<BodyKind, Error>)
        ensures
            r == Ok::<BodyKind, Error>(BodyKind::Chunked),
    {
        Ok(BodyKind::Chunked)
    }

    fn write<S: Sink>(&mut self, sink: &mut S) -> (r: Result<(), Error>) {
        sink.write_all(self.0.as_slice())
    }
}

/// The gzip stream that flate2 makes of `b` at the default level.
pub uninterp spec fn gzip_of(b: Seq<u8>) -> Seq<u8>;

/// Relies on flate2::write::GzEncoder, at the default level and with the
/// default header, to compress `b` into a gzip stream.
#[verifier::external_body]
fn gzip(b: &[u8]) -> (r: Result<Vec<u8>, Error>)
    ensures
        r matches Ok(z) ==> z@ == gzip_of(b@),
        r is Ok,
{
    let mut enc = flate2::write::GzEncoder::new(Vec::new(), flate2::Compression::default());
    match std::io::Write::write_all(&mut enc, b) {
        Ok(()) => enc.finish().map_err(|_| Error::Io(IoKind::Other)),
        Err(_) => Err(Error::Io(IoKind::Other)),
    }
}

/// A body sent gzip-compressed; its length is not known up front.
#[derive(Debug)]
pub struct CompressedBody<B>(pub B);

impl<B: BodyWriter> BodyWriter for CompressedBody<B> {
    open spec fn content(&self) -> Seq<u8> {
        gzip_of(self.0.content())
    }

    open spec fn write_succeeds(&self) -> bool {
        self.0.write_succeeds()
    }

    fn kind(&mut self) -> (r: Result<BodyKind, Error>)
        ensures
            r == Ok::<BodyKind, Error>(BodyKind::Chunked),
    {
        Ok(BodyKind::Chunked)
    }

    fn write<S: Sink>(&mut self, sink: &mut S) -> (r: Result<(), Error>) {
        let mut plain: Vec<u8> = Vec::new();
        self.0.write(&mut plain)?;
        assert(plain@ =~= old(self).0.content());
        let z = gzip(plain.as_slice())?;
        sink.write_all(z.as_slice())
    }
}

} // verus!
