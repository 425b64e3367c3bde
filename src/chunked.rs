use vstd::prelude::*;
use vstd::slice::slice_subrange;

use crate::bytes::{crlf, extend_bytes, starts_with};
use crate::error::{Error, IoKind};
use crate::hex::{
    hex, hex_run, hex_value, lemma_hex, lemma_hex_run_prefix, lemma_hex_run_take, lemma_pow16_16,
    pow16, push_hex,
};
use crate::parse::{parse, parsed_whole, short_error, Parser, Status};
use crate::sink::Sink;
use crate::source::BufSource;

verus! {

/// The frame that carries one chunk: its size in hex, CRLF, the bytes, CRLF.
pub open spec fn chunk_frame(b: Seq<u8>) -> Seq<u8> {
    hex(b.len()) + crlf() + b + crlf()
}

/// The zero-size chunk that ends a body, with its empty trailer.
pub open spec fn last_chunk() -> Seq<u8> {
    seq![48u8, 13u8, 10u8, 13u8, 10u8]
}

/// The frames of a sequence of chunks, in order.
pub open spec fn chunk_frames(cs: Seq<Seq<u8>>) -> Seq<u8>
    decreases cs.len(),
{
    if cs.len() == 0 {
        Seq::empty()
    } else {
        chunk_frame(cs[0]) + chunk_frames(cs.skip(1))
    }
}

/// The payloads of a sequence of chunks, joined.
pub open spec fn joined(cs: Seq<Seq<u8>>) -> Seq<u8>
    decreases cs.len(),
{
    if cs.len() == 0 {
        Seq::empty()
    } else {
        cs[0] + joined(cs.skip(1))
    }
}

/// What a chunked stream `s` carries, when every size line is plain hex of
/// at most sixteen digits; `None` where the framing breaks off or differs.
pub open spec fn decode_chunked(s: Seq<u8>) -> Option<Seq<u8>>
    decreases s.len(),
{
    let m = hex_run(s);
    if m > 16 || s.len() < m + 2 || s[m as int] != 13 || s[m + 1 as int] != 10 {
        None
    } else {
        let n = hex_value(s.take(m as int));
        let t = s.skip((m + 2) as int);
        if n == 0 {
            if starts_with(t, crlf()) {
                Some(Seq::empty())
            } else {
                None
            }
        } else if t.len() < n + 2 || t[n as int] != 13 || t[n + 1 as int] != 10 {
            None
        } else {
            match decode_chunked(t.skip((n + 2) as int)) {
                Some(p) => Some(t.take(n as int) + p),
                None => None,
            }
        }
    }
}

/// What follows `r` more bytes of chunk data and the CRLF that ends them.
pub open spec fn after_data(t: Seq<u8>, r: nat) -> Option<Seq<u8>> {
    if t.len() < r + 2 || t[r as int] != 13 || t[r + 1 as int] != 10 {
        None
    } else {
        match decode_chunked(t.skip((r + 2) as int)) {
            Some(p) => Some(t.take(r as int) + p),
            None => None,
        }
    }
}

pub proof fn lemma_frames_push(cs: Seq<Seq<u8>>, c: Seq<u8>)
    ensures
        chunk_frames(cs.push(c)) == chunk_frames(cs) + chunk_frame(c),
        joined(cs.push(c)) == joined(cs) + c,
    decreases cs.len(),
{
    if cs.len() == 0 {
        let one = cs.push(c);
        assert(one.skip(1) =~= Seq::<Seq<u8>>::empty());
        assert(chunk_frames(one.skip(1)) == Seq::<u8>::empty());
        assert(joined(one.skip(1)) == Seq::<u8>::empty());
        assert(one[0] == c);
        assert(chunk_frames(one) =~= chunk_frames(cs) + chunk_frame(c));
        assert(joined(one) =~= joined(cs) + c);
    } else {
        assert(cs.push(c).skip(1) =~= cs.skip(1).push(c));
        lemma_frames_push(cs.skip(1), c);
        assert(chunk_frames(cs.push(c)) =~= chunk_frames(cs) + chunk_frame(c));
        assert(joined(cs.push(c)) =~= joined(cs) + c);
    }
}

/// The last chunk decodes to nothing, whatever follows it.
proof fn lemma_decode_last(rest: Seq<u8>)
    ensures
        decode_chunked(last_chunk() + rest) == Some(Seq::<u8>::empty()),
{
    let s = last_chunk() + rest;
    assert(s.skip(1) =~= seq![13u8, 10u8, 13u8, 10u8] + rest);
    assert(hex_run(s.skip(1)) == 0);
    assert(hex_run(s) == 1);
    let d = s.take(1);
    assert(d =~= seq![48u8]);
    assert(d.drop_last() =~= Seq::<u8>::empty());
    assert(hex_value(d.drop_last()) == 0);
    assert(hex_value(d) == 0);
    assert(s.skip(3) =~= crlf() + rest);
    assert(s.skip(3).take(2) =~= crlf());
}

/// A frame starts with a plain size line that reads back as its length.
proof fn lemma_frame_head(b: Seq<u8>, rest: Seq<u8>)
    requires
        b.len() < pow16(16),
    ensures
        hex_run(chunk_frame(b) + rest) == hex(b.len()).len(),
        hex(b.len()).len() <= 16,
        (chunk_frame(b) + rest).take(hex(b.len()).len() as int) == hex(b.len()),
        hex_value(hex(b.len())) == b.len(),
        (chunk_frame(b) + rest)[hex(b.len()).len() as int] == 13,
        (chunk_frame(b) + rest)[hex(b.len()).len() + 1 as int] == 10,
        (chunk_frame(b) + rest).skip(hex(b.len()).len() + 2 as int) == b + crlf() + rest,
{
    let h = hex(b.len());
    lemma_hex(b.len());
    let s = chunk_frame(b) + rest;
    assert(s =~= h + (crlf() + b + crlf() + rest));
    lemma_hex_run_prefix(h, crlf() + b + crlf() + rest);
    assert(s.take(h.len() as int) =~= h);
    assert(s.skip(h.len() + 2 as int) =~= b + crlf() + rest);
}

/// Decoding the frames of non-empty chunks, then the last chunk, gives back
/// the joined payloads, whatever follows.
pub proof fn lemma_decode_frames(cs: Seq<Seq<u8>>, rest: Seq<u8>)
    requires
        forall|i: int| 0 <= i < cs.len() ==> 0 < #[trigger] cs[i].len() < pow16(16),
    ensures
        decode_chunked(chunk_frames(cs) + last_chunk() + rest) == Some(joined(cs)),
    decreases cs.len(),
{
    let s = chunk_frames(cs) + last_chunk() + rest;
    if cs.len() == 0 {
        assert(s =~= last_chunk() + rest);
        lemma_decode_last(rest);
    } else {
        let c = cs[0];
        let tail = chunk_frames(cs.skip(1)) + last_chunk() + rest;
        assert(s =~= chunk_frame(c) + tail);
        lemma_frame_head(c, tail);
        let m = hex(c.len()).len();
        let t = s.skip((m + 2) as int);
        assert(t =~= c + crlf() + tail);
        assert(t.skip(c.len() + 2 as int) =~= tail);
        assert(t.take(c.len() as int) =~= c);
        assert forall|i: int| 0 <= i < cs.skip(1).len() implies 0 < #[trigger] cs.skip(1)[i].len()
            < pow16(16) by {
            assert(cs.skip(1)[i] == cs[i + 1]);
        }
        lemma_decode_frames(cs.skip(1), rest);
    }
}

/// Chunked framing round-trips: a body sent as non-empty chunks and closed
/// by the last chunk decodes to the joined chunks.
pub proof fn lemma_chunked_round_trip(cs: Seq<Seq<u8>>)
    requires
        forall|i: int| 0 <= i < cs.len() ==> 0 < #[trigger] cs[i].len() < pow16(16),
    ensures
        decode_chunked(chunk_frames(cs) + last_chunk()) == Some(joined(cs)),
{
    lemma_decode_frames(cs, Seq::empty());
    assert(chunk_frames(cs) + last_chunk() + Seq::<u8>::empty() =~= chunk_frames(cs)
        + last_chunk());
}

/// Chunked framing round-trips for any single byte sequence, empty or not.
pub proof fn lemma_chunk_round_trip(b: Seq<u8>)
    requires
        b.len() < pow16(16),
    ensures
        decode_chunked(chunk_frame(b) + last_chunk()) == Some(b),
{
    if b.len() == 0 {
        reveal_with_fuel(hex, 2);
        assert(hex(0) =~= seq![48u8]);
        assert(chunk_frame(b) =~= last_chunk());
        lemma_decode_last(last_chunk());
    } else {
        let cs = seq![b];
        assert(cs.skip(1) =~= Seq::<Seq<u8>>::empty());
        assert(chunk_frames(cs.skip(1)) == Seq::<u8>::empty());
        assert(joined(cs.skip(1)) == Seq::<u8>::empty());
        assert(chunk_frames(cs) =~= chunk_frame(b));
        assert(joined(cs) =~= b);
        lemma_chunked_round_trip(cs);
    }
}

/// Writes each buffer as one chunk on the sink it wraps.
pub struct ChunkedWriter<W> {
    inner: W,
    base: Ghost<Seq<u8>>,
    chunks: Ghost<Seq<Seq<u8>>>,
    failed: bool,
}

impl<W: Sink> ChunkedWriter<W> {
    /// Until a write fails, the sink holds what it held before, then the
    /// frames of the chunks written.
    pub closed spec fn wf(&self) -> bool {
        &&& self.inner.ready()
        &&& !self.failed ==> self.inner.written() == self.base@ + chunk_frames(self.chunks@)
    }

    /// Every chunk written so far holds at least one byte, and fewer than
    /// 2^64.
    pub open spec fn chunks_filled(&self) -> bool {
        forall|i: int|
            0 <= i < self.chunks().len() ==> 0 < #[trigger] self.chunks()[i].len() < pow16(16)
    }

    /// No write has failed yet, and the wrapped sink takes every write.
    pub closed spec fn healthy(&self) -> bool {
        !self.failed && self.inner.accepts()
    }

    /// What the wrapped sink held when the writer was made.
    pub closed spec fn base(&self) -> Seq<u8> {
        self.base@
    }

    /// The chunks written so far, in order.
    pub closed spec fn chunks(&self) -> Seq<Seq<u8>> {
        self.chunks@
    }

    pub fn new(inner: W) -> (r: Self)
        requires
            inner.ready(),
        ensures
            r.wf(),
            r.base() == inner.written(),
            r.chunks() == Seq::<Seq<u8>>::empty(),
            inner.accepts() ==> r.healthy(),
    {
        let ghost base = inner.written();
        let r = ChunkedWriter { inner, base: Ghost(base), chunks: Ghost(Seq::empty()), failed: false };
        assert(r.inner.written() =~= base + chunk_frames(Seq::empty()));
        r
    }

    /// Writes `buf` as one chunk and reports its length; the framing bytes
    /// are not counted.
    pub fn write(&mut self, buf: &[u8]) -> (r: Result<usize, Error>)
        requires
            old(self).wf(),
        ensures
            final(self).wf(),
            final(self).base() == old(self).base(),
            r is Ok ==> r == Ok::<usize, Error>(buf@.len() as usize) && final(self).chunks()
                == old(self).chunks().push(buf@),
            r is Err ==> final(self).chunks() == old(self).chunks(),
            old(self).healthy() ==> r is Ok && final(self).healthy(),
    {
        if self.failed {
            return Err(Error::Io(crate::error::IoKind::Other));
        }
        let mut frame: Vec<u8> = Vec::new();
        push_hex(&mut frame, buf.len() as u64);
        frame.push(13);
        frame.push(10);
        extend_bytes(&mut frame, buf);
        frame.push(13);
        frame.push(10);
        match self.inner.write_all(frame.as_slice()) {
            Ok(()) => {
                proof {
                    assert(frame@ =~= chunk_frame(buf@));
                    lemma_frames_push(self.chunks@, buf@);
                    if !old(self).failed {
                        assert(self.inner.written() =~= self.base@ + chunk_frames(
                            self.chunks@.push(buf@),
                        ));
                    }
                }
                self.chunks = Ghost(self.chunks@.push(buf@));
                Ok(buf.len())
            },
            Err(e) => {
                self.failed = true;
                Err(e)
            },
        }
    }

    /// Ends the body with the last chunk and hands back the sink.
    pub fn close(self) -> (r: Result<W, Error>)
        requires
            self.wf(),
        ensures
            r matches Ok(w) ==> w.written() == self.base() + chunk_frames(self.chunks())
                + last_chunk(),
            self.healthy() ==> r is Ok,
    {
        if self.failed {
            return Err(Error::Io(crate::error::IoKind::Other));
        }
        let mut inner = self.inner;
        let end: [u8; 5] = [48, 13, 10, 13, 10];
        inner.write_all(&end)?;
        assert(end@ =~= last_chunk());
        Ok(inner)
    }
}

impl<W: Sink> Sink for ChunkedWriter<W> {
    /// The payload accepted so far, without framing.
    open spec fn written(&self) -> Seq<u8> {
        joined(self.chunks())
    }

    /// Well formed, with no empty chunk.
    open spec fn ready(&self) -> bool {
        self.wf() && self.chunks_filled()
    }

    open spec fn start(&self) -> Seq<u8> {
        self.base()
    }

    open spec fn accepts(&self) -> bool {
        self.healthy()
    }

    /// Writes `buf` as one chunk; an empty buffer writes nothing.
    fn write_all(&mut self, buf: &[u8]) -> (r: Result<(), Error>) {
        if buf.len() == 0 {
            assert(joined(self.chunks@) + buf@ =~= joined(self.chunks@));
            return Ok(());
        }
        proof {
            lemma_frames_push(self.chunks@, buf@);
            lemma_pow16_16();
        }
        self.write(buf)?;
        Ok(())
    }
}

/// Reads the CRLF that ends a line.
pub struct LineEnding;

impl Parser<()> for LineEnding {
    open spec fn outcome(&self, buf: Seq<u8>) -> Option<Option<nat>> {
        if starts_with(buf, crlf()) {
            Some(Some(2))
        } else if buf.len() == 0 || (buf.len() == 1 && buf[0] == 13) {
            Some(None)
        } else {
            None
        }
    }

    open spec fn yields(&self, buf: Seq<u8>, v: ()) -> bool {
        true
    }

    open spec fn failure(&self) -> Error {
        Error::InvalidLineEnding
    }

    fn parse(&self, buf: &[u8]) -> (r: Result<Status<()>, Error>) {
        if buf.len() >= 2 && buf[0] == 13 && buf[1] == 10 {
            assert(buf@.take(2) =~= crlf());
            Ok(Status::Complete(2, ()))
        } else if buf.len() == 0 || (buf.len() == 1 && buf[0] == 13) {
            Ok(Status::Partial)
        } else {
            Err(Error::InvalidLineEnding)
        }
    }
}

/// A size line whose outcome is plain to state: at most sixteen hex digits,
/// then nothing yet or a CR.
pub open spec fn plain_size_line(buf: Seq<u8>) -> bool {
    let m = hex_run(buf);
    m <= 16 && (buf.len() == m || buf[m as int] == 13)
}

/// The outcome on a plain size line: more bytes needed up to the CR, then
/// the size and the bytes up to LF, or a rejection.
pub open spec fn plain_size_outcome(buf: Seq<u8>) -> Option<Option<(nat, nat)>> {
    let m = hex_run(buf);
    if buf.len() <= m + 1 {
        Some(None)
    } else if buf[m + 1 as int] == 10 {
        Some(Some(((m + 2) as nat, hex_value(buf.take(m as int)))))
    } else {
        None
    }
}

/// How httparse reads a chunk-size line: rejected, incomplete, or the bytes
/// it spans and the size.
pub uninterp spec fn chunk_size_line(buf: Seq<u8>) -> Option<Option<(nat, nat)>>;

pub open spec fn size_status(r: Result<Status<u64>, Error>) -> Option<Option<(nat, nat)>> {
    match r {
        Ok(Status::Complete(k, n)) => Some(Some((k as nat, n as nat))),
        Ok(Status::Partial) => Some(None),
        Err(_) => None,
    }
}

/// Relies on httparse::parse_chunk_size to read the size line of a chunk:
/// hex digits (at most sixteen), an optional extension, CRLF.
#[verifier::external_body]
fn parse_chunk_size(buf: &[u8]) -> (r: Result<Status<u64>, Error>)
    ensures
        size_status(r) == chunk_size_line(buf@),
        plain_size_line(buf@) ==> size_status(r) == plain_size_outcome(buf@),
        r matches Ok(Status::Complete(k, _)) ==> 2 <= k <= buf@.len(),
        r matches Err(e) ==> e == Error::InvalidChunkSize,
{
    match httparse::parse_chunk_size(buf) {
        Ok(httparse::Status::Complete((k, n))) => Ok(Status::Complete(k, n)),
        Ok(httparse::Status::Partial) => Ok(Status::Partial),
        Err(_) => Err(Error::InvalidChunkSize),
    }
}

/// Reads the size line of a chunk.
pub struct ChunkSize;

impl ChunkSize {
    pub open spec fn line(buf: Seq<u8>) -> Option<Option<(nat, nat)>> {
        if plain_size_line(buf) {
            plain_size_outcome(buf)
        } else {
            chunk_size_line(buf)
        }
    }
}

impl Parser<u64> for ChunkSize {
    open spec fn outcome(&self, buf: Seq<u8>) -> Option<Option<nat>> {
        match ChunkSize::line(buf) {
            Some(Some((k, _))) => Some(Some(k)),
            Some(None) => Some(None),
            None => None,
        }
    }

    open spec fn yields(&self, buf: Seq<u8>, v: u64) -> bool {
        ChunkSize::line(buf) matches Some(Some((k, n))) ==> n == v as nat && 2 <= k <= buf.len()
    }

    open spec fn failure(&self) -> Error {
        Error::InvalidChunkSize
    }

    fn parse(&self, buf: &[u8]) -> (r: Result<Status<u64>, Error>) {
        parse_chunk_size(buf)
    }
}

/// On a stream that starts with a plain size line, every prefix reads as
/// incomplete until the line's LF, and as that line from there on.
proof fn lemma_size_prefixes(s: Seq<u8>, j: int)
    requires
        hex_run(s) <= 16,
        s.len() >= hex_run(s) + 2,
        s[hex_run(s) as int] == 13,
        s[hex_run(s) + 1 as int] == 10,
        0 <= j <= s.len(),
    ensures
        ChunkSize::line(s.take(j)) == if j < hex_run(s) + 2 {
            Some(None::<(nat, nat)>)
        } else {
            Some(Some(((hex_run(s) + 2) as nat, hex_value(s.take(hex_run(s) as int)))))
        },
{
    let m = hex_run(s);
    let p = s.take(j);
    lemma_hex_run_take(s, j);
    if j <= m {
        assert(hex_run(p) == j);
    } else {
        assert(hex_run(p) == m);
        assert(p[m as int] == 13);
        if j >= m + 2 {
            assert(p[m + 1 as int] == 10);
            assert(p.take(m as int) =~= s.take(m as int));
        }
    }
}

/// What reading a CRLF makes of a stream held whole: the rest after it,
/// the end of the stream inside it, or another byte where it should be.
pub open spec fn line_end_result(t: Seq<u8>) -> Result<Seq<u8>, Error> {
    if starts_with(t, crlf()) {
        Ok(t.skip(2))
    } else if t.len() == 0 || (t.len() == 1 && t[0] == 13) {
        Err(Error::Io(IoKind::UnexpectedEof))
    } else {
        Err(Error::InvalidLineEnding)
    }
}

/// What reading a size line makes of a stream held whole: the size and
/// the rest after the line, or the error.
pub open spec fn size_result(s: Seq<u8>) -> Result<(nat, Seq<u8>), Error> {
    match ChunkSize::line(s) {
        Some(Some((k, n))) => if 2 <= k <= s.len() {
            Ok((n, s.skip(k as int)))
        } else {
            Err(Error::InvalidChunkSize)
        },
        Some(None) => Err(short_error(s)),
        None => Err(Error::InvalidChunkSize),
    }
}

/// The error that reading a size line meets at the start of `s`, or,
/// after a zero size, the CRLF that ends the body.
pub open spec fn size_step_error(s: Seq<u8>) -> Option<Error> {
    match size_result(s) {
        Err(e) => Some(e),
        Ok((n, t)) => if n == 0 {
            match line_end_result(t) {
                Err(e) => Some(e),
                Ok(_) => None,
            }
        } else {
            None
        },
    }
}

/// The error met at the start of `s` before any payload byte: a bad or
/// cut-short size line, a bad end of the body, or a chunk whose first
/// byte the stream does not hold.
pub open spec fn front_error(s: Seq<u8>) -> Option<Error> {
    match size_step_error(s) {
        Some(e) => Some(e),
        None => match size_result(s) {
            Ok((n, t)) => if n > 0 && t.len() == 0 {
                Some(Error::Io(IoKind::UnexpectedEof))
            } else {
                None
            },
            Err(_) => None,
        },
    }
}

/// What decoding a chunked stream held whole gives: the payload, or the
/// first error met: a bad size line, a missing CRLF, or the end of the
/// stream inside a frame.
pub open spec fn chunks_result(s: Seq<u8>) -> Result<Seq<u8>, Error>
    decreases s.len(), 1nat,
{
    match size_result(s) {
        Err(e) => Err(e),
        Ok((n, t)) => if t.len() >= s.len() {
            Err(Error::InvalidChunkSize)
        } else if n == 0 {
            match line_end_result(t) {
                Ok(_) => Ok(Seq::empty()),
                Err(e) => Err(e),
            }
        } else {
            data_result(t, n)
        },
    }
}

/// What follows `r` more bytes of chunk data in a stream held whole: the
/// data, its CRLF, then further chunks.
pub open spec fn data_result(t: Seq<u8>, r: nat) -> Result<Seq<u8>, Error>
    decreases t.len(), 0nat,
{
    if t.len() < r {
        Err(Error::Io(IoKind::UnexpectedEof))
    } else {
        match line_end_result(t.skip(r as int)) {
            Err(e) => Err(e),
            Ok(u) => if u.len() >= t.len() {
                Err(Error::InvalidLineEnding)
            } else {
                match chunks_result(u) {
                    Ok(p) => Ok(t.take(r as int) + p),
                    Err(e) => Err(e),
                }
            },
        }
    }
}

/// Data owed from the start of a stream: none, so the CRLF and the next
/// chunks follow.
proof fn lemma_data_none(s: Seq<u8>)
    ensures
        data_result(s, 0) == match line_end_result(s) {
            Err(e) => Err(e),
            Ok(u) => chunks_result(u),
        },
{
    assert(s.skip(0) =~= s);
    if let Ok(u) = line_end_result(s) {
        if let Ok(p) = chunks_result(u) {
            assert(s.take(0) + p =~= p);
        }
    }
}

/// Consuming `a` bytes of chunk data leaves the outcome of the rest as it
/// was, less those bytes.
proof fn lemma_data_skip(t: Seq<u8>, r: nat, a: nat)
    requires
        a <= r,
        a <= t.len(),
    ensures
        data_result(t.skip(a as int), (r - a) as nat) == match data_result(t, r) {
            Ok(q) => Ok(q.skip(a as int)),
            Err(e) => Err(e),
        },
{
    let t2 = t.skip(a as int);
    if t.len() >= r {
        assert(t2.skip(r - a) =~= t.skip(r as int));
        if let Ok(u) = line_end_result(t.skip(r as int)) {
            if let Ok(p) = chunks_result(u) {
                assert(t2.take(r - a) + p =~= (t.take(r as int) + p).skip(a as int));
            }
        }
    }
}

/// Reads the CRLF at the start of `reader`.
pub fn read_line_ending<R: BufSource>(reader: &mut R) -> (r: Result<(), Error>)
    ensures
        final(reader).whole() == old(reader).whole(),
        final(reader).rest().len() <= old(reader).rest().len(),
        r is Ok ==> starts_with(old(reader).rest(), crlf()) && final(reader).rest() == old(
            reader,
        ).rest().skip(2),
        old(reader).whole() ==> match line_end_result(old(reader).rest()) {
            Ok(t) => r is Ok && final(reader).rest() == t,
            Err(e) => r == Err::<(), Error>(e),
        },
{
    let ghost s = reader.rest();
    let r = parse(reader, &LineEnding);
    proof {
        if r is Ok {
            let (n, k) = choose|n: int, k: nat|
                #![trigger LineEnding.outcome(s.take(n)), s.skip(k as int)]
                0 <= n <= s.len() && LineEnding.outcome(s.take(n)) == Some(Some(k))
                    && LineEnding.yields(s.take(n), ()) && k <= n && reader.rest() == s.skip(
                    k as int,
                );
            assert(s.take(n).take(2) =~= s.take(2));
        }
    }
    r
}

/// Reads the size line at the start of `reader`.
pub fn read_chunk_size<R: BufSource>(reader: &mut R) -> (r: Result<u64, Error>)
    ensures
        final(reader).whole() == old(reader).whole(),
        final(reader).rest().len() <= old(reader).rest().len(),
        ({
            let s = old(reader).rest();
            let m = hex_run(s);
            (m <= 16 && s.len() >= m + 2 && s[m as int] == 13 && s[m + 1 as int] == 10) ==> {
                &&& (r matches Ok(n) ==> n as nat == hex_value(s.take(m as int))
                    && final(reader).rest() == s.skip(m + 2 as int))
                &&& old(reader).whole() ==> r is Ok
            }
        }),
        old(reader).whole() ==> match size_result(old(reader).rest()) {
            Ok((n, t)) => r matches Ok(v) && v as nat == n && final(reader).rest() == t,
            Err(e) => r == Err::<u64, Error>(e),
        },
{
    let ghost s = reader.rest();
    proof {
        let m = hex_run(s);
        if m <= 16 && s.len() >= m + 2 && s[m as int] == 13 && s[m + 1 as int] == 10 {
            lemma_size_prefixes(s, s.len() as int);
            assert(s.take(s.len() as int) =~= s);
        }
    }
    let r = parse(reader, &ChunkSize);
    proof {
        if old(reader).whole() {
            assert(parsed_whole(ChunkSize, s, reader.rest(), r));
        }
        let m = hex_run(s);
        if m <= 16 && s.len() >= m + 2 && s[m as int] == 13 && s[m + 1 as int] == 10 {
            if let Ok(v) = r {
                let (n, k) = choose|n: int, k: nat|
                    #![trigger ChunkSize.outcome(s.take(n)), s.skip(k as int)]
                    0 <= n <= s.len() && ChunkSize.outcome(s.take(n)) == Some(Some(k))
                        && ChunkSize.yields(s.take(n), v) && k <= n && reader.rest() == s.skip(
                        k as int,
                    );
                lemma_size_prefixes(s, n);
            }
        }
    }
    r
}

#[derive(PartialEq, Eq, Structural)]
enum State {
    Init,
    Next,
    Done,
}

/// Decodes a chunked body from the source it wraps.
pub struct ChunkedReader<R> {
    reader: R,
    rem: u64,
    state: State,
}

impl<R: BufSource> ChunkedReader<R> {
    /// The wrapped source.
    pub closed spec fn source(&self) -> R {
        self.reader
    }

    /// The payload still to come, where the source is framed as expected.
    pub closed spec fn pending(&self) -> Option<Seq<u8>> {
        match self.state {
            State::Init => decode_chunked(self.reader.rest()),
            State::Next => after_data(self.reader.rest(), self.rem as nat),
            State::Done => Some(Seq::empty()),
        }
    }

    /// What reading the rest of the body gives, where the source is held
    /// in memory whole: the payload, or the error met.
    pub closed spec fn result(&self) -> Result<Seq<u8>, Error> {
        match self.state {
            State::Init => chunks_result(self.reader.rest()),
            State::Next => data_result(self.reader.rest(), self.rem as nat),
            State::Done => Ok(Seq::empty()),
        }
    }

    /// The payload bytes still owed by the current chunk.
    pub closed spec fn remainder(&self) -> nat {
        self.rem as nat
    }

    /// The error that the next fill meets, where the source is held in
    /// memory whole: inside a chunk, only the end of the stream; between
    /// chunks, a bad CRLF after the last one, then what `front_error` says.
    pub closed spec fn next_error(&self) -> Option<Error> {
        match self.state {
            State::Init => front_error(self.reader.rest()),
            State::Next => if self.rem > 0 {
                if self.reader.rest().len() == 0 {
                    Some(Error::Io(IoKind::UnexpectedEof))
                } else {
                    None
                }
            } else {
                match line_end_result(self.reader.rest()) {
                    Err(e) => Some(e),
                    Ok(u) => front_error(u),
                }
            },
            State::Done => None,
        }
    }

    /// The decoded bytes buffered now: the source's window, cut at the end
    /// of the current chunk.
    pub closed spec fn data(&self) -> Seq<u8> {
        let w = self.reader.window();
        if w.len() > self.rem {
            w.take(self.rem as int)
        } else {
            w
        }
    }

    pub closed spec fn wf(&self) -> bool {
        (self.state == State::Init || self.state == State::Done) ==> self.rem == 0
    }

    pub fn new(reader: R) -> (r: Self)
        ensures
            r.wf(),
            r.source() == reader,
            r.pending() == decode_chunked(reader.rest()),
            r.result() == chunks_result(reader.rest()),
    {
        ChunkedReader { reader, rem: 0, state: State::Init }
    }

    /// Reads the next size line, and the end of the body after a zero size.
    fn next_chunk(&mut self) -> (r: Result<(), Error>)
        requires
            old(self).state == State::Next,
            old(self).rem == 0,
        ensures
            final(self).wf(),
            final(self).reader.whole() == old(self).reader.whole(),
            final(self).reader.rest().len() <= old(self).reader.rest().len(),
            decode_chunked(old(self).reader.rest()) matches Some(q) ==> {
                &&& (r is Ok ==> final(self).pending() == Some(q) && (final(self).state
                    == State::Done || final(self).rem > 0))
                &&& old(self).reader.whole() ==> r is Ok
            },
            old(self).reader.whole() ==> {
                &&& (r is Ok ==> final(self).result() == chunks_result(old(self).reader.rest()) && (
                final(self).state == State::Done || final(self).rem > 0))
                &&& (r matches Err(e) ==> chunks_result(old(self).reader.rest()) == Err::<
                    Seq<u8>,
                    Error,
                >(e))
            },
            old(self).reader.whole() ==> match size_step_error(old(self).reader.rest()) {
                Some(e) => r == Err::<(), Error>(e),
                None => r is Ok && (final(self).state == State::Next ==> (size_result(
                    old(self).reader.rest(),
                ) matches Ok((n, t)) && final(self).rem == n && final(self).reader.rest() == t)),
            },
    {
        let ghost s = self.reader.rest();
        let n = read_chunk_size(&mut self.reader)?;
        self.rem = n;
        if n == 0 {
            read_line_ending(&mut self.reader)?;
            self.state = State::Done;
        }
        Ok(())
    }

    /// Moves past any framing to the next decoded bytes, then fills the
    /// source. A chunk that the stream ends inside fails with
    /// `UnexpectedEof`.
    #[verifier::rlimit(60)]
    pub fn fill_buf(&mut self) -> (r: Result<(), Error>)
        requires
            old(self).wf(),
        ensures
            final(self).wf(),
            final(self).source().whole() == old(self).source().whole(),
            final(self).source().rest().len() <= old(self).source().rest().len(),
            r is Ok ==> final(self).data().len() <= final(self).source().rest().len(),
            r is Ok ==> final(self).data().len() <= final(self).remainder() && final(self).data()
                == final(self).source().window().take(final(self).data().len() as int),
            old(self).source().whole() ==> match old(self).next_error() {
                Some(e) => r == Err::<(), Error>(e),
                None => r is Ok,
            },
            old(self).pending() matches Some(q) ==> {
                &&& (r is Ok ==> final(self).pending() == Some(q) && q.take(
                    final(self).data().len() as int,
                ) == final(self).data() && (final(self).data().len() == 0 <==> q.len() == 0))
                &&& old(self).source().whole() ==> r is Ok
            },
            old(self).source().whole() ==> {
                &&& (r matches Err(e) ==> old(self).result() == Err::<Seq<u8>, Error>(e))
                &&& (old(self).result() is Ok ==> r is Ok)
                &&& (r is Ok ==> final(self).result() == old(self).result())
                &&& (r is Ok && final(self).data().len() == 0 ==> final(self).result() == Ok::<
                    Seq<u8>,
                    Error,
                >(Seq::empty()))
                &&& (old(self).result() matches Ok(q) ==> (r is Ok ==> q.take(
                    final(self).data().len() as int,
                ) == final(self).data()))
            },
    {
        if self.rem == 0 {
            match self.state {
                State::Init => {
                    self.state = State::Next;
                    self.next_chunk()?;
                },
                State::Next => {
                    let ghost s = self.reader.rest();
                    proof {
                        if after_data(s, 0) is Some {
                            assert(s.take(2) =~= crlf());
                        }
                    }
                    proof {
                        lemma_data_none(s);
                    }
                    read_line_ending(&mut self.reader)?;
                    proof {
                        if after_data(s, 0) is Some {
                            assert(s.take(0) + decode_chunked(s.skip(2)).unwrap() =~= decode_chunked(
                                s.skip(2),
                            ).unwrap());
                        }
                    }
                    self.next_chunk()?;
                },
                State::Done => {},
            }
        }
        let ghost t = self.reader.rest();
        self.reader.fill()?;
        if self.state == State::Next && self.rem > 0 && self.reader.buffer().len() == 0 {
            return Err(Error::Io(IoKind::UnexpectedEof));
        }
        proof {
            if self.reader.whole() && self.state == State::Next {
                if let Ok(q) = data_result(t, self.rem as nat) {
                    assert(q.take(self.rem as int) =~= t.take(self.rem as int));
                }
            }
            let w = self.reader.window();
            if self.state == State::Next && after_data(t, self.rem as nat) is Some {
                let q = after_data(t, self.rem as nat).unwrap();
                if w.len() > self.rem {
                    assert(q.take(self.rem as int) =~= w.take(self.rem as int));
                } else {
                    assert(q.take(w.len() as int) =~= w);
                }
            }
            if self.state == State::Done {
                assert(w.take(0) =~= Seq::<u8>::empty());
            }
        }
        Ok(())
    }

    /// The decoded bytes buffered now.
    pub fn buffer(&self) -> (r: &[u8])
        ensures
            r@ == self.data(),
    {
        let w = self.reader.buffer();
        if w.len() as u64 > self.rem {
            slice_subrange(w, 0, self.rem as usize)
        } else {
            w
        }
    }

    /// Drops the first `amt` decoded bytes.
    #[verifier::rlimit(40)]
    pub fn consume(&mut self, amt: usize)
        requires
            old(self).wf(),
            amt <= old(self).data().len(),
        ensures
            final(self).wf(),
            final(self).source().whole() == old(self).source().whole(),
            final(self).source().rest() == old(self).source().rest().skip(amt as int),
            old(self).pending() matches Some(q) ==> final(self).pending() == Some(q.skip(amt as int)),
            amt <= old(self).source().rest().len() ==> final(self).result() == match old(self).result() {
                Ok(q) => Ok(q.skip(amt as int)),
                Err(e) => Err(e),
            },
    {
        let ghost t = self.reader.rest();
        self.reader.consume(amt);
        self.rem = self.rem - amt as u64;
        proof {
            if self.state == State::Next && after_data(t, old(self).rem as nat) is Some {
                let r0 = old(self).rem as nat;
                let p = decode_chunked(t.skip(r0 + 2 as int)).unwrap();
                let t2 = t.skip(amt as int);
                assert(t2.len() >= self.rem + 2);
                assert(t2[self.rem as int] == t[r0 as int]);
                assert(t2[self.rem + 1 as int] == t[r0 + 1 as int]);
                assert(t.skip(amt as int).skip(self.rem + 2 as int) =~= t.skip(r0 + 2 as int));
                assert(t.skip(amt as int).take(self.rem as int) + p =~= (t.take(r0 as int)
                    + p).skip(amt as int));
            }
            if self.state == State::Next && amt <= t.len() {
                lemma_data_skip(t, old(self).rem as nat, amt as nat);
            }
            if self.state == State::Done || self.state == State::Init {
                assert(amt == 0);
                assert(Seq::<u8>::empty().skip(0) =~= Seq::<u8>::empty());
                assert(t.skip(0) =~= t);
                if let Some(q) = decode_chunked(t) {
                    assert(q.skip(0) =~= q);
                }
                if let Ok(q) = chunks_result(t) {
                    assert(q.skip(0) =~= q);
                }
            }
        }
    }

    /// Appends the rest of the decoded body to `out` and reports how many
    /// bytes that was.
    pub fn read_to_end(&mut self, out: &mut Vec<u8>) -> (r: Result<usize, Error>)
        requires
            old(self).wf(),
        ensures
            old(self).pending() matches Some(p) ==> {
                &&& (r is Ok ==> final(out)@ == old(out)@ + p)
                &&& old(self).source().whole() ==> r is Ok
            },
            r matches Ok(n) ==> final(out)@.len() == old(out)@.len() + n,
            old(self).source().whole() ==> match old(self).result() {
                Ok(p) => r is Ok && final(out)@ == old(out)@ + p,
                Err(e) => r == Err::<usize, Error>(e),
            },
    {
        let start = out.len();
        let ghost expected = self.pending();
        let ghost outcome = self.result();
        loop
            invariant
                self.wf(),
                self.source().whole() == old(self).source().whole(),
                start == old(out)@.len(),
                out@.len() >= start,
                out@.take(start as int) == old(out)@,
                expected == old(self).pending(),
                expected matches Some(p) ==> (self.pending() matches Some(q) && out@ + q == old(out)@
                    + p),
                outcome == old(self).result(),
                self.source().whole() ==> match outcome {
                    Ok(p) => self.result() matches Ok(q) && out@ + q == old(out)@ + p,
                    Err(e) => self.result() == Err::<Seq<u8>, Error>(e),
                },
            decreases self.source().rest().len(),
        {
            self.fill_buf()?;
            let buf = self.buffer();
            let n = buf.len();
            if n == 0 {
                proof {
                    if let Some(p) = expected {
                        let q = self.pending().unwrap();
                        assert(out@ + q =~= out@);
                    }
                    if self.source().whole() {
                        assert(out@ + Seq::<u8>::empty() =~= out@);
                    }
                }
                return Ok(out.len() - start);
            }
            let ghost before = out@;
            extend_bytes(out, buf);
            proof {
                assert(out@.take(start as int) =~= before.take(start as int));
                if let Some(p) = expected {
                    let q = self.pending().unwrap();
                    assert(out@ + q.skip(n as int) =~= before + q);
                }
                if self.source().whole() {
                    if let Ok(q) = self.result() {
                        assert(out@ + q.skip(n as int) =~= before + q);
                    }
                }
            }
            self.consume(n);
        }
    }
}

} // verus!
