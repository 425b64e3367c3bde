use vstd::prelude::*;

use crate::bytes::extend_bytes;
use crate::error::{Error, IoKind};
use crate::source::BufSource;

verus! {

/// Upper bound on the number of response headers.
pub const MAX_HEADERS: usize = 128;

/// Upper bound on the bytes accumulated while a head is incomplete.
pub const MAX_PARSE_BUF_LEN: usize = 131072;

/// What an incremental parser made of the bytes it was offered.
pub enum Status<T> {
    /// A value, taken from the first `.0` bytes.
    Complete(usize, T),
    /// More bytes are needed.
    Partial,
}

/// A pure parser over a byte prefix.
///
/// `outcome` is `None` when the bytes are rejected, `Some(None)` when more
/// are needed, and `Some(Some(k))` when a value was read from the first `k`
/// bytes; `yields` says which values may come with a complete outcome.
pub trait Parser<T> {
    spec fn outcome(&self, buf: Seq<u8>) -> Option<Option<nat>>;

    spec fn yields(&self, buf: Seq<u8>, v: T) -> bool;

    /// The error that the parser reports when it rejects its input.
    spec fn failure(&self) -> Error;

    fn parse(&self, buf: &[u8]) -> (r: Result<Status<T>, Error>)
        ensures
            match r {
                Ok(Status::Complete(k, v)) => {
                    &&& k <= buf@.len()
                    &&& self.outcome(buf@) == Some(Some(k as nat))
                    &&& self.yields(buf@, v)
                },
                Ok(Status::Partial) => self.outcome(buf@) == Some(None::<nat>),
                Err(e) => self.outcome(buf@) is None && e == self.failure(),
            },
    ;
}

/// The reader has read a value of `parser` that it found complete on the
/// first `n` bytes of `before`, and has moved past exactly the `k` bytes that
/// the parser claimed.
pub open spec fn parsed_from<T, P: Parser<T>>(
    parser: P,
    before: Seq<u8>,
    after: Seq<u8>,
    v: T,
) -> bool {
    exists|n: int, k: nat|
        #![trigger parser.outcome(before.take(n)), before.skip(k as int)]
        0 <= n <= before.len() && parser.outcome(before.take(n)) == Some(Some(k)) && parser.yields(
            before.take(n),
            v,
        ) && k <= n && after == before.skip(k as int)
}

/// The parser settles at `m` on `s`: it asks for more on every prefix
/// shorter than `m`, and reads `k` bytes from every prefix from `m` on.
pub open spec fn settles<T, P: Parser<T>>(parser: P, s: Seq<u8>, m: nat, k: nat) -> bool {
    &&& k <= m <= s.len()
    &&& forall|j: int| 0 <= j < m ==> parser.outcome(#[trigger] s.take(j)) == Some(None::<nat>)
    &&& forall|j: int| m <= j <= s.len() ==> parser.outcome(#[trigger] s.take(j)) == Some(Some(k))
}

/// Whatever the source and however it fills, a parse that succeeds on a
/// stream where the parser settles with `k` bytes leaves the reader
/// exactly `k` bytes further on.
pub proof fn law_parse_advances_by_k<T, P: Parser<T>>(
    parser: P,
    s: Seq<u8>,
    after: Seq<u8>,
    v: T,
    m: nat,
    k: nat,
)
    requires
        settles(parser, s, m, k),
        parsed_from(parser, s, after, v),
    ensures
        after == s.skip(k as int),
{
    let (n, k2) = choose|n: int, k2: nat|
        #![trigger parser.outcome(s.take(n)), s.skip(k2 as int)]
        0 <= n <= s.len() && parser.outcome(s.take(n)) == Some(Some(k2)) && parser.yields(
            s.take(n),
            v,
        ) && k2 <= n && after == s.skip(k2 as int);
    if n < m {
        assert(parser.outcome(s.take(n)) == Some(None::<nat>));
    } else {
        assert(parser.outcome(s.take(n)) == Some(Some(k)));
    }
}

/// The error for a stream `s` on which the parser still asks for more at
/// its end: the buffer limit where `s` is longer than it, else the end of
/// the stream.
pub open spec fn short_error(s: Seq<u8>) -> Error {
    if s.len() > MAX_PARSE_BUF_LEN {
        Error::Io(IoKind::BufferLimit)
    } else {
        Error::Io(IoKind::UnexpectedEof)
    }
}

/// What `parse` returns on a source held in memory whole: the value read
/// from the first `k` bytes, or the error.
pub open spec fn parsed_whole<T, P: Parser<T>>(
    parser: P,
    before: Seq<u8>,
    after: Seq<u8>,
    r: Result<T, Error>,
) -> bool {
    match parser.outcome(before) {
        Some(Some(k)) => r matches Ok(v) && parser.yields(before, v) && after == before.skip(
            k as int,
        ),
        Some(None) => r == Err::<T, Error>(short_error(before)),
        None => r == Err::<T, Error>(parser.failure()),
    }
}

/// Runs `parser` over what `reader` yields until it completes, consuming
/// exactly the bytes that the parser claimed.
///
/// The parser first sees the reader's current window; while it asks for
/// more, the bytes are copied into a growing buffer, bounded by
/// `MAX_PARSE_BUF_LEN`.
pub fn parse<T, R: BufSource, P: Parser<T>>(reader: &mut R, parser: &P) -> (r: Result<T, Error>)
    ensures
        r matches Ok(v) ==> parsed_from(*parser, old(reader).rest(), final(reader).rest(), v),
        final(reader).whole() == old(reader).whole(),
        final(reader).rest().len() <= old(reader).rest().len(),
        old(reader).whole() ==> parsed_whole(*parser, old(reader).rest(), final(reader).rest(), r),
{
    reader.fill()?;
    let buf = reader.buffer();
    match parser.parse(buf)? {
        Status::Complete(k, v) => {
            let ghost before = reader.rest();
            let ghost n = buf@.len() as int;
            reader.consume(k);
            proof {
                assert(before.take(n) == buf@);
                if old(reader).whole() {
                    assert(buf@ == before);
                }
            }
            Ok(v)
        },
        Status::Partial => parse_buffered(reader, parser),
    }
}

/// The slow path of `parse`: accumulates the stream until the parser
/// completes on the accumulated bytes.
///
/// A parser that completes on fewer bytes than it earlier asked more for
/// is rejected, since those bytes are already consumed. The accumulated
/// bytes never exceed `MAX_PARSE_BUF_LEN`: the fill that would pass it
/// fails with the buffer limit. A stream that ends while the parser still
/// asks for more fails with `UnexpectedEof`.
fn parse_buffered<T, R: BufSource, P: Parser<T>>(reader: &mut R, parser: &P) -> (r: Result<T, Error>)
    ensures
        r matches Ok(v) ==> parsed_from(*parser, old(reader).rest(), final(reader).rest(), v),
        final(reader).whole() == old(reader).whole(),
        final(reader).rest().len() <= old(reader).rest().len(),
        old(reader).whole() ==> {
            let s = old(reader).rest();
            if s.len() == 0 {
                r == Err::<T, Error>(Error::Io(IoKind::UnexpectedEof))
            } else if s.len() > MAX_PARSE_BUF_LEN {
                r == Err::<T, Error>(Error::Io(IoKind::BufferLimit))
            } else {
                match parser.outcome(s) {
                    Some(Some(k)) => r matches Ok(v) && parser.yields(s, v) && final(reader).rest()
                        == s.skip(k as int),
                    Some(None) => r == Err::<T, Error>(Error::Io(IoKind::UnexpectedEof)),
                    None => r == Err::<T, Error>(parser.failure()),
                }
            }
        },
{
    let ghost start = reader.rest();
    let mut acc: Vec<u8> = Vec::new();
    loop
        invariant
            acc@.len() <= start.len(),
            acc@ == start.take(acc@.len() as int),
            reader.rest() == start.skip(acc@.len() as int),
            start == old(reader).rest(),
            reader.whole() == old(reader).whole(),
            acc@.len() <= MAX_PARSE_BUF_LEN,
            reader.whole() && acc@.len() > 0 ==> acc@ == start && 0 < start.len()
                <= MAX_PARSE_BUF_LEN && parser.outcome(start) == Some(None::<nat>),
        decreases reader.rest().len(),
    {
        reader.fill()?;
        let buf = reader.buffer();
        let blen = buf.len();
        if blen == 0 {
            return Err(Error::Io(IoKind::UnexpectedEof));
        }
        if blen > MAX_PARSE_BUF_LEN || acc.len() > MAX_PARSE_BUF_LEN - blen {
            return Err(Error::Io(IoKind::BufferLimit));
        }
        let prev = acc.len();
        extend_bytes(&mut acc, buf);
        proof {
            assert(acc@ =~= start.take(acc@.len() as int));
        }
        proof {
            if reader.whole() {
                assert(prev == 0);
                assert(acc@ =~= start);
            }
        }
        match parser.parse(acc.as_slice())? {
            Status::Complete(k, v) => {
                if k < prev {
                    return Err(Error::Parse);
                }
                let ghost mid = reader.rest();
                reader.consume(k - prev);
                proof {
                    assert(reader.rest() =~= start.skip(k as int));
                }
                return Ok(v);
            },
            Status::Partial => {
                reader.consume(blen);
                proof {
                    assert(reader.rest() =~= start.skip(acc@.len() as int));
                }
            },
        }
    }
}

} // verus!
