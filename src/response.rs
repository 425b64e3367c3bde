use vstd::prelude::*;

use crate::bytes::extend_bytes;
use crate::chunked::{chunks_result, decode_chunked, ChunkedReader};
use crate::error::Error;
use crate::headers::{
    check_bytes_text, first, lower, valid_name, valid_text, valid_value, Entries, HeaderMap,
};
use crate::names::{chunked_token, transfer_encoding_name, transfer_encoding_name_bytes};
use crate::parse::{parse, parsed_whole, short_error, Parser, Status, MAX_HEADERS};
use crate::request::Version;
use crate::source::BufSource;
use crate::tokens::{parts, split_tokens};

verus! {

/// Status code, minor version and headers of a response head, as read.
pub type HeadView = (Option<u16>, Option<u8>, Entries);

/// A response head as the parser returns it.
pub struct RawHead {
    pub code: Option<u16>,
    pub version: Option<u8>,
    pub headers: Vec<(Vec<u8>, Vec<u8>)>,
}

impl View for RawHead {
    type V = HeadView;

    open spec fn view(&self) -> HeadView {
        (
            self.code,
            self.version,
            self.headers@.map_values(|e: (Vec<u8>, Vec<u8>)| (e.0@, e.1@)),
        )
    }
}

/// How httparse reads a response head from `buf` with room for
/// `max_headers` headers: rejected, incomplete, or the length of the head
/// and what it holds.
pub uninterp spec fn response_head(buf: Seq<u8>, max_headers: nat) -> Option<
    Option<(nat, HeadView)>,
>;

pub open spec fn head_status(r: Result<Status<RawHead>, Error>) -> Option<Option<(nat, HeadView)>> {
    match r {
        Ok(Status::Complete(k, h)) => Some(Some((k as nat, h@))),
        Ok(Status::Partial) => Some(None),
        Err(_) => None,
    }
}

/// Relies on httparse's `Response::parse`, with room for `max_headers`
/// headers, to read a status line and headers up to the blank line.
#[verifier::external_body]
fn parse_response_head(buf: &[u8], max_headers: usize) -> (r: Result<Status<RawHead>, Error>)
    ensures
        head_status(r) == response_head(buf@, max_headers as nat),
        r matches Ok(Status::Complete(k, _)) ==> k <= buf@.len(),
        r matches Err(e) ==> e == Error::Parse,
{
    let mut headers = vec![httparse::EMPTY_HEADER; max_headers];
    let mut parser = httparse::Response::new(&mut headers);
    match parser.parse(buf) {
        Ok(httparse::Status::Complete(k)) => {
            let headers = parser.headers.iter().map(|h| (h.name.as_bytes().to_vec(), h.value.to_vec()));
            Ok(Status::Complete(k, RawHead { code: parser.code, version: parser.version, headers: headers.collect() }))
        },
        Ok(httparse::Status::Partial) => Ok(Status::Partial),
        Err(_) => Err(Error::Parse),
    }
}

/// Reads a response head, with room for `MAX_HEADERS` headers.
pub struct HeadParser;

impl Parser<RawHead> for HeadParser {
    open spec fn outcome(&self, buf: Seq<u8>) -> Option<Option<nat>> {
        match response_head(buf, MAX_HEADERS as nat) {
            Some(Some((k, _))) => Some(Some(k)),
            Some(None) => Some(None),
            None => None,
        }
    }

    open spec fn yields(&self, buf: Seq<u8>, v: RawHead) -> bool {
        response_head(buf, MAX_HEADERS as nat) matches Some(Some((_, h))) ==> h == v@
    }

    open spec fn failure(&self) -> Error {
        Error::Parse
    }

    fn parse(&self, buf: &[u8]) -> (r: Result<Status<RawHead>, Error>) {
        parse_response_head(buf, MAX_HEADERS)
    }
}

/// Does the first `transfer-encoding` of `h` list `chunked`?
pub open spec fn chunked_listed(h: Entries) -> bool {
    first(h, transfer_encoding_name()) matches Some(v) && parts(v).contains(chunked_token())
}

/// What a body reader over `rest` yields, given the response headers `h`.
pub open spec fn body_view(h: Entries, rest: Seq<u8>) -> Option<Seq<u8>> {
    if chunked_listed(h) {
        decode_chunked(rest)
    } else {
        Some(rest)
    }
}

/// What reading a whole body over `rest` gives, given the response
/// headers `h`: the body, or the error that its chunked framing meets.
pub open spec fn body_result(h: Entries, rest: Seq<u8>) -> Result<Seq<u8>, Error> {
    if chunked_listed(h) {
        chunks_result(rest)
    } else {
        Ok(rest)
    }
}

enum Layer<R> {
    Plain(R),
    Chunked(ChunkedReader<R>),
}

/// The body of a response, read from the stream after its head, and
/// decoded from chunks where the headers ask for it.
pub struct BodyReader<R> {
    inner: Layer<R>,
}

impl<R: BufSource> BodyReader<R> {
    /// The body still to come, where the stream is framed as announced.
    pub closed spec fn pending(&self) -> Option<Seq<u8>> {
        match self.inner {
            Layer::Plain(r) => Some(r.rest()),
            Layer::Chunked(c) => c.pending(),
        }
    }

    /// What reading the rest of the body gives, where the stream is held in
    /// memory whole.
    pub closed spec fn result(&self) -> Result<Seq<u8>, Error> {
        match self.inner {
            Layer::Plain(r) => Ok(r.rest()),
            Layer::Chunked(c) => c.result(),
        }
    }

    /// The stream is held in memory in full.
    pub closed spec fn whole(&self) -> bool {
        match self.inner {
            Layer::Plain(r) => r.whole(),
            Layer::Chunked(c) => c.source().whole(),
        }
    }

    /// The body bytes buffered now.
    pub closed spec fn data(&self) -> Seq<u8> {
        match self.inner {
            Layer::Plain(r) => r.window(),
            Layer::Chunked(c) => c.data(),
        }
    }

    pub closed spec fn wf(&self) -> bool {
        match self.inner {
            Layer::Plain(_) => true,
            Layer::Chunked(c) => c.wf(),
        }
    }

    /// Wraps `reader`, decoding chunks when the first `transfer-encoding`
    /// of `headers` lists `chunked`.
    pub fn new(reader: R, headers: Option<&HeaderMap>) -> (r: Result<Self, Error>)
        ensures
            r is Err <==> (headers matches Some(h) && (first(h@, transfer_encoding_name()) matches Some(
                v,
            ) && !valid_text(v))),
            r is Err ==> r == Err::<Self, Error>(Error::HeaderToStr),
            r matches Ok(b) ==> {
                &&& b.wf()
                &&& b.whole() == reader.whole()
                &&& b.pending() == match headers {
                    Some(h) => body_view(h@, reader.rest()),
                    None => Some(reader.rest()),
                }
                &&& b.result() == match headers {
                    Some(h) => body_result(h@, reader.rest()),
                    None => Ok(reader.rest()),
                }
            },
    {
        let h = match headers {
            None => return Ok(BodyReader { inner: Layer::Plain(reader) }),
            Some(h) => h,
        };
        let te = transfer_encoding_name_bytes();
        assert(lower(transfer_encoding_name()) =~= transfer_encoding_name());
        let v = match h.get(te.as_slice()) {
            None => return Ok(BodyReader { inner: Layer::Plain(reader) }),
            Some(v) => v,
        };
        if !check_bytes_text(v) {
            return Err(Error::HeaderToStr);
        }
        let tokens = split_tokens(v);
        let mut chunked = false;
        let mut i: usize = 0;
        let c: [u8; 7] = [99, 104, 117, 110, 107, 101, 100];
        assert(c@ =~= chunked_token());
        let ghost ps = tokens@.map_values(|t: Vec<u8>| t@);
        while i < tokens.len()
            invariant
                i <= tokens@.len(),
                ps == parts(v@),
                ps == tokens@.map_values(|t: Vec<u8>| t@),
                chunked == exists|k: int| 0 <= k < i && ps[k] == chunked_token(),
                c@ == chunked_token(),
            decreases tokens@.len() - i,
        {
            assert(ps[i as int] == tokens@[i as int]@);
            if crate::headers::bytes_eq(tokens[i].as_slice(), &c) {
                chunked = true;
            }
            i = i + 1;
        }
        proof {
            if ps.contains(chunked_token()) {
                let k = choose|k: int| 0 <= k < ps.len() && ps[k] == chunked_token();
                assert(chunked);
            }
        }
        if chunked {
            Ok(BodyReader { inner: Layer::Chunked(ChunkedReader::new(reader)) })
        } else {
            Ok(BodyReader { inner: Layer::Plain(reader) })
        }
    }

    /// Moves to the next body bytes and buffers them; what is buffered is
    /// the start of the body still to come, and empty only at its end.
    pub fn fill_buf(&mut self) -> (r: Result<(), Error>)
        requires
            old(self).wf(),
        ensures
            final(self).wf(),
            final(self).whole() == old(self).whole(),
            old(self).pending() matches Some(q) ==> {
                &&& (r is Ok ==> final(self).pending() == Some(q) && q.take(
                    final(self).data().len() as int,
                ) == final(self).data() && (final(self).data().len() == 0 <==> q.len() == 0))
                &&& old(self).whole() ==> r is Ok
            },
    {
        match &mut self.inner {
            Layer::Plain(rd) => rd.fill(),
            Layer::Chunked(c) => c.fill_buf(),
        }
    }

    /// The body bytes buffered now.
    pub fn buffer(&self) -> (r: &[u8])
        ensures
            r@ == self.data(),
    {
        match &self.inner {
            Layer::Plain(rd) => rd.buffer(),
            Layer::Chunked(c) => c.buffer(),
        }
    }

    /// Drops up to `amt` buffered body bytes.
    pub fn consume(&mut self, amt: usize)
        requires
            old(self).wf(),
        ensures
            final(self).wf(),
            final(self).whole() == old(self).whole(),
            old(self).pending() matches Some(q) ==> final(self).pending() == Some(
                q.skip(
                    if amt < old(self).data().len() {
                        amt as int
                    } else {
                        old(self).data().len() as int
                    },
                ),
            ),
    {
        let n = self.buffer().len();
        let a = if amt < n {
            amt
        } else {
            n
        };
        match &mut self.inner {
            Layer::Plain(rd) => rd.consume(a),
            Layer::Chunked(c) => c.consume(a),
        }
    }

    /// Appends the rest of the body to `out` and reports how many bytes
    /// that was.
    pub fn read_to_end(&mut self, out: &mut Vec<u8>) -> (r: Result<usize, Error>)
        requires
            old(self).wf(),
        ensures
            old(self).pending() matches Some(p) ==> {
                &&& (r is Ok ==> final(out)@ == old(out)@ + p)
                &&& old(self).whole() ==> r is Ok
            },
            r matches Ok(n) ==> final(out)@.len() == old(out)@.len() + n,
            old(self).whole() ==> match old(self).result() {
                Ok(p) => r is Ok && final(out)@ == old(out)@ + p,
                Err(e) => r == Err::<usize, Error>(e),
            },
    {
        match &mut self.inner {
            Layer::Plain(rd) => read_all(rd, out),
            Layer::Chunked(c) => c.read_to_end(out),
        }
    }
}

/// Appends everything that `reader` yields to `out`.
fn read_all<R: BufSource>(reader: &mut R, out: &mut Vec<u8>) -> (r: Result<usize, Error>)
    ensures
        r is Ok ==> final(out)@ == old(out)@ + old(reader).rest(),
        old(reader).whole() ==> r is Ok,
        r matches Ok(n) ==> final(out)@.len() == old(out)@.len() + n,
{
    let start = out.len();
    loop
        invariant
            reader.whole() == old(reader).whole(),
            start == old(out)@.len(),
            out@ + reader.rest() == old(out)@ + old(reader).rest(),
            out@.len() >= start,
        decreases reader.rest().len(),
    {
        reader.fill()?;
        let buf = reader.buffer();
        let n = buf.len();
        if n == 0 {
            assert(out@ + reader.rest() =~= out@);
            return Ok(out.len() - start);
        }
        let ghost before = out@;
        let ghost rest = reader.rest();
        extend_bytes(out, buf);
        reader.consume(n);
        assert(out@ + reader.rest() =~= before + rest);
    }
}

/// A response: status, version, headers and the body still to read.
pub struct Response<R> {
    pub status: u16,
    pub version: Option<Version>,
    pub headers: HeaderMap,
    pub body: BodyReader<R>,
}

/// `HTTP/1.0` for minor version 0, `HTTP/1.1` for 1, none otherwise.
pub open spec fn version_of(minor: Option<u8>) -> Option<Version> {
    match minor {
        Some(0u8) => Some(Version::Http10),
        Some(1u8) => Some(Version::Http11),
        _ => None,
    }
}

/// Header entries with their names in lower case.
pub open spec fn lowered(s: Entries) -> Entries {
    s.map_values(|e: (Seq<u8>, Seq<u8>)| (lower(e.0), e.1))
}

/// `resp` is what the stream `s` starts with: a head that the parser took
/// from its first `k` bytes, then a body over the rest.
pub open spec fn response_from<R: BufSource>(s: Seq<u8>, resp: Response<R>) -> bool {
    exists|n: int, k: nat, h: HeadView|
        #![trigger response_head(s.take(n), MAX_HEADERS as nat), s.skip(k as int), lowered(h.2)]
        0 <= n <= s.len() && k <= n && response_head(s.take(n), MAX_HEADERS as nat) == Some(
            Some((k, h)),
        ) && h.0 == Some(resp.status) && resp.version == version_of(h.1) && resp.headers@
            == lowered(h.2) && resp.body.pending() == body_view(resp.headers@, s.skip(k as int))
            && resp.body.wf()
}

/// Every header name is a token and every value a valid header value.
pub open spec fn headers_valid(s: Entries) -> bool {
    forall|i: int| 0 <= i < s.len() ==> valid_name(#[trigger] s[i].0) && valid_value(s[i].1)
}

/// What reading a response from a stream held whole gives: its status,
/// version and headers, and the length of its head; or the error. The
/// parser rejecting the head is `Parse`; a head cut short is the end of
/// the stream, or the buffer limit past it; a head without a status is
/// `MissingStatus`; a status out of range or a header that cannot be held
/// is `Http`; a `transfer-encoding` that is not text is `HeaderToStr`.
pub open spec fn head_result(s: Seq<u8>) -> Result<(u16, Option<Version>, Entries, nat), Error> {
    match response_head(s, MAX_HEADERS as nat) {
        None => Err(Error::Parse),
        Some(None) => Err(short_error(s)),
        Some(Some((k, h))) => match h.0 {
            None => Err(Error::MissingStatus),
            Some(c) => if c < 100 || c > 999 || !headers_valid(h.2) {
                Err(Error::Http)
            } else if first(lowered(h.2), transfer_encoding_name()) matches Some(v) && !valid_text(v) {
                Err(Error::HeaderToStr)
            } else {
                Ok((c, version_of(h.1), lowered(h.2), k))
            },
        },
    }
}

/// Reads a response head from `reader` and wraps the rest as its body.
pub fn read_response<R: BufSource>(reader: R) -> (r: Result<Response<R>, Error>)
    ensures
        r matches Ok(resp) ==> response_from(reader.rest(), resp) && resp.body.whole()
            == reader.whole(),
        reader.whole() ==> match head_result(reader.rest()) {
            Ok((c, v, hs, k)) => r matches Ok(resp) && resp.status == c && resp.version == v
                && resp.headers@ == hs && resp.body.wf() && resp.body.result() == body_result(
                hs,
                reader.rest().skip(k as int),
            ),
            Err(e) => r matches Err(x) && x == e,
        },
{
    let ghost s = reader.rest();
    let ghost w = reader.whole();
    let mut src = reader;
    let head = parse(&mut src, &HeadParser)?;
    proof {
        if src.whole() {
            assert(response_head(s, MAX_HEADERS as nat) matches Some(Some((_, h))) && h == head@);
        }
    }
    let status = match head.code {
        None => return Err(Error::MissingStatus),
        Some(c) => c,
    };
    if status < 100 || status > 999 {
        return Err(Error::Http);
    }
    let version = match head.version {
        Some(0) => Some(Version::Http10),
        Some(1) => Some(Version::Http11),
        _ => None,
    };
    let mut headers = HeaderMap::new();
    let mut i: usize = 0;
    let ghost hv = head@.2;
    while i < head.headers.len()
        invariant
            i <= head.headers@.len(),
            hv == head@.2,
            headers@ == lowered(hv.take(i as int)),
            headers_valid(hv.take(i as int)),
            w ==> (response_head(s, MAX_HEADERS as nat) matches Some(Some((_, h))) && h == head@),
            w == src.whole(),
            w == reader.whole(),
            s == reader.rest(),
            head.code == Some(status),
            100 <= status <= 999,
        decreases head.headers@.len() - i,
    {
        let e = &head.headers[i];
        match headers.append(e.0.as_slice(), e.1.as_slice()) {
            Ok(()) => {},
            Err(_) => {
                proof {
                    assert(!(valid_name(hv[i as int].0) && valid_value(hv[i as int].1)));
                    assert(!headers_valid(hv));
                    if w {
                        assert(head_result(s) == Err::<(u16, Option<Version>, Entries, nat), Error>(
                            Error::Http,
                        ));
                    }
                }
                return Err(Error::Http);
            },
        }
        assert(headers_valid(hv.take(i + 1 as int))) by {
            assert forall|j: int| 0 <= j < i + 1 implies valid_name(
                #[trigger] hv.take(i + 1 as int)[j].0,
            ) && valid_value(hv.take(i + 1 as int)[j].1) by {
                if j < i {
                    assert(hv.take(i + 1 as int)[j] == hv.take(i as int)[j]);
                }
            }
        }
        assert(hv.take(i + 1 as int) =~= hv.take(i as int).push(hv[i as int]));
        assert(lowered(hv.take(i + 1 as int)) =~= lowered(hv.take(i as int)).push(
            (lower(hv[i as int].0), hv[i as int].1),
        ));
        i = i + 1;
    }
    assert(hv.take(head.headers@.len() as int) =~= hv);
    let ghost rest = src.rest();
    proof {
        if src.whole() {
            assert(parsed_whole(HeadParser, s, rest, Ok::<RawHead, Error>(head)));
        }
    }
    let body = BodyReader::new(src, Some(&headers))?;
    let resp = Response { status, version, headers, body };
    proof {
        let (n, k) = choose|n: int, k: nat|
            #![trigger HeadParser.outcome(s.take(n)), s.skip(k as int)]
            0 <= n <= s.len() && HeadParser.outcome(s.take(n)) == Some(Some(k)) && HeadParser.yields(
                s.take(n),
                head,
            ) && k <= n && rest == s.skip(k as int);
        assert(response_head(s.take(n), MAX_HEADERS as nat) == Some(Some((k, head@))));
    }
    Ok(resp)
}

} // verus!
