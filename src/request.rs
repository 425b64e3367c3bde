use vstd::prelude::*;

use crate::body_writer::{BodyKind, BodyWriter};
use crate::bytes::{crlf, extend_bytes};
use crate::chunked::{chunk_frames, joined, last_chunk, ChunkedWriter};
use crate::error::Error;
use crate::headers::{
    check_bytes_text, copy_bytes, first, has_name, insert_spec, lemma_first_has,
    lemma_insert_other, lemma_insert_single, lower, to_lower, valid_text, valid_value, Entries,
    HeaderMap,
};
use crate::hex::{decimal, lemma_pow16_16, pow16, push_decimal};
use crate::names::{
    accept_encoding_name, accept_encoding_name_bytes, accept_encoding_value,
    accept_encoding_value_bytes, chunked_token, chunked_token_bytes, close_value,
    close_value_bytes, connection_name, connection_name_bytes, content_length_name,
    content_length_name_bytes, host_name, host_name_bytes, transfer_encoding_name,
    transfer_encoding_name_bytes, user_agent_name, user_agent_name_bytes, user_agent_value,
    user_agent_value_bytes,
};
use crate::uri::{uri_of, Uri, UriView};

verus! {

/// The HTTP version named on the request line.
#[derive(Debug, Clone, Copy, PartialEq, Eq, Structural)]
pub enum Version {
    Http09,
    Http10,
    Http11,
    Http2,
    Http3,
}

/// `HTTP/0.9`, `HTTP/1.0`, `HTTP/1.1`, `HTTP/2.0` or `HTTP/3.0`.
pub open spec fn version_text(v: Version) -> Seq<u8> {
    let minor: u8 = match v {
        Version::Http09 => 57u8,
        Version::Http2 | Version::Http3 => 48u8,
        Version::Http10 => 48u8,
        Version::Http11 => 49u8,
    };
    let major: u8 = match v {
        Version::Http09 => 48u8,
        Version::Http10 | Version::Http11 => 49u8,
        Version::Http2 => 50u8,
        Version::Http3 => 51u8,
    };
    seq![72u8, 84u8, 84u8, 80u8, 47u8, major, 46u8, minor]
}

fn push_version(out: &mut Vec<u8>, v: Version)
    ensures
        final(out)@ == old(out)@ + version_text(v),
{
    let (major, minor): (u8, u8) = match v {
        Version::Http09 => (48, 57),
        Version::Http10 => (49, 48),
        Version::Http11 => (49, 49),
        Version::Http2 => (50, 48),
        Version::Http3 => (51, 48),
    };
    let a: [u8; 8] = [72, 84, 84, 80, 47, major, 46, minor];
    extend_bytes(out, &a);
    assert(a@ =~= version_text(v));
}

/// A request: method, target, version, headers and a body producer.
pub struct Request<B> {
    pub method: Vec<u8>,
    pub uri: Uri,
    pub version: Version,
    pub headers: HeaderMap,
    pub body: B,
}

/// The target on the request line: the path and query, or `/`.
pub open spec fn request_target(u: UriView) -> Seq<u8> {
    match u.2 {
        Some(p) => p,
        None => seq![47u8],
    }
}

/// One header on the wire: `name: value` and CRLF.
pub open spec fn header_line(e: (Seq<u8>, Seq<u8>)) -> Seq<u8> {
    e.0 + seq![58u8, 32u8] + e.1 + crlf()
}

/// The header lines of `s`, in the order of its entries.
pub open spec fn header_lines(s: Entries) -> Seq<u8>
    decreases s.len(),
{
    if s.len() == 0 {
        Seq::empty()
    } else {
        header_lines(s.drop_last()) + header_line(s.last())
    }
}

/// Request line, header lines and the blank line that ends the head.
pub open spec fn request_head(method: Seq<u8>, u: UriView, v: Version, h: Entries) -> Seq<u8> {
    method + seq![32u8] + request_target(u) + seq![32u8] + version_text(v) + crlf()
        + header_lines(h) + crlf()
}

/// `w` is `content` sent as non-empty chunks and closed by the last chunk.
pub open spec fn chunked_body(w: Seq<u8>, content: Seq<u8>) -> bool {
    exists|cs: Seq<Seq<u8>>|
        (forall|i: int| 0 <= i < cs.len() ==> 0 < #[trigger] cs[i].len() < pow16(16)) && joined(
            cs,
        ) == content && w == chunk_frames(cs) + last_chunk()
}

fn push_header_lines(out: &mut Vec<u8>, h: &HeaderMap)
    ensures
        final(out)@ == old(out)@ + header_lines(h@),
{
    let mut i: usize = 0;
    assert(h@.take(0) =~= Seq::<(Seq<u8>, Seq<u8>)>::empty());
    assert(old(out)@ + header_lines(h@.take(0)) =~= old(out)@);
    while i < h.len()
        invariant
            i <= h@.len(),
            out@ == old(out)@ + header_lines(h@.take(i as int)),
        decreases h@.len() - i,
    {
        let (name, value) = h.entry(i);
        extend_bytes(out, name);
        let sep: [u8; 2] = [58, 32];
        extend_bytes(out, &sep);
        extend_bytes(out, value);
        let end: [u8; 2] = [13, 10];
        extend_bytes(out, &end);
        proof {
            let t = h@.take(i + 1 as int);
            assert(t.drop_last() =~= h@.take(i as int));
            assert(t.last() == h@[i as int]);
            assert(out@ =~= old(out)@ + header_lines(t));
        }
        i = i + 1;
    }
    assert(h@.take(h@.len() as int) =~= h@);
}

/// Serialises a request: the request line, each header as `name: value` in
/// the map's order, a blank line, then the body, framed as chunks when
/// `chunked`.
pub fn write_request<B: BodyWriter>(
    method: &[u8],
    uri: &Uri,
    version: Version,
    headers: &HeaderMap,
    body: &mut B,
    chunked: bool,
) -> (r: Result<Vec<u8>, Error>)
    ensures
        r matches Ok(w) ==> {
            let head = request_head(method@, uri@, version, headers@);
            &&& w@.len() >= head.len()
            &&& w@.take(head.len() as int) == head
            &&& !chunked ==> w@.skip(head.len() as int) == old(body).content()
            &&& chunked ==> chunked_body(w@.skip(head.len() as int), old(body).content())
        },
        old(body).write_succeeds() ==> r is Ok,
{
    let mut w: Vec<u8> = Vec::new();
    extend_bytes(&mut w, method);
    w.push(32);
    match &uri.path_and_query {
        Some(p) => extend_bytes(&mut w, p.as_slice()),
        None => w.push(47),
    }
    w.push(32);
    push_version(&mut w, version);
    w.push(13);
    w.push(10);
    push_header_lines(&mut w, headers);
    w.push(13);
    w.push(10);
    let ghost head = w@;
    assert(head =~= request_head(method@, uri@, version, headers@));
    if chunked {
        let mut cw = ChunkedWriter::new(w);
        body.write(&mut cw)?;
        let w2 = cw.close()?;
        proof {
            let cs = cw.chunks();
            lemma_pow16_16();
            assert(w2@ =~= head + (chunk_frames(cs) + last_chunk()));
            assert(w2@.take(head.len() as int) =~= head);
            assert(w2@.skip(head.len() as int) =~= chunk_frames(cs) + last_chunk());
            assert(forall|i: int| 0 <= i < cs.len() ==> 0 < #[trigger] cs[i].len() < pow16(16));
        }
        Ok(w2)
    } else {
        body.write(&mut w)?;
        assert(w@.take(head.len() as int) =~= head);
        assert(w@.skip(head.len() as int) =~= old(body).content());
        Ok(w)
    }
}

/// A `transfer-encoding` value with `token` added to `prev`: the token
/// alone, or after `prev` and a comma.
pub open spec fn with_encoding(prev: Option<Seq<u8>>, token: Seq<u8>) -> Seq<u8> {
    match prev {
        None => token,
        Some(v) => v + seq![44u8] + token,
    }
}

/// The value of `transfer-encoding` once `chunked` is added to `prev`.
pub open spec fn with_chunked(prev: Option<Seq<u8>>) -> Seq<u8> {
    with_encoding(prev, chunked_token())
}

/// Adds `token` to a `transfer-encoding` value; fails when the value is
/// not text.
pub fn added_encoding(prev: Option<&[u8]>, token: &[u8]) -> (r: Result<Vec<u8>, Error>)
    ensures
        match prev {
            Some(v) if !valid_text(v@) => r == Err::<Vec<u8>, Error>(Error::HeaderToStr),
            _ => r matches Ok(x) && x@ == with_encoding(
                match prev {
                    Some(v) => Some(v@),
                    None => None,
                },
                token@,
            ),
        },
{
    match prev {
        None => {
            let mut w: Vec<u8> = Vec::new();
            extend_bytes(&mut w, token);
            Ok(w)
        },
        Some(v) => {
            if !check_bytes_text(v) {
                return Err(Error::HeaderToStr);
            }
            let mut w: Vec<u8> = Vec::new();
            extend_bytes(&mut w, v);
            w.push(44);
            extend_bytes(&mut w, token);
            Ok(w)
        },
    }
}

/// The headers after the additions made for every request:
/// `connection: close`, a `user-agent` unless one is set, and
/// `accept-encoding: deflate, gzip`.
pub open spec fn base_headers(s: Entries) -> Entries {
    let s1 = insert_spec(s, connection_name(), close_value());
    let s2 = if has_name(s1, user_agent_name()) {
        s1
    } else {
        insert_spec(s1, user_agent_name(), user_agent_value())
    };
    insert_spec(s2, accept_encoding_name(), accept_encoding_value())
}

/// The headers sent with a body of kind `k`: the base headers, plus
/// `content-length` for a known length or `chunked` added to
/// `transfer-encoding` for a chunked body.
pub open spec fn normalized(s: Entries, k: BodyKind) -> Entries {
    let b = base_headers(s);
    match k {
        BodyKind::Empty => b,
        BodyKind::KnownLength(n) => insert_spec(b, content_length_name(), decimal(n as nat)),
        BodyKind::Chunked => insert_spec(
            b,
            transfer_encoding_name(),
            with_chunked(first(b, transfer_encoding_name())),
        ),
    }
}

/// Adds the headers that every request carries and those that frame its
/// body. Fails only when `chunked` must be added to a `transfer-encoding`
/// value that is not text.
pub fn normalize_headers(headers: &mut HeaderMap, kind: BodyKind) -> (r: Result<(), Error>)
    ensures
        r is Err <==> (kind == BodyKind::Chunked && (first(
            base_headers(old(headers)@),
            transfer_encoding_name(),
        ) matches Some(v) && !valid_text(v))),
        r is Err ==> r == Err::<(), Error>(Error::HeaderToStr),
        r is Ok ==> final(headers)@ == normalized(old(headers)@, kind),
{
    headers.put(connection_name_bytes(), close_value_bytes());
    let ua = user_agent_name_bytes();
    assert(lower(user_agent_name()) =~= user_agent_name());
    let absent = headers.get(ua.as_slice()).is_none();
    proof {
        lemma_first_has(headers@, user_agent_name());
    }
    if absent {
        headers.put(ua, user_agent_value_bytes());
    }
    headers.put(accept_encoding_name_bytes(), accept_encoding_value_bytes());
    assert(headers@ == base_headers(old(headers)@));
    match kind {
        BodyKind::Empty => {},
        BodyKind::KnownLength(n) => {
            let mut v: Vec<u8> = Vec::new();
            push_decimal(&mut v, n);
            headers.put(content_length_name_bytes(), v);
        },
        BodyKind::Chunked => {
            let te = transfer_encoding_name_bytes();
            assert(lower(transfer_encoding_name()) =~= transfer_encoding_name());
            let c = chunked_token_bytes();
            let value = added_encoding(headers.get(te.as_slice()), c.as_slice())?;
            assert(value@ == with_chunked(first(base_headers(old(headers)@), transfer_encoding_name())));
            headers.put(te, value);
        },
    }
    Ok(())
}

proof fn lemma_names_differ()
    ensures
        content_length_name() != connection_name(),
        content_length_name() != user_agent_name(),
        content_length_name() != accept_encoding_name(),
        content_length_name() != transfer_encoding_name(),
        transfer_encoding_name() != connection_name(),
        transfer_encoding_name() != user_agent_name(),
        transfer_encoding_name() != accept_encoding_name(),
{
    assert(content_length_name().len() == 14);
    assert(connection_name().len() == 10);
    assert(user_agent_name().len() == 10);
    assert(accept_encoding_name().len() == 15);
    assert(transfer_encoding_name().len() == 17);
}

/// The base headers add neither `content-length` nor `transfer-encoding`,
/// and keep the first value of each.
proof fn lemma_base_keeps(s: Entries, x: Seq<u8>)
    requires
        x == content_length_name() || x == transfer_encoding_name(),
    ensures
        has_name(base_headers(s), x) == has_name(s, x),
        first(base_headers(s), x) == first(s, x),
{
    lemma_names_differ();
    let s1 = insert_spec(s, connection_name(), close_value());
    lemma_insert_other(s, connection_name(), close_value(), x);
    let s2 = if has_name(s1, user_agent_name()) {
        s1
    } else {
        insert_spec(s1, user_agent_name(), user_agent_value())
    };
    lemma_insert_other(s1, user_agent_name(), user_agent_value(), x);
    lemma_insert_other(s2, accept_encoding_name(), accept_encoding_value(), x);
}

/// A request whose body is empty, and whose caller set neither header,
/// goes out with neither `content-length` nor `transfer-encoding`.
pub proof fn law_empty_body_unframed(s: Entries)
    requires
        !has_name(s, content_length_name()),
        !has_name(s, transfer_encoding_name()),
    ensures
        !has_name(normalized(s, BodyKind::Empty), content_length_name()),
        !has_name(normalized(s, BodyKind::Empty), transfer_encoding_name()),
{
    lemma_base_keeps(s, content_length_name());
    lemma_base_keeps(s, transfer_encoding_name());
}

/// A body of known length `n` goes out with exactly one `content-length`,
/// whose value is `n` in decimal; `transfer-encoding` stays as the caller
/// set it, so the library adds none.
pub proof fn law_known_length_framed(s: Entries, n: u64)
    ensures
        ({
            let h = normalized(s, BodyKind::KnownLength(n));
            &&& has_name(h, content_length_name())
            &&& forall|i: int|
                0 <= i < h.len() && (#[trigger] h[i]).0 == content_length_name() ==> h[i].1
                    == decimal(n as nat)
            &&& forall|i: int, j: int|
                0 <= i < h.len() && 0 <= j < h.len() && (#[trigger] h[i]).0
                    == content_length_name() && (#[trigger] h[j]).0 == content_length_name() ==> i
                    == j
            &&& has_name(h, transfer_encoding_name()) == has_name(s, transfer_encoding_name())
            &&& first(h, transfer_encoding_name()) == first(s, transfer_encoding_name())
        }),
{
    let b = base_headers(s);
    lemma_insert_single(b, content_length_name(), decimal(n as nat));
    lemma_base_keeps(s, transfer_encoding_name());
    lemma_names_differ();
    lemma_insert_other(b, content_length_name(), decimal(n as nat), transfer_encoding_name());
}

/// A chunked body goes out with exactly one `transfer-encoding`, whose
/// value ends with the token `chunked`: the value is `chunked`, or the
/// caller's value, a comma and `chunked`.
pub proof fn law_chunked_framed(s: Entries)
    ensures
        ({
            let h = normalized(s, BodyKind::Chunked);
            &&& has_name(h, transfer_encoding_name())
            &&& forall|i: int|
                0 <= i < h.len() && (#[trigger] h[i]).0 == transfer_encoding_name() ==> (h[i].1
                    == chunked_token() || exists|v: Seq<u8>|
                    h[i].1 == v + seq![44u8] + chunked_token())
            &&& forall|i: int, j: int|
                0 <= i < h.len() && 0 <= j < h.len() && (#[trigger] h[i]).0
                    == transfer_encoding_name() && (#[trigger] h[j]).0 == transfer_encoding_name()
                    ==> i == j
        }),
{
    let b = base_headers(s);
    let v = with_chunked(first(b, transfer_encoding_name()));
    lemma_insert_single(b, transfer_encoding_name(), v);
    let h = normalized(s, BodyKind::Chunked);
    assert forall|i: int| 0 <= i < h.len() && (#[trigger] h[i]).0 == transfer_encoding_name() implies (
    h[i].1 == chunked_token() || exists|w: Seq<u8>| h[i].1 == w + seq![44u8] + chunked_token()) by {
        if let Some(w) = first(b, transfer_encoding_name()) {
            assert(h[i].1 == w + seq![44u8] + chunked_token());
        }
    }
}

/// The chunked body on the wire decodes to the body's bytes.
pub proof fn law_chunked_wire_decodes(w: Seq<u8>, content: Seq<u8>)
    requires
        chunked_body(w, content),
    ensures
        crate::chunked::decode_chunked(w) == Some(content),
{
    let cs = choose|cs: Seq<Seq<u8>>|
        (forall|i: int| 0 <= i < cs.len() ==> 0 < #[trigger] cs[i].len() < pow16(16)) && joined(
            cs,
        ) == content && w == chunk_frames(cs) + last_chunk();
    crate::chunked::lemma_chunked_round_trip(cs);
}

/// Header lines keep the order of the entries: a new name is written after
/// every earlier header.
pub proof fn law_insertion_order(s: Entries, n: Seq<u8>, v: Seq<u8>)
    requires
        !has_name(s, n),
    ensures
        header_lines(insert_spec(s, n, v)) == header_lines(s) + header_line((n, v)),
{
    assert(insert_spec(s, n, v).drop_last() =~= s);
}

/// Where a request goes: host, port and whether TLS is used.
pub struct Target {
    pub host: Vec<u8>,
    pub port: u16,
    pub tls: bool,
}

/// `http`
pub open spec fn http_scheme() -> Seq<u8> {
    seq![104u8, 116u8, 116u8, 112u8]
}

/// `https`
pub open spec fn https_scheme() -> Seq<u8> {
    seq![104u8, 116u8, 116u8, 112u8, 115u8]
}

/// The host, port and TLS use for a hop to `u`: an explicit port wins,
/// else 80 for `http` and 443 for `https`.
pub open spec fn hop_spec(u: UriView) -> Result<(Seq<u8>, u16, bool), Error> {
    match u.0 {
        None => Err(Error::MissingScheme),
        Some(sc) => match u.1 {
            None => Err(Error::MissingAuthority),
            Some((h, p)) => {
                let tls = lower(sc) == https_scheme();
                match p {
                    Some(port) => Ok((h, port, tls)),
                    None => if lower(sc) == http_scheme() {
                        Ok((h, 80u16, false))
                    } else if tls {
                        Ok((h, 443u16, true))
                    } else {
                        Err(Error::UnsupportedProtocol)
                    },
                }
            },
        },
    }
}

/// Decides where the hop to `uri` goes.
pub fn hop_target(uri: &Uri) -> (r: Result<Target, Error>)
    ensures
        match hop_spec(uri@) {
            Ok((h, p, t)) => r matches Ok(x) && x.host@ == h && x.port == p && x.tls == t,
            Err(e) => r == Err::<Target, Error>(e),
        },
{
    let scheme = match &uri.scheme {
        Some(s) => s,
        None => return Err(Error::MissingScheme),
    };
    let authority = match &uri.authority {
        Some(a) => a,
        None => return Err(Error::MissingAuthority),
    };
    let sc = to_lower(scheme.as_slice());
    let http: [u8; 4] = [104, 116, 116, 112];
    let https: [u8; 5] = [104, 116, 116, 112, 115];
    assert(http@ =~= http_scheme());
    assert(https@ =~= https_scheme());
    let tls = crate::headers::bytes_eq(sc.as_slice(), &https);
    let host = copy_bytes(&authority.host);
    match authority.port {
        Some(port) => Ok(Target { host, port, tls }),
        None => {
            if crate::headers::bytes_eq(sc.as_slice(), &http) {
                Ok(Target { host, port: 80, tls: false })
            } else if tls {
                Ok(Target { host, port: 443, tls: true })
            } else {
                Err(Error::UnsupportedProtocol)
            }
        },
    }
}

/// Sets `host` to `host`, the host of the hop's authority.
pub fn set_host(headers: &mut HeaderMap, host: &[u8]) -> (r: Result<(), Error>)
    ensures
        r is Ok <==> valid_value(host@),
        r is Ok ==> final(headers)@ == insert_spec(old(headers)@, host_name(), host@),
        r is Err ==> r == Err::<(), Error>(Error::HeaderValue) && final(headers)@ == old(
            headers,
        )@,
{
    let name = host_name_bytes();
    assert(crate::headers::valid_name(host_name()));
    assert(lower(host_name()) =~= host_name());
    headers.insert(name.as_slice(), host)
}

/// Prepares one hop to `uri`: decides where it goes and sets `host` to
/// the host of its authority, so that each hop carries its own.
pub fn prepare_hop(uri: &Uri, headers: &mut HeaderMap) -> (r: Result<Target, Error>)
    ensures
        match hop_spec(uri@) {
            Ok((h, p, t)) => if valid_value(h) {
                r matches Ok(x) && x.host@ == h && x.port == p && x.tls == t && final(headers)@
                    == insert_spec(old(headers)@, host_name(), h)
            } else {
                r == Err::<Target, Error>(Error::HeaderValue) && final(headers)@ == old(headers)@
            },
            Err(e) => r == Err::<Target, Error>(e) && final(headers)@ == old(headers)@,
        },
{
    let target = hop_target(uri)?;
    set_host(headers, target.host.as_slice())?;
    Ok(target)
}

/// After the host is set, exactly one `host` header goes out, with the
/// hop's host as its value.
pub proof fn law_host_on_wire(s: Entries, host: Seq<u8>)
    ensures
        ({
            let h = insert_spec(s, host_name(), host);
            &&& has_name(h, host_name())
            &&& forall|i: int|
                0 <= i < h.len() && (#[trigger] h[i]).0 == host_name() ==> h[i].1 == host
            &&& forall|i: int, j: int|
                0 <= i < h.len() && 0 <= j < h.len() && (#[trigger] h[i]).0 == host_name() && (
                #[trigger] h[j]).0 == host_name() ==> i == j
        }),
{
    lemma_insert_single(s, host_name(), host);
}

/// The statuses that are followed as redirects.
pub open spec fn redirect_status(status: u16) -> bool {
    status == 301 || status == 302 || status == 303 || status == 307 || status == 308
}

pub fn is_redirect(status: u16) -> (r: bool)
    ensures
        r == redirect_status(status),
{
    status == 301 || status == 302 || status == 303 || status == 307 || status == 308
}

/// The outcome of a response with `status` and `location` when redirects
/// are followed up to `follow` more times, `timeout` nanoseconds remain
/// and `elapsed` passed on this hop: the next target or the end, with the
/// counter and the remaining time after it.
pub open spec fn redirect_spec(
    status: u16,
    location: Option<Seq<u8>>,
    follow: Option<usize>,
    timeout: Option<u128>,
    elapsed: u128,
) -> (Result<Option<UriView>, Error>, Option<usize>, Option<u128>) {
    match follow {
        None => (Ok(None), follow, timeout),
        Some(n) => if !redirect_status(status) {
            (Ok(None), follow, timeout)
        } else if n == 0 {
            (Err(Error::TooManyRedirects), follow, timeout)
        } else {
            let f = Some((n - 1) as usize);
            match timeout {
                Some(t) if t <= elapsed => (Err(Error::TooManyRedirects), f, timeout),
                _ => {
                    let t2 = match timeout {
                        Some(t) => Some((t - elapsed) as u128),
                        None => None,
                    };
                    match location {
                        None => (Err(Error::MissingLocation), f, t2),
                        Some(l) => if !valid_text(l) {
                            (Err(Error::HeaderToStr), f, t2)
                        } else {
                            match uri_of(l) {
                                None => (Err(Error::Uri), f, t2),
                                Some(u) => (Ok(Some(u)), f, t2),
                            }
                        },
                    }
                },
            }
        },
    }
}

pub open spec fn uri_result(r: Result<Option<Uri>, Error>) -> Result<Option<UriView>, Error> {
    match r {
        Ok(Some(u)) => Ok(Some(u@)),
        Ok(None) => Ok(None),
        Err(e) => Err(e),
    }
}

/// Decides whether a response redirects, and where to.
///
/// Redirects are followed only while `follow` is set; each one uses up one
/// of its hops and the time that the hop took from `timeout`.
pub fn handle_redirects(
    status: u16,
    location: Option<&[u8]>,
    follow: &mut Option<usize>,
    timeout: &mut Option<u128>,
    elapsed: u128,
) -> (r: Result<Option<Uri>, Error>)
    ensures
        ({
            let loc = match location {
                Some(l) => Some(l@),
                None => None,
            };
            (uri_result(r), *final(follow), *final(timeout)) == redirect_spec(
                status,
                loc,
                *old(follow),
                *old(timeout),
                elapsed,
            )
        }),
{
    let n = match *follow {
        None => return Ok(None),
        Some(n) => n,
    };
    if !is_redirect(status) {
        return Ok(None);
    }
    if n == 0 {
        return Err(Error::TooManyRedirects);
    }
    *follow = Some(n - 1);
    match *timeout {
        Some(t) => {
            if t <= elapsed {
                return Err(Error::TooManyRedirects);
            }
            *timeout = Some(t - elapsed);
        },
        None => {},
    }
    let l = match location {
        None => return Err(Error::MissingLocation),
        Some(l) => l,
    };
    if !check_bytes_text(l) {
        return Err(Error::HeaderToStr);
    }
    let u = Uri::parse(l)?;
    Ok(Some(u))
}

/// Where a redirect leads: the location, with the scheme and authority of
/// `prev` where the location has none.
pub fn resolve_location(prev: &Uri, location: Uri) -> (r: Uri)
    ensures
        r@ == (
            if location@.0 is Some { location@.0 } else { prev@.0 },
            if location@.1 is Some { location@.1 } else { prev@.1 },
            location@.2,
        ),
{
    let scheme = match location.scheme {
        Some(s) => Some(s),
        None => crate::uri::copy_opt(&prev.scheme),
    };
    let authority = match location.authority {
        Some(a) => Some(a),
        None => match &prev.authority {
            Some(a) => Some(a.copy()),
            None => None,
        },
    };
    Uri { scheme, authority, path_and_query: location.path_and_query }
}

} // verus!
