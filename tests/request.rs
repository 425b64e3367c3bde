use zeptohttpc::request::{
    handle_redirects, hop_target, is_redirect, normalize_headers, resolve_location, set_host,
    write_request,
};
use zeptohttpc::{
    BodyKind, BodyWriter, ChunkedReader, CompressedBody, EmptyBody, Error, HeaderMap, MemBody,
    Uri, Version,
};

fn names(h: &HeaderMap) -> Vec<(String, String)> {
    let mut out = Vec::new();
    for i in 0..h.len() {
        let (n, v) = h.entry(i);
        out.push((
            String::from_utf8(n.to_vec()).unwrap(),
            String::from_utf8(v.to_vec()).unwrap(),
        ));
    }
    out
}

fn count(h: &HeaderMap, name: &str) -> usize {
    names(h).iter().filter(|(n, _)| n == name).count()
}

#[test]
fn empty_body_adds_no_framing_headers() {
    let mut h = HeaderMap::new();
    h.insert(b"Accept", b"*/*").unwrap();
    normalize_headers(&mut h, BodyKind::Empty).unwrap();
    assert_eq!(0, count(&h, "content-length"));
    assert_eq!(0, count(&h, "transfer-encoding"));
    assert_eq!(
        vec![
            ("accept".to_string(), "*/*".to_string()),
            ("connection".to_string(), "close".to_string()),
            ("user-agent".to_string(), "zeptohttpc/0.10.0".to_string()),
            ("accept-encoding".to_string(), "deflate, gzip".to_string()),
        ],
        names(&h)
    );
}

#[test]
fn known_length_sets_one_content_length() {
    let mut h = HeaderMap::new();
    h.append(b"content-length", b"1").unwrap();
    h.append(b"Content-Length", b"2").unwrap();
    normalize_headers(&mut h, BodyKind::KnownLength(1234)).unwrap();
    assert_eq!(1, count(&h, "content-length"));
    assert_eq!(Some(&b"1234"[..]), h.get(b"CONTENT-LENGTH"));
    assert_eq!(0, count(&h, "transfer-encoding"));
}

#[test]
fn chunked_appends_to_transfer_encoding() {
    let mut h = HeaderMap::new();
    normalize_headers(&mut h, BodyKind::Chunked).unwrap();
    assert_eq!(Some(&b"chunked"[..]), h.get(b"transfer-encoding"));

    let mut h = HeaderMap::new();
    h.insert(b"Transfer-Encoding", b"gzip").unwrap();
    normalize_headers(&mut h, BodyKind::Chunked).unwrap();
    assert_eq!(Some(&b"gzip,chunked"[..]), h.get(b"transfer-encoding"));
    assert_eq!(1, count(&h, "transfer-encoding"));
}

#[test]
fn chunked_rejects_non_text_transfer_encoding() {
    let mut h = HeaderMap::new();
    h.insert(b"transfer-encoding", &[0xe4u8]).unwrap();
    assert_eq!(Err(Error::HeaderToStr), normalize_headers(&mut h, BodyKind::Chunked));
}

#[test]
fn user_agent_is_kept_when_set() {
    let mut h = HeaderMap::new();
    h.insert(b"User-Agent", b"mine").unwrap();
    h.insert(b"Connection", b"keep-alive").unwrap();
    normalize_headers(&mut h, BodyKind::Empty).unwrap();
    assert_eq!(Some(&b"mine"[..]), h.get(b"user-agent"));
    assert_eq!(Some(&b"close"[..]), h.get(b"connection"));
}

#[test]
fn header_map_validates_and_orders() {
    let mut h = HeaderMap::new();
    assert_eq!(Err(Error::Http), h.insert(b"bad name", b"x"));
    assert_eq!(Err(Error::HeaderValue), h.insert(b"x-a", b"a\nb"));
    h.insert(b"X-A", b"1").unwrap();
    h.insert(b"X-B", b"2").unwrap();
    h.append(b"x-a", b"3").unwrap();
    h.insert(b"x-a", b"4").unwrap();
    assert_eq!(
        vec![("x-a".to_string(), "4".to_string()), ("x-b".to_string(), "2".to_string())],
        names(&h)
    );
}

#[test]
fn request_is_written_in_header_order() {
    let uri = Uri::parse(b"http://example.com/a?b=c").unwrap();
    let mut h = HeaderMap::new();
    h.insert(b"X-First", b"1").unwrap();
    h.insert(b"X-Second", b"2").unwrap();
    let host = hop_target(&uri).unwrap().host;
    set_host(&mut h, &host).unwrap();
    let mut body = MemBody(b"hello".to_vec());
    let kind = body.kind().unwrap();
    assert_eq!(BodyKind::KnownLength(5), kind);
    normalize_headers(&mut h, kind).unwrap();
    let wire = write_request(b"POST", &uri, Version::Http11, &h, &mut body, false).unwrap();
    let expected = "POST /a?b=c HTTP/1.1\r\nx-first: 1\r\nx-second: 2\r\nhost: example.com\r\n\
                    connection: close\r\nuser-agent: zeptohttpc/0.10.0\r\n\
                    accept-encoding: deflate, gzip\r\ncontent-length: 5\r\n\r\nhello";
    assert_eq!(expected, String::from_utf8(wire).unwrap());
}

#[test]
fn request_without_path_targets_root() {
    let uri = Uri {
        scheme: Some(b"http".to_vec()),
        authority: None,
        path_and_query: None,
    };
    let h = HeaderMap::new();
    let wire = write_request(b"GET", &uri, Version::Http10, &h, &mut EmptyBody, false).unwrap();
    assert_eq!(&b"GET / HTTP/1.0\r\n\r\n"[..], &wire[..]);
}

#[test]
fn chunked_request_body_is_framed() {
    let uri = Uri::parse(b"http://example.com/").unwrap();
    let h = HeaderMap::new();
    let mut body = MemBody(b"abc".to_vec());
    let wire = write_request(b"PUT", &uri, Version::Http11, &h, &mut body, true).unwrap();
    assert_eq!(&b"PUT / HTTP/1.1\r\n\r\n3\r\nabc\r\n0\r\n\r\n"[..], &wire[..]);
}

#[test]
fn compressed_body_is_gzip_of_the_inner_body() {
    let uri = Uri::parse(b"http://example.com/").unwrap();
    let h = HeaderMap::new();
    let mut body = CompressedBody(MemBody(b"squeeze me squeeze me squeeze me".to_vec()));
    assert_eq!(BodyKind::Chunked, body.kind().unwrap());
    let wire = write_request(b"POST", &uri, Version::Http11, &h, &mut body, true).unwrap();
    let head = b"POST / HTTP/1.1\r\n\r\n".len();
    let mut gz = Vec::new();
    ChunkedReader::new(&wire[head..]).read_to_end(&mut gz).unwrap();
    assert_eq!(&[0x1fu8, 0x8b][..], &gz[..2]);
    let mut plain = Vec::new();
    std::io::Read::read_to_end(&mut flate2::read::GzDecoder::new(&gz[..]), &mut plain).unwrap();
    assert_eq!(&b"squeeze me squeeze me squeeze me"[..], &plain[..]);
}

#[test]
fn host_header_follows_each_hop() {
    let mut h = HeaderMap::new();
    set_host(&mut h, b"one.example").unwrap();
    set_host(&mut h, b"two.example").unwrap();
    assert_eq!(1, count(&h, "host"));
    assert_eq!(Some(&b"two.example"[..]), h.get(b"Host"));
    assert_eq!(Err(Error::HeaderValue), set_host(&mut h, b"bad\x7f"));
}

#[test]
fn hop_target_ports() {
    let t = hop_target(&Uri::parse(b"http://example.com/").unwrap()).unwrap();
    assert_eq!((b"example.com".to_vec(), 80, false), (t.host, t.port, t.tls));
    let t = hop_target(&Uri::parse(b"https://example.com/").unwrap()).unwrap();
    assert_eq!((443, true), (t.port, t.tls));
    let t = hop_target(&Uri::parse(b"http://[::1]:8080/").unwrap()).unwrap();
    assert_eq!((b"[::1]".to_vec(), 8080, false), (t.host, t.port, t.tls));
    assert_eq!(
        Err(Error::UnsupportedProtocol),
        hop_target(&Uri::parse(b"ftp://example.com/").unwrap()).map(|t| t.port)
    );
    assert_eq!(
        Err(Error::MissingScheme),
        hop_target(&Uri::parse(b"/relative").unwrap()).map(|t| t.port)
    );
}

#[test]
fn only_five_statuses_redirect() {
    for s in [301u16, 302, 303, 307, 308] {
        assert!(is_redirect(s));
    }
    for s in [200u16, 300, 304, 305, 306, 309, 404] {
        assert!(!is_redirect(s));
    }
}

#[test]
fn redirect_follows_location() {
    let mut follow = Some(5);
    let mut timeout = None;
    let u = handle_redirects(301, Some(b"http://localhost:1/x"), &mut follow, &mut timeout, 7)
        .unwrap()
        .unwrap();
    assert_eq!(Some(4), follow);
    assert_eq!(Some(b"/x".to_vec()), u.path_and_query);
}

#[test]
fn not_modified_is_no_redirect() {
    let mut follow = Some(5);
    let mut timeout = None;
    let r = handle_redirects(304, Some(b"http://localhost:1/"), &mut follow, &mut timeout, 0);
    assert!(matches!(r, Ok(None)));
    assert_eq!(Some(5), follow);
}

#[test]
fn disabled_redirects_return_the_response() {
    let mut follow = None;
    let mut timeout = None;
    let r = handle_redirects(301, None, &mut follow, &mut timeout, 0);
    assert!(matches!(r, Ok(None)));
}

#[test]
fn fourth_redirect_is_too_many() {
    let mut follow = Some(3);
    let mut timeout = None;
    for _ in 0..3 {
        let r = handle_redirects(301, Some(b"http://localhost:1/"), &mut follow, &mut timeout, 0);
        assert!(matches!(r, Ok(Some(_))));
    }
    let r = handle_redirects(301, Some(b"http://localhost:1/"), &mut follow, &mut timeout, 0);
    assert!(matches!(r, Err(Error::TooManyRedirects)));
}

#[test]
fn missing_location_fails_when_following() {
    let mut follow = Some(5);
    let mut timeout = None;
    let r = handle_redirects(301, None, &mut follow, &mut timeout, 0);
    assert!(matches!(r, Err(Error::MissingLocation)));
}

#[test]
fn redirect_spends_the_deadline() {
    let mut follow = Some(5);
    let mut timeout = Some(100u128);
    let r = handle_redirects(302, Some(b"/next"), &mut follow, &mut timeout, 40);
    assert!(matches!(r, Ok(Some(_))));
    assert_eq!(Some(60), timeout);
    let r = handle_redirects(302, Some(b"/next"), &mut follow, &mut timeout, 60);
    assert!(matches!(r, Err(Error::TooManyRedirects)));
}

#[test]
fn relative_location_keeps_scheme_and_authority() {
    let prev = Uri::parse(b"https://example.com:8443/old").unwrap();
    let loc = Uri::parse(b"/new?q=1").unwrap();
    let u = resolve_location(&prev, loc);
    assert_eq!(Some(b"https".to_vec()), u.scheme);
    let a = u.authority.unwrap();
    assert_eq!((b"example.com".to_vec(), Some(8443)), (a.host, a.port));
    assert_eq!(Some(b"/new?q=1".to_vec()), u.path_and_query);
}

#[test]
fn prepare_hop_sets_host_per_hop() {
    let mut h = HeaderMap::new();
    h.insert(b"X-A", b"1").unwrap();
    let t = zeptohttpc::request::prepare_hop(&Uri::parse(b"http://one.example/").unwrap(), &mut h)
        .unwrap();
    assert_eq!((80, false), (t.port, t.tls));
    let t = zeptohttpc::request::prepare_hop(
        &Uri::parse(b"https://two.example:8443/").unwrap(),
        &mut h,
    )
    .unwrap();
    assert_eq!((8443, true), (t.port, t.tls));
    assert_eq!(1, count(&h, "host"));
    assert_eq!(Some(&b"two.example"[..]), h.get(b"host"));
    assert_eq!(
        Err(Error::MissingScheme),
        zeptohttpc::request::prepare_hop(&Uri::parse(b"/x").unwrap(), &mut h).map(|t| t.port)
    );
}
