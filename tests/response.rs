use zeptohttpc::layers::{charset_encoding, charset_label, content_codings, Coding};
use zeptohttpc::response::read_response;
use zeptohttpc::tokens::split_tokens;
use zeptohttpc::{BodyReader, Error, HeaderMap, Version};

fn body_of(resp: zeptohttpc::Response<&[u8]>) -> Vec<u8> {
    let mut body = resp.body;
    let mut out = Vec::new();
    body.read_to_end(&mut out).unwrap();
    out
}

#[test]
fn simple_get_response() {
    let raw = &b"HTTP/1.0 200 Ok\r\nContent-Length: 10\r\n\r\nhelloworld"[..];
    let resp = read_response(raw).unwrap();
    assert_eq!(200, resp.status);
    assert_eq!(Some(Version::Http10), resp.version);
    assert_eq!(Some(&b"10"[..]), resp.headers.get(b"content-length"));
    assert_eq!(b"helloworld".to_vec(), body_of(resp));
}

#[test]
fn redirect_response_keeps_location() {
    let raw = &b"HTTP/1.0 301 Moved Permanently\r\nLocation: http://localhost:1/\r\nContent-Length: 8\r\n\r\nnot here"[..];
    let resp = read_response(raw).unwrap();
    assert_eq!(301, resp.status);
    assert_eq!(Some(&b"http://localhost:1/"[..]), resp.headers.get(b"location"));
    assert_eq!(b"not here".to_vec(), body_of(resp));
}

#[test]
fn not_modified_response_body() {
    let raw = &b"HTTP/1.0 304 Not Modified\r\nLocation: http://localhost:1/\r\nContent-Length: 9\r\n\r\nunchanged"[..];
    let resp = read_response(raw).unwrap();
    assert_eq!(304, resp.status);
    assert_eq!(b"unchanged".to_vec(), body_of(resp));
}

#[test]
fn chunked_response_is_decoded() {
    let raw = &b"HTTP/1.1 200 OK\r\nTransfer-Encoding: gzip, Chunked \r\n\r\n3\r\nfoo\r\n3\r\nbar\r\n0\r\n\r\n"[..];
    let resp = read_response(raw).unwrap();
    assert_eq!(Some(Version::Http11), resp.version);
    assert_eq!(b"foobar".to_vec(), body_of(resp));
}

#[test]
fn incomplete_head_is_unexpected_eof() {
    let raw = &b"HTTP/1.1 200 OK\r\nContent-Le"[..];
    assert!(matches!(read_response(raw), Err(Error::Io(zeptohttpc::IoKind::UnexpectedEof))));
}

#[test]
fn malformed_head_is_a_parse_error() {
    let raw = &b"HTTX/1.1 200 OK\r\n\r\n"[..];
    assert!(matches!(read_response(raw), Err(Error::Parse)));
}

#[test]
fn body_reader_without_headers_is_plain() {
    let mut r = BodyReader::new(&b"3\r\nfoo\r\n0\r\n\r\n"[..], None).unwrap();
    let mut out = Vec::new();
    assert_eq!(13, r.read_to_end(&mut out).unwrap());
}

#[test]
fn tokens_are_split_trimmed_and_lowered() {
    let t = split_tokens(b" Gzip ,deflate,,\tCHUNKED");
    let t: Vec<String> = t.into_iter().map(|x| String::from_utf8(x).unwrap()).collect();
    assert_eq!(vec!["gzip", "deflate", "", "chunked"], t);
}

#[test]
fn content_codings_in_order() {
    let mut h = HeaderMap::new();
    h.insert(b"Content-Encoding", b"gzip, br, DEFLATE").unwrap();
    assert_eq!(vec![Coding::Gzip, Coding::Deflate], content_codings(&h).unwrap());
    assert_eq!(Vec::<Coding>::new(), content_codings(&HeaderMap::new()).unwrap());
}

#[test]
fn charset_label_follows_charset_key() {
    let mut h = HeaderMap::new();
    h.insert(b"Content-Type", b"text/plain; charset=windows-1252").unwrap();
    assert_eq!(Some(b"windows-1252".to_vec()), charset_label(&h).unwrap());
    let enc = charset_encoding(&h).unwrap().unwrap();
    assert_eq!("windows-1252", enc.name());

    let mut h = HeaderMap::new();
    h.insert(b"Content-Type", b"text/plain; charset=no-such-thing").unwrap();
    assert!(charset_encoding(&h).unwrap().is_none());

    let mut h = HeaderMap::new();
    h.insert(b"Content-Type", b"text/plain").unwrap();
    assert_eq!(None, charset_label(&h).unwrap());
}

#[test]
fn response_from_an_owned_source() {
    let raw = b"HTTP/1.1 404 Not Found\r\nX-A: 1\r\n\r\nmissing".to_vec();
    let resp = read_response(zeptohttpc::source::MemSource::new(raw)).unwrap();
    assert_eq!(404, resp.status);
    assert_eq!(Some(&b"1"[..]), resp.headers.get(b"x-a"));
    let mut body = resp.body;
    let mut out = Vec::new();
    body.read_to_end(&mut out).unwrap();
    assert_eq!(b"missing".to_vec(), out);
}

#[test]
fn non_text_transfer_encoding_is_rejected() {
    let raw = &b"HTTP/1.1 200 OK\r\nTransfer-Encoding: \xe4\r\n\r\n"[..];
    assert!(matches!(read_response(raw), Err(Error::HeaderToStr)));
}

#[test]
fn oversized_incomplete_head_hits_the_buffer_limit() {
    let mut raw = b"HTTP/1.1 200 OK\r\nX-Long: ".to_vec();
    raw.extend(std::iter::repeat(b'a').take(200 * 1024));
    assert!(matches!(
        read_response(&raw[..]),
        Err(Error::Io(zeptohttpc::IoKind::BufferLimit))
    ));
}

#[test]
fn chunked_body_errors_surface_on_read() {
    let raw = &b"HTTP/1.1 200 OK\r\nTransfer-Encoding: chunked\r\n\r\nzz\r\n"[..];
    let resp = read_response(raw).unwrap();
    let mut body = resp.body;
    let mut out = Vec::new();
    assert_eq!(Err(Error::InvalidChunkSize), body.read_to_end(&mut out));
}
