use zeptohttpc::deadline::read_outcome;
use zeptohttpc::request::{
    handle_redirects, normalize_headers, prepare_hop, resolve_location, write_request,
};
use zeptohttpc::response::read_response;
use zeptohttpc::{BodyKind, EmptyBody, Error, HeaderMap, IoKind, Uri, Version};

const SERVER: &str = "http://localhost:4000";

/// Runs the request steps of one exchange against canned responses, one
/// per connection, and returns the final status and body.
fn exchange(resps: &[&str], follow: Option<usize>) -> Result<(u16, Vec<u8>), Error> {
    let mut uri = Uri::parse(SERVER.as_bytes())?;
    let mut headers = HeaderMap::new();
    normalize_headers(&mut headers, BodyKind::Empty)?;
    let mut follow = follow;
    let mut timeout = None;
    for resp in resps {
        let target = prepare_hop(&uri, &mut headers)?;
        assert_eq!(b"localhost".to_vec(), target.host);
        assert_eq!(4000, target.port);
        let wire = write_request(b"GET", &uri, Version::Http11, &headers, &mut EmptyBody, false)?;
        assert!(wire.starts_with(b"GET / HTTP/1.1\r\n"));
        assert_eq!(Some(&b"localhost"[..]), headers.get(b"host"));

        let raw = resp.replace("{uri}", SERVER);
        let resp = read_response(raw.as_bytes())?;
        let location = resp.headers.get(b"location").map(|v| v.to_vec());
        match handle_redirects(resp.status, location.as_deref(), &mut follow, &mut timeout, 0)? {
            Some(next) => uri = resolve_location(&uri, next),
            None => {
                let status = resp.status;
                let mut body = resp.body;
                let mut out = Vec::new();
                body.read_to_end(&mut out)?;
                return Ok((status, out));
            }
        }
    }
    panic!("no response left for the next request");
}

#[test]
fn redirects_for_moved_permanently() {
    let (status, body) = exchange(
        &[
            "HTTP/1.0 301 Moved Permanently\r\nLocation: {uri}\r\nContent-Length: 8\r\n\r\nnot here",
            "HTTP/1.0 200 Ok\r\nContent-Length: 10\r\n\r\nredirected",
        ],
        Some(5),
    )
    .unwrap();
    assert_eq!(200, status);
    assert_eq!("redirected", String::from_utf8(body).unwrap());
}

#[test]
fn does_not_redirect_for_not_modified() {
    let (status, body) = exchange(
        &["HTTP/1.0 304 Not Modified\r\nLocation: {uri}\r\nContent-Length: 9\r\n\r\nunchanged"],
        Some(5),
    )
    .unwrap();
    assert_eq!(304, status);
    assert_eq!("unchanged", String::from_utf8(body).unwrap());
}

#[test]
fn does_not_redirect_if_explictly_disabled() {
    let (status, body) = exchange(
        &["HTTP/1.0 301 Moved Permanently\r\nLocation: {uri}\r\nContent-Length: 8\r\n\r\nnot here"],
        None,
    )
    .unwrap();
    assert_eq!(301, status);
    assert_eq!("not here", String::from_utf8(body).unwrap());
}

#[test]
fn fails_due_to_too_many_redirects() {
    let moved = "HTTP/1.0 301 Moved Permanently\r\nLocation: {uri}\r\nContent-Length: 8\r\n\r\nnot here";
    match exchange(&[moved, moved, moved, moved], Some(3)) {
        Err(Error::TooManyRedirects) => (),
        Err(err) => panic!("Unexpected error: {}", err.message()),
        Ok((status, _)) => panic!("Unexpected response: {}", status),
    }
}

#[test]
fn location_is_recommended_but_not_required() {
    let moved = "HTTP/1.0 301 Moved Permanently\r\nContent-Length: 8\r\n\r\nnot here";
    match exchange(&[moved], None) {
        Ok((status, _)) => assert_eq!(status, 301),
        Err(err) => panic!("Unexpected error: {}", err.message()),
    }
    match exchange(&[moved], Some(5)) {
        Err(Error::MissingLocation) => (),
        Err(err) => panic!("Unexpected error: {}", err.message()),
        Ok((status, _)) => panic!("Unexpected response: {}", status),
    }
}

#[test]
fn fails_due_to_timeout() {
    // The watcher shut the socket down: the read finds the stream closed
    // and the watcher already gone.
    match read_outcome(0, 8192, false) {
        Err(Error::Io(kind)) => assert_eq!(IoKind::TimedOut, kind),
        Err(err) => panic!("Unexpected error: {}", err.message()),
        Ok(read) => panic!("Unexpected read: {}", read),
    }
}
