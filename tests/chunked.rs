use zeptohttpc::chunked::read_line_ending;
use zeptohttpc::{ChunkedReader, ChunkedWriter, Error, IoKind, Sink};

#[test]
fn parse_chunks() {
    let mut buf = Vec::new();
    ChunkedReader::new(&b"3\r\nfoo\r\n3\r\nbar\r\n0\r\n\r\n"[..])
        .read_to_end(&mut buf)
        .unwrap();
    assert_eq!(b"foobar", &buf[..]);
}

#[test]
fn parse_empty_chunks() {
    let mut buf = Vec::new();
    ChunkedReader::new(&b"0\r\n\r\n"[..])
        .read_to_end(&mut buf)
        .unwrap();
    assert_eq!(b"", &buf[..]);
}

#[test]
fn parse_missing_line_ending() {
    let mut buf = Vec::new();
    ChunkedReader::new(&b"0\r\n"[..])
        .read_to_end(&mut buf)
        .unwrap_err();
}

#[test]
fn parse_line_endings() {
    let mut r: &[u8] = &b"\r\nfoo"[..];
    read_line_ending(&mut r).unwrap();
    assert_eq!(b"foo", r);

    let mut r: &[u8] = &b"bar"[..];
    assert_eq!(Err(Error::InvalidLineEnding), read_line_ending(&mut r));

    let mut r: &[u8] = &b"\rbaz"[..];
    assert_eq!(Err(Error::InvalidLineEnding), read_line_ending(&mut r));

    let mut r: &[u8] = &b""[..];
    assert_eq!(Err(Error::Io(IoKind::UnexpectedEof)), read_line_ending(&mut r));

    let mut r: &[u8] = &b"\r"[..];
    assert_eq!(Err(Error::Io(IoKind::UnexpectedEof)), read_line_ending(&mut r));
}

#[test]
fn read_to_end_reports_count() {
    let mut buf = b"xy".to_vec();
    let n = ChunkedReader::new(&b"3\r\nfoo\r\n3\r\nbar\r\n0\r\n\r\n"[..])
        .read_to_end(&mut buf)
        .unwrap();
    assert_eq!(6, n);
    assert_eq!(b"xyfoobar", &buf[..]);
}

#[test]
fn upper_case_hex_sizes_and_extensions() {
    let mut buf = Vec::new();
    ChunkedReader::new(&b"A;name=value\r\n0123456789\r\n0\r\n\r\n"[..])
        .read_to_end(&mut buf)
        .unwrap();
    assert_eq!(b"0123456789", &buf[..]);
}

#[test]
fn invalid_chunk_size_is_rejected() {
    let mut buf = Vec::new();
    let err = ChunkedReader::new(&b"xyz\r\nfoo\r\n0\r\n\r\n"[..])
        .read_to_end(&mut buf)
        .unwrap_err();
    assert_eq!(Error::InvalidChunkSize, err);
}

#[test]
fn missing_crlf_after_data_is_rejected() {
    let mut buf = Vec::new();
    let err = ChunkedReader::new(&b"3\r\nfooX\r\n0\r\n\r\n"[..])
        .read_to_end(&mut buf)
        .unwrap_err();
    assert_eq!(Error::InvalidLineEnding, err);
}

#[test]
fn seventeen_digit_size_is_rejected() {
    let mut buf = Vec::new();
    let err = ChunkedReader::new(&b"00000000000000001\r\nx\r\n0\r\n\r\n"[..])
        .read_to_end(&mut buf)
        .unwrap_err();
    assert_eq!(Error::InvalidChunkSize, err);
}

#[test]
fn writer_frames_each_buffer() {
    let mut w = ChunkedWriter::new(Vec::new());
    assert_eq!(3, w.write(b"foo").unwrap());
    assert_eq!(26, w.write(b"abcdefghijklmnopqrstuvwxyz").unwrap());
    let out = w.close().unwrap();
    assert_eq!(
        &b"3\r\nfoo\r\n1a\r\nabcdefghijklmnopqrstuvwxyz\r\n0\r\n\r\n"[..],
        &out[..]
    );
}

#[test]
fn writer_skips_empty_write_all() {
    let mut w = ChunkedWriter::new(b"head".to_vec());
    w.write_all(b"").unwrap();
    w.write_all(b"ab").unwrap();
    let out = w.close().unwrap();
    assert_eq!(&b"head2\r\nab\r\n0\r\n\r\n"[..], &out[..]);
}

#[test]
fn encode_then_decode_round_trips() {
    let payloads: Vec<&[u8]> = vec![b"", b"a", b"hello world", &[0u8, 13, 10, 255, 48]];
    for p in payloads {
        let mut w = ChunkedWriter::new(Vec::new());
        w.write(p).unwrap();
        let wire = w.close().unwrap();
        let mut out = Vec::new();
        ChunkedReader::new(&wire[..]).read_to_end(&mut out).unwrap();
        assert_eq!(p, &out[..]);
    }
}

#[test]
fn decoder_leaves_bytes_after_the_body() {
    let mut r = ChunkedReader::new(&b"2\r\nok\r\n0\r\n\r\nnext"[..]);
    let mut out = Vec::new();
    r.read_to_end(&mut out).unwrap();
    assert_eq!(b"ok", &out[..]);
}

#[test]
fn missing_final_line_ending_is_unexpected_eof() {
    let mut buf = Vec::new();
    let err = ChunkedReader::new(&b"0\r\n"[..])
        .read_to_end(&mut buf)
        .unwrap_err();
    assert_eq!(Error::Io(IoKind::UnexpectedEof), err);
}

#[test]
fn chunk_cut_short_is_unexpected_eof() {
    let mut buf = Vec::new();
    let err = ChunkedReader::new(&b"5\r\nab"[..])
        .read_to_end(&mut buf)
        .unwrap_err();
    assert_eq!(Error::Io(IoKind::UnexpectedEof), err);
}

#[test]
fn size_line_cut_short_is_unexpected_eof() {
    let mut buf = Vec::new();
    let err = ChunkedReader::new(&b"3\r\nfoo\r\n1"[..])
        .read_to_end(&mut buf)
        .unwrap_err();
    assert_eq!(Error::Io(IoKind::UnexpectedEof), err);
}

#[test]
fn fill_exposes_only_the_current_chunk() {
    let mut r = ChunkedReader::new(&b"3\r\nfooXY"[..]);
    r.fill_buf().unwrap();
    assert_eq!(&b"foo"[..], r.buffer());
    r.consume(3);
    assert_eq!(Err(Error::InvalidLineEnding), r.fill_buf());
}

#[test]
fn fill_reports_a_bad_size_line() {
    let mut r = ChunkedReader::new(&b"zz\r\n"[..]);
    assert_eq!(Err(Error::InvalidChunkSize), r.fill_buf());
}
