use vstd::prelude::*;
use vstd::slice::slice_subrange;

use crate::error::Error;
use crate::headers::{bytes_eq, check_bytes_text, first, lower, valid_text, Entries, HeaderMap};
use crate::names::{
    charset_key, charset_key_bytes, content_encoding_name, content_encoding_name_bytes,
    content_type_name, content_type_name_bytes, deflate_token, deflate_token_bytes, gzip_token,
    gzip_token_bytes,
};
use crate::tokens::{parts, split_tokens};

verus! {

/// A content coding that the body can be decompressed from.
#[derive(Debug, Clone, Copy, PartialEq, Eq, Structural)]
pub enum Coding {
    Deflate,
    Gzip,
}

pub open spec fn coding_of(t: Seq<u8>) -> Option<Coding> {
    if t == deflate_token() {
        Some(Coding::Deflate)
    } else if t == gzip_token() {
        Some(Coding::Gzip)
    } else {
        None
    }
}

/// The known codings among the tokens `ts`, in order.
pub open spec fn codings(ts: Seq<Seq<u8>>) -> Seq<Coding>
    decreases ts.len(),
{
    if ts.len() == 0 {
        Seq::empty()
    } else {
        let c = codings(ts.drop_last());
        match coding_of(ts.last()) {
            Some(k) => c.push(k),
            None => c,
        }
    }
}

/// The decompressors to layer over a body, innermost first: one for each
/// `deflate` or `gzip` in the first `content-encoding` of `h`.
pub open spec fn codings_spec(h: Entries) -> Result<Seq<Coding>, Error> {
    match first(h, content_encoding_name()) {
        None => Ok(Seq::empty()),
        Some(v) => if !valid_text(v) {
            Err(Error::HeaderToStr)
        } else {
            Ok(codings(parts(v)))
        },
    }
}

pub fn content_codings(h: &HeaderMap) -> (r: Result<Vec<Coding>, Error>)
    ensures
        match codings_spec(h@) {
            Ok(cs) => r matches Ok(v) && v@ == cs,
            Err(e) => r == Err::<Vec<Coding>, Error>(e),
        },
{
    let name = content_encoding_name_bytes();
    assert(lower(content_encoding_name()) =~= content_encoding_name());
    let v = match h.get(name.as_slice()) {
        None => return Ok(Vec::new()),
        Some(v) => v,
    };
    if !check_bytes_text(v) {
        return Err(Error::HeaderToStr);
    }
    let tokens = split_tokens(v);
    let ghost ts = tokens@.map_values(|t: Vec<u8>| t@);
    let d = deflate_token_bytes();
    let g = gzip_token_bytes();
    let mut out: Vec<Coding> = Vec::new();
    let mut i: usize = 0;
    while i < tokens.len()
        invariant
            i <= tokens@.len(),
            ts == tokens@.map_values(|t: Vec<u8>| t@),
            out@ == codings(ts.take(i as int)),
            d@ == deflate_token(),
            g@ == gzip_token(),
        decreases tokens@.len() - i,
    {
        let t = &tokens[i];
        proof {
            assert(ts.take(i + 1 as int).drop_last() =~= ts.take(i as int));
            assert(ts.take(i + 1 as int).last() == t@);
        }
        if bytes_eq(t.as_slice(), d.as_slice()) {
            out.push(Coding::Deflate);
        } else if bytes_eq(t.as_slice(), g.as_slice()) {
            out.push(Coding::Gzip);
        }
        i = i + 1;
    }
    assert(ts.take(tokens@.len() as int) =~= ts);
    Ok(out)
}

/// Where `p` first occurs in `s`, from index `i` on.
pub open spec fn find_from(s: Seq<u8>, p: Seq<u8>, i: int) -> Option<int>
    decreases s.len() + 1 - i,
{
    if i < 0 || i + p.len() > s.len() {
        None
    } else if s.subrange(i, i + p.len() as int) == p {
        Some(i)
    } else {
        find_from(s, p, i + 1)
    }
}

/// The charset label of the first `content-type` of `h`: what follows the
/// first `charset=` in it.
pub open spec fn charset_spec(h: Entries) -> Result<Option<Seq<u8>>, Error> {
    match first(h, content_type_name()) {
        None => Ok(None),
        Some(v) => if !valid_text(v) {
            Err(Error::HeaderToStr)
        } else {
            match find_from(v, charset_key(), 0) {
                None => Ok(None),
                Some(i) => Ok(Some(v.skip(i + charset_key().len()))),
            }
        },
    }
}

pub fn charset_label(h: &HeaderMap) -> (r: Result<Option<Vec<u8>>, Error>)
    ensures
        match charset_spec(h@) {
            Ok(Some(l)) => r matches Ok(Some(x)) && x@ == l,
            Ok(None) => r matches Ok(None),
            Err(e) => r == Err::<Option<Vec<u8>>, Error>(e),
        },
{
    let name = content_type_name_bytes();
    assert(lower(content_type_name()) =~= content_type_name());
    let v = match h.get(name.as_slice()) {
        None => return Ok(None),
        Some(v) => v,
    };
    if !check_bytes_text(v) {
        return Err(Error::HeaderToStr);
    }
    let key = charset_key_bytes();
    let klen = key.len();
    let mut i: usize = 0;
    while i <= v.len() && klen <= v.len() - i
        invariant
            key@ == charset_key(),
            klen == key@.len(),
            find_from(v@, key@, 0) == find_from(v@, key@, i as int),
            first(h@, content_type_name()) == Some(v@),
            valid_text(v@),
        decreases v@.len() - i,
    {
        let w = slice_subrange(v, i, i + klen);
        if bytes_eq(w, key.as_slice()) {
            assert(find_from(v@, key@, i as int) == Some(i as int));
            let rest = slice_subrange(v, i + klen, v.len());
            let mut out: Vec<u8> = Vec::new();
            crate::bytes::extend_bytes(&mut out, rest);
            assert(rest@ =~= v@.skip(i + klen as int));
            assert(out@ =~= v@.skip(i + klen as int));
            return Ok(Some(out));
        }
        i = i + 1;
    }
    Ok(None)
}

#[verifier::external_type_specification]
#[verifier::external_body]
pub struct ExEncoding(encoding_rs::Encoding);

/// Whether encoding_rs knows `label` as the name of a character encoding.
pub uninterp spec fn label_known(label: Seq<u8>) -> bool;

/// Relies on encoding_rs's `Encoding::for_label` to look up a character
/// encoding by its WHATWG label.
#[verifier::external_body]
fn encoding_for_label(label: &[u8]) -> (r: Option<&'static encoding_rs::Encoding>)
    ensures
        r is Some == label_known(label@),
{
    encoding_rs::Encoding::for_label(label)
}

/// The character encoding to decode a body with: the one that the
/// `charset` of its `content-type` names, where encoding_rs knows it.
pub fn charset_encoding(h: &HeaderMap) -> (r: Result<Option<&'static encoding_rs::Encoding>, Error>)
    ensures
        match charset_spec(h@) {
            Ok(Some(l)) => r matches Ok(x) && (x is Some == label_known(l)),
            Ok(None) => r matches Ok(None),
            Err(e) => r matches Err(x) && x == e,
        },
{
    match charset_label(h)? {
        None => Ok(None),
        Some(l) => Ok(encoding_for_label(l.as_slice())),
    }
}

} // verus!
