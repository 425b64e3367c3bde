use vstd::prelude::*;

use crate::error::Error;
use crate::headers::copy_bytes;

verus! {

/// Host and optional port of a URI.
#[derive(Debug)]
pub struct Authority {
    pub host: Vec<u8>,
    pub port: Option<u16>,
}

/// A URI split into the parts a request needs.
#[derive(Debug)]
pub struct Uri {
    pub scheme: Option<Vec<u8>>,
    pub authority: Option<Authority>,
    pub path_and_query: Option<Vec<u8>>,
}

/// Scheme, authority (host and port) and path with query.
pub type UriView = (Option<Seq<u8>>, Option<(Seq<u8>, Option<u16>)>, Option<Seq<u8>>);

pub open spec fn opt_bytes(o: Option<Vec<u8>>) -> Option<Seq<u8>> {
    match o {
        Some(v) => Some(v@),
        None => None,
    }
}

pub open spec fn opt_authority(o: Option<Authority>) -> Option<(Seq<u8>, Option<u16>)> {
    match o {
        Some(a) => Some((a.host@, a.port)),
        None => None,
    }
}

impl View for Uri {
    type V = UriView;

    open spec fn view(&self) -> UriView {
        (opt_bytes(self.scheme), opt_authority(self.authority), opt_bytes(self.path_and_query))
    }
}

/// How http's URI parser splits the bytes `s`, where it accepts them.
pub uninterp spec fn uri_of(s: Seq<u8>) -> Option<UriView>;

/// Relies on http's `Uri::try_from(&[u8])` to parse a URI, and on its
/// `scheme_str`, `authority` (`host`, `port_u16`) and `path_and_query`.
#[verifier::external_body]
fn parse_uri_bytes(s: &[u8]) -> (r: Option<Uri>)
    ensures
        r matches Some(u) ==> uri_of(s@) == Some(u@),
        r is None ==> uri_of(s@) is None,
{
    let u = match http::Uri::try_from(s) {
        Ok(u) => u,
        Err(_) => return None,
    };
    Some(Uri {
        scheme: u.scheme_str().map(|x| x.as_bytes().to_vec()),
        authority: u.authority().map(
            |a| Authority { host: a.host().as_bytes().to_vec(), port: a.port_u16() },
        ),
        path_and_query: u.path_and_query().map(|p| p.as_str().as_bytes().to_vec()),
    })
}

pub fn copy_opt(o: &Option<Vec<u8>>) -> (r: Option<Vec<u8>>)
    ensures
        opt_bytes(r) == opt_bytes(*o),
{
    match o {
        Some(v) => Some(copy_bytes(v)),
        None => None,
    }
}

impl Authority {
    pub fn copy(&self) -> (r: Authority)
        ensures
            r.host@ == self.host@,
            r.port == self.port,
    {
        Authority { host: copy_bytes(&self.host), port: self.port }
    }
}

impl Uri {
    /// Parses `s` as a URI.
    pub fn parse(s: &[u8]) -> (r: Result<Uri, Error>)
        ensures
            r matches Ok(u) ==> uri_of(s@) == Some(u@),
            r is Err ==> uri_of(s@) is None && r == Err::<Uri, Error>(Error::Uri),
    {
        match parse_uri_bytes(s) {
            Some(u) => Ok(u),
            None => Err(Error::Uri),
        }
    }

    pub fn copy(&self) -> (r: Uri)
        ensures
            r@ == self@,
    {
        let authority = match &self.authority {
            Some(a) => Some(a.copy()),
            None => None,
        };
        Uri {
            scheme: copy_opt(&self.scheme),
            authority,
            path_and_query: copy_opt(&self.path_and_query),
        }
    }
}

} // verus!
