//! The parsed URL and the parser.
use vstd::prelude::*;
use crate::encoding::{utf8_check, utf8_error_at};
use crate::model::{
    authority_start, has_authority, rest_start, scheme_end, spec_authority, spec_parse,
    AuthorityModel, ParseError, UrlModel, AT, CLOSE_BRACKET, COLON, HASH, OPEN_BRACKET, QUESTION,
    SLASH,
};
use crate::scan::{
    alpha, any_forbidden, copy_range, find_authority_stop, find_first, find_last,
    find_scheme_stop, lowercase_range, only_digits, port_value,
};

verus! {

/// The bytes of an optional owned sequence.
pub open spec fn opt_bytes(o: Option<Vec<u8>>) -> Option<Seq<u8>> {
    match o {
        Some(v) => Some(v@),
        None => None,
    }
}

/// The bytes of an optional borrowed slice.
pub open spec fn opt_slice(o: Option<&[u8]>) -> Option<Seq<u8>> {
    match o {
        Some(v) => Some(v@),
        None => None,
    }
}

/// A URL split into its components. It is built only by a parse and never
/// changes after.
pub struct ParsedUrl {
    scheme: Option<Vec<u8>>,
    userinfo: Option<Vec<u8>>,
    host: Option<Vec<u8>>,
    port: Option<u16>,
    path: Vec<u8>,
    query: Option<Vec<u8>>,
    fragment: Option<Vec<u8>>,
}

impl View for ParsedUrl {
    type V = UrlModel;

    closed spec fn view(&self) -> UrlModel {
        UrlModel {
            scheme: opt_bytes(self.scheme),
            userinfo: opt_bytes(self.userinfo),
            host: opt_bytes(self.host),
            port: self.port,
            path: self.path@,
            query: opt_bytes(self.query),
            fragment: opt_bytes(self.fragment),
        }
    }
}

/// The outcome of a parse, with a parsed URL seen as its components.
pub open spec fn result_view(r: Result<ParsedUrl, ParseError>) -> Result<UrlModel, ParseError> {
    match r {
        Ok(u) => Ok(u@),
        Err(e) => Err(e),
    }
}

fn as_slice_opt(o: &Option<Vec<u8>>) -> (r: Option<&[u8]>)
    ensures
        opt_slice(r) == opt_bytes(*o),
{
    match o {
        Some(v) => Some(v.as_slice()),
        None => None,
    }
}

impl ParsedUrl {
    /// The scheme in lower case; absent in a relative reference.
    pub fn scheme(&self) -> (r: Option<&[u8]>)
        ensures
            opt_slice(r) == self@.scheme,
    {
        as_slice_opt(&self.scheme)
    }

    /// What stands before the last `@` of the authority, if it has one.
    pub fn userinfo(&self) -> (r: Option<&[u8]>)
        ensures
            opt_slice(r) == self@.userinfo,
    {
        as_slice_opt(&self.userinfo)
    }

    /// The host, without brackets; absent where there is no authority.
    pub fn host(&self) -> (r: Option<&[u8]>)
        ensures
            opt_slice(r) == self@.host,
    {
        as_slice_opt(&self.host)
    }

    /// The port, where one is written.
    pub fn port(&self) -> (r: Option<u16>)
        ensures
            r == self@.port,
    {
        self.port
    }

    /// The path, possibly empty.
    pub fn path(&self) -> (r: &[u8])
        ensures
            r@ == self@.path,
    {
        self.path.as_slice()
    }

    /// What follows the first `?` up to the fragment, where there is a `?`.
    pub fn query(&self) -> (r: Option<&[u8]>)
        ensures
            opt_slice(r) == self@.query,
    {
        as_slice_opt(&self.query)
    }

    /// What follows the first `#`, where there is one.
    pub fn fragment(&self) -> (r: Option<&[u8]>)
        ensures
            opt_slice(r) == self@.fragment,
    {
        as_slice_opt(&self.fragment)
    }
}

/// The parts of an authority, as parsed.
struct Authority {
    userinfo: Option<Vec<u8>>,
    host: Vec<u8>,
    port: Option<u16>,
}

impl View for Authority {
    type V = AuthorityModel;

    closed spec fn view(&self) -> AuthorityModel {
        AuthorityModel { userinfo: opt_bytes(self.userinfo), host: self.host@, port: self.port }
    }
}

/// Splits the authority in `lo..hi` into userinfo, host and port.
fn parse_authority(b: &[u8], lo: usize, hi: usize) -> (r: Result<Authority, ParseError>)
    requires
        lo <= hi <= b@.len(),
    ensures
        match r {
            Ok(a) => spec_authority(b@, lo as int, hi as int) == Ok::<AuthorityModel, ParseError>(
                a@,
            ),
            Err(e) => spec_authority(b@, lo as int, hi as int) == Err::<AuthorityModel, ParseError>(
                e,
            ),
        },
{
    let (userinfo, hs) = match find_last(b, AT, lo, hi) {
        Some(i) => (Some(copy_range(b, lo, i)), i + 1),
        None => (None, lo),
    };
    if hs < hi && b[hs] == OPEN_BRACKET {
        let cb = find_first(b, CLOSE_BRACKET, hs + 1, hi);
        if cb == hi || cb == hs + 1 {
            return Err(ParseError::InvalidHost);
        }
        let host = copy_range(b, hs + 1, cb);
        if cb + 1 == hi {
            return Ok(Authority { userinfo, host, port: None });
        }
        if b[cb + 1] != COLON {
            return Err(ParseError::InvalidHost);
        }
        if cb + 2 == hi || !only_digits(b, cb + 2, hi) {
            return Err(ParseError::InvalidPort);
        }
        match port_value(b, cb + 2, hi) {
            Some(v) => Ok(Authority { userinfo, host, port: Some(v) }),
            None => Err(ParseError::InvalidPort),
        }
    } else {
        match find_last(b, COLON, hs, hi) {
            Some(c) => {
                if c + 1 < hi && only_digits(b, c + 1, hi) {
                    match port_value(b, c + 1, hi) {
                        Some(v) => Ok(Authority { userinfo, host: copy_range(b, hs, c), port: Some(v) }),
                        None => Err(ParseError::InvalidPort),
                    }
                } else {
                    Ok(Authority { userinfo, host: copy_range(b, hs, hi), port: None })
                }
            },
            None => Ok(Authority { userinfo, host: copy_range(b, hs, hi), port: None }),
        }
    }
}

/// Parses `input` by the URL grammar, taking its encoding as valid: what
/// it returns is exactly what `spec_parse` gives.
pub fn parse_bytes(input: &[u8]) -> (r: Result<ParsedUrl, ParseError>)
    ensures
        result_view(r) == spec_parse(input@),
{
    let b = input;
    let n = b.len();
    if n > 0 && b[0] == COLON {
        return Err(ParseError::EmptyScheme);
    }
    let t = if n == 0 {
        0
    } else {
        find_scheme_stop(b, 1)
    };
    let has_scheme = n > 0 && alpha(b[0]) && t < n && b[t] == COLON;
    assert(has_scheme <==> scheme_end(b@) is Some);
    let authority = has_scheme && n - t > 2 && b[t + 1] == SLASH && b[t + 2] == SLASH;
    assert(authority == has_authority(b@));
    let mut auth: Option<Authority> = None;
    let p: usize;
    if authority {
        let e = find_authority_stop(b, t + 3);
        assert(e as int == rest_start(b@) && t + 3 == authority_start(b@));
        match parse_authority(b, t + 3, e) {
            Ok(a) => {
                auth = Some(a);
            },
            Err(err) => {
                return Err(err);
            },
        }
        p = e;
    } else if has_scheme {
        p = t + 1;
    } else {
        p = 0;
    }
    assert(p as int == rest_start(b@));
    if any_forbidden(b) {
        return Err(ParseError::InvalidCharacter);
    }
    let scheme = if has_scheme {
        Some(lowercase_range(b, 0, t))
    } else {
        None
    };
    let h = find_first(b, HASH, p, n);
    let q = find_first(b, QUESTION, p, h);
    let query = if q < h {
        Some(copy_range(b, q + 1, h))
    } else {
        None
    };
    let fragment = if h < n {
        Some(copy_range(b, h + 1, n))
    } else {
        None
    };
    let path = copy_range(b, p, q);
    let (userinfo, host, port) = match auth {
        Some(a) => (a.userinfo, Some(a.host), a.port),
        None => (None, None, None),
    };
    let url = ParsedUrl { scheme, userinfo, host, port, path, query, fragment };
    Ok(url)
}

/// Parses `input`: fails with `InvalidEncoding` where it is not UTF-8 text,
/// and is otherwise exactly `parse_bytes`.
pub fn parse_url(input: &[u8]) -> (r: Result<ParsedUrl, ParseError>)
    ensures
        match utf8_error_at(input@) {
            Some(p) => r matches Err(e) && e == ParseError::InvalidEncoding(p),
            None => result_view(r) == spec_parse(input@),
        },
{
    match utf8_check(input) {
        Some(p) => Err(ParseError::InvalidEncoding(p)),
        None => parse_bytes(input),
    }
}

} // verus!
