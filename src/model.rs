//! What a parse yields, as a mathematical value, and the grammar that
//! decides it, as a spec function of the input bytes.
use vstd::prelude::*;
use crate::scan::{
    all_digits, authority_stop, digits_value, first_of, has_forbidden, is_alpha, last_of,
    lower_seq, scheme_stop,
};

verus! {

pub const COLON: u8 = 0x3a;
pub const SLASH: u8 = 0x2f;
pub const QUESTION: u8 = 0x3f;
pub const HASH: u8 = 0x23;
pub const AT: u8 = 0x40;
pub const OPEN_BRACKET: u8 = 0x5b;
pub const CLOSE_BRACKET: u8 = 0x5d;

/// Why a parse failed.
#[derive(Clone, Copy, Debug, PartialEq, Eq, Structural)]
pub enum ParseError {
    /// The input is not valid UTF-8; the valid prefix ends at this byte.
    InvalidEncoding(usize),
    /// The input begins with `:`, a scheme of no letters.
    EmptyScheme,
    /// A bracketed host literal is unterminated or empty, or followed by
    /// something other than a port.
    InvalidHost,
    /// A port is missing after a bracketed host's `:`, is not all digits
    /// there, or does not fit in 16 bits.
    InvalidPort,
    /// A control character or a space stands raw in the input.
    InvalidCharacter,
}

/// A short description of each error.
pub open spec fn error_text(e: ParseError) -> Seq<char> {
    match e {
        ParseError::InvalidEncoding(_) => "URL is not valid UTF-8"@,
        ParseError::EmptyScheme => "URL begins with an empty scheme"@,
        ParseError::InvalidHost => "URL has an invalid host"@,
        ParseError::InvalidPort => "URL has an invalid port"@,
        ParseError::InvalidCharacter => "URL holds a control character or a space"@,
    }
}

impl ParseError {
    /// A human-readable description of the error.
    pub fn message(&self) -> (r: &'static str)
        ensures
            r@ == error_text(*self),
    {
        match self {
            ParseError::InvalidEncoding(_) => "URL is not valid UTF-8",
            ParseError::EmptyScheme => "URL begins with an empty scheme",
            ParseError::InvalidHost => "URL has an invalid host",
            ParseError::InvalidPort => "URL has an invalid port",
            ParseError::InvalidCharacter => "URL holds a control character or a space",
        }
    }
}

/// The parts of an authority `userinfo@host:port`.
pub struct AuthorityModel {
    pub userinfo: Option<Seq<u8>>,
    pub host: Seq<u8>,
    pub port: Option<u16>,
}

/// The components of a parsed URL. Every byte sequence is a slice of the
/// input, but the scheme, which is in lower case.
pub struct UrlModel {
    pub scheme: Option<Seq<u8>>,
    pub userinfo: Option<Seq<u8>>,
    pub host: Option<Seq<u8>>,
    pub port: Option<u16>,
    pub path: Seq<u8>,
    pub query: Option<Seq<u8>>,
    pub fragment: Option<Seq<u8>>,
}

/// The index of the `:` that ends the scheme, where the input begins with
/// a letter, then scheme bytes, then `:`.
pub open spec fn scheme_end(b: Seq<u8>) -> Option<int> {
    let t = scheme_stop(b, 1);
    if b.len() > 0 && is_alpha(b[0]) && t < b.len() && b[t] == COLON {
        Some(t)
    } else {
        None
    }
}

/// The scheme's `:` is followed by `//`.
pub open spec fn has_authority(b: Seq<u8>) -> bool {
    match scheme_end(b) {
        Some(t) => t + 2 < b.len() && b[t + 1] == SLASH && b[t + 2] == SLASH,
        None => false,
    }
}

/// Where the authority begins: after the scheme's `://`.
pub open spec fn authority_start(b: Seq<u8>) -> int {
    match scheme_end(b) {
        Some(t) => t + 3,
        None => 0,
    }
}

/// Where the path begins: after the authority where there is one, else after
/// the scheme's `:`, else at the start.
pub open spec fn rest_start(b: Seq<u8>) -> int {
    if has_authority(b) {
        authority_stop(b, authority_start(b))
    } else {
        match scheme_end(b) {
            Some(t) => t + 1,
            None => 0,
        }
    }
}

/// A port written with the digits in `lo..hi`: present and all digits, and
/// no greater than 65535.
pub open spec fn port_ok(b: Seq<u8>, lo: int, hi: int) -> bool {
    lo < hi && all_digits(b, lo, hi) && digits_value(b, lo, hi) <= 0xffff
}

/// The host and port of `lo..hi`, where `b[lo]` opens a bracketed literal.
pub open spec fn bracketed_host(b: Seq<u8>, userinfo: Option<Seq<u8>>, lo: int, hi: int) -> Result<
    AuthorityModel,
    ParseError,
> {
    let cb = first_of(b, CLOSE_BRACKET, lo + 1, hi);
    if cb == hi || cb == lo + 1 {
        Err(ParseError::InvalidHost)
    } else if cb + 1 == hi {
        Ok(AuthorityModel { userinfo, host: b.subrange(lo + 1, cb), port: None })
    } else if b[cb + 1] != COLON {
        Err(ParseError::InvalidHost)
    } else if !port_ok(b, cb + 2, hi) {
        Err(ParseError::InvalidPort)
    } else {
        Ok(
            AuthorityModel {
                userinfo,
                host: b.subrange(lo + 1, cb),
                port: Some(digits_value(b, cb + 2, hi) as u16),
            },
        )
    }
}

/// The host and port of `lo..hi`, split at the last `:` where digits alone
/// follow it.
pub open spec fn plain_host(b: Seq<u8>, userinfo: Option<Seq<u8>>, lo: int, hi: int) -> Result<
    AuthorityModel,
    ParseError,
> {
    match last_of(b, COLON, lo, hi) {
        Some(c) => if c + 1 < hi && all_digits(b, c + 1, hi) {
            if digits_value(b, c + 1, hi) > 0xffff {
                Err(ParseError::InvalidPort)
            } else {
                Ok(
                    AuthorityModel {
                        userinfo,
                        host: b.subrange(lo, c),
                        port: Some(digits_value(b, c + 1, hi) as u16),
                    },
                )
            }
        } else {
            Ok(AuthorityModel { userinfo, host: b.subrange(lo, hi), port: None })
        },
        None => Ok(AuthorityModel { userinfo, host: b.subrange(lo, hi), port: None }),
    }
}

/// The authority in `lo..hi`: the userinfo before its last `@`, then the
/// host and port.
pub open spec fn spec_authority(b: Seq<u8>, lo: int, hi: int) -> Result<AuthorityModel, ParseError> {
    let (userinfo, hs) = match last_of(b, AT, lo, hi) {
        Some(i) => (Some(b.subrange(lo, i)), i + 1),
        None => (None, lo),
    };
    if hs < hi && b[hs] == OPEN_BRACKET {
        bracketed_host(b, userinfo, hs, hi)
    } else {
        plain_host(b, userinfo, hs, hi)
    }
}

/// The index of the first `#` from `p` on, or the length.
pub open spec fn fragment_start(b: Seq<u8>, p: int) -> int {
    first_of(b, HASH, p, b.len() as int)
}

/// The end of the path that begins at `p`: the first `?` before the fragment.
pub open spec fn query_start(b: Seq<u8>, p: int) -> int {
    first_of(b, QUESTION, p, fragment_start(b, p))
}

/// The components of `b`, given its authority where it has one.
pub open spec fn assemble(b: Seq<u8>, auth: Option<AuthorityModel>) -> UrlModel {
    let p = rest_start(b);
    let h = fragment_start(b, p);
    let q = query_start(b, p);
    UrlModel {
        scheme: match scheme_end(b) {
            Some(t) => Some(lower_seq(b.subrange(0, t))),
            None => None,
        },
        userinfo: match auth {
            Some(a) => a.userinfo,
            None => None,
        },
        host: match auth {
            Some(a) => Some(a.host),
            None => None,
        },
        port: match auth {
            Some(a) => a.port,
            None => None,
        },
        path: b.subrange(p, q),
        query: if q < h { Some(b.subrange(q + 1, h)) } else { None },
        fragment: if h < b.len() { Some(b.subrange(h + 1, b.len() as int)) } else { None },
    }
}

/// What parsing `b` yields, with its encoding taken as valid: the errors in
/// the order in which the grammar meets them (an empty scheme, then the
/// authority, then a forbidden byte), else the components.
pub open spec fn spec_parse(b: Seq<u8>) -> Result<UrlModel, ParseError> {
    if b.len() > 0 && b[0] == COLON {
        Err(ParseError::EmptyScheme)
    } else if has_authority(b) {
        match spec_authority(b, authority_start(b), rest_start(b)) {
            Err(e) => Err(e),
            Ok(a) => if has_forbidden(b) {
                Err(ParseError::InvalidCharacter)
            } else {
                Ok(assemble(b, Some(a)))
            },
        }
    } else if has_forbidden(b) {
        Err(ParseError::InvalidCharacter)
    } else {
        Ok(assemble(b, None))
    }
}

} // verus!
