//! Properties of the grammar that relate its parts, proved over `spec_parse`.
use vstd::prelude::*;
use crate::model::{
    has_authority, spec_parse, ParseError, UrlModel, AT, COLON, HASH, OPEN_BRACKET, QUESTION, SLASH,
};
use crate::scan::{
    all_digits, authority_stop, digits_value, ends_authority, first_of, has_forbidden, is_alpha,
    is_digit, is_forbidden, is_scheme_char, last_of, lower_seq, scheme_stop,
};

verus! {

proof fn lemma_first_of_at(s: Seq<u8>, c: u8, lo: int, k: int, hi: int)
    requires
        lo <= k <= hi <= s.len(),
        0 <= lo,
        forall|i: int| lo <= i < k ==> s[i] != c,
        k < hi ==> s[k] == c,
    ensures
        first_of(s, c, lo, hi) == k,
    decreases k - lo,
{
    if lo < k {
        lemma_first_of_at(s, c, lo + 1, k, hi);
    }
}

proof fn lemma_last_of_at(s: Seq<u8>, c: u8, lo: int, k: int, hi: int)
    requires
        0 <= lo <= k < hi <= s.len(),
        s[k] == c,
        forall|i: int| k < i < hi ==> s[i] != c,
    ensures
        last_of(s, c, lo, hi) == Some(k),
    decreases hi - k,
{
    if k + 1 < hi {
        lemma_last_of_at(s, c, lo, k, hi - 1);
    }
}

proof fn lemma_last_of_none(s: Seq<u8>, c: u8, lo: int, hi: int)
    requires
        0 <= lo <= hi <= s.len(),
        forall|i: int| lo <= i < hi ==> s[i] != c,
    ensures
        last_of(s, c, lo, hi) is None,
    decreases hi - lo,
{
    if lo < hi {
        lemma_last_of_none(s, c, lo, hi - 1);
    }
}

proof fn lemma_scheme_stop_at(s: Seq<u8>, lo: int, k: int)
    requires
        0 <= lo <= k < s.len(),
        forall|i: int| lo <= i < k ==> is_scheme_char(s[i]),
        !is_scheme_char(s[k]),
    ensures
        scheme_stop(s, lo) == k,
    decreases k - lo,
{
    if lo < k {
        lemma_scheme_stop_at(s, lo + 1, k);
    }
}

proof fn lemma_authority_stop_at(s: Seq<u8>, lo: int, k: int)
    requires
        0 <= lo <= k < s.len(),
        forall|i: int| lo <= i < k ==> !ends_authority(s[i]),
        ends_authority(s[k]),
    ensures
        authority_stop(s, lo) == k,
    decreases k - lo,
{
    if lo < k {
        lemma_authority_stop_at(s, lo + 1, k);
    }
}

proof fn lemma_digits_value_shift(s: Seq<u8>, d: Seq<u8>, lo: int, dlo: int, len: int)
    requires
        0 <= lo,
        0 <= dlo,
        0 <= len,
        lo + len <= s.len(),
        dlo + len <= d.len(),
        forall|i: int| lo <= i < lo + len ==> #[trigger] s[i] == d[dlo + (i - lo)],
    ensures
        digits_value(s, lo, lo + len) == digits_value(d, dlo, dlo + len),
    decreases len,
{
    if len > 0 {
        assert(s[lo + len - 1] == d[dlo + len - 1]);
        lemma_digits_value_shift(s, d, lo, dlo, len - 1);
    }
}

/// A scheme: a letter, then letters, digits, `+`, `-` or `.`.
pub open spec fn valid_scheme(s: Seq<u8>) -> bool {
    s.len() > 0 && is_alpha(s[0]) && forall|i: int| 0 <= i < s.len() ==> is_scheme_char(#[trigger] s[i])
}

/// No byte of `s` is `c`.
pub open spec fn excludes(s: Seq<u8>, c: u8) -> bool {
    forall|i: int| 0 <= i < s.len() ==> #[trigger] s[i] != c
}

/// The text `scheme://host:port` followed by `path?query#fragment`.
pub open spec fn absolute_url(
    scheme: Seq<u8>,
    host: Seq<u8>,
    port: Seq<u8>,
    path: Seq<u8>,
    query: Seq<u8>,
    fragment: Seq<u8>,
) -> Seq<u8> {
    scheme + seq![COLON, SLASH, SLASH] + host + seq![COLON] + port + path + seq![QUESTION] + query
        + seq![HASH] + fragment
}

/// Parsing `scheme://host:port/path?query#fragment` gives back each component
/// as it was written (the scheme in lower case), with no userinfo; this holds
/// for every valid scheme, every host without `/`, `?`, `#`, `@` or a leading
/// `[`, every decimal port up to 65535, every path that is empty or begins
/// with `/` and holds no `?` or `#`, every query without `#`, and every
/// fragment, none of them with a control character or a space.
pub proof fn lemma_components_round_trip(
    scheme: Seq<u8>,
    host: Seq<u8>,
    port: Seq<u8>,
    path: Seq<u8>,
    query: Seq<u8>,
    fragment: Seq<u8>,
)
    requires
        valid_scheme(scheme),
        excludes(host, SLASH),
        excludes(host, QUESTION),
        excludes(host, HASH),
        excludes(host, AT),
        host.len() > 0 ==> host[0] != OPEN_BRACKET,
        !has_forbidden(host),
        port.len() > 0,
        all_digits(port, 0, port.len() as int),
        digits_value(port, 0, port.len() as int) <= 0xffff,
        path.len() > 0 ==> path[0] == SLASH,
        excludes(path, QUESTION),
        excludes(path, HASH),
        !has_forbidden(path),
        excludes(query, HASH),
        !has_forbidden(query),
        !has_forbidden(fragment),
    ensures
        spec_parse(absolute_url(scheme, host, port, path, query, fragment)) == Ok::<
            UrlModel,
            ParseError,
        >(
            UrlModel {
                scheme: Some(lower_seq(scheme)),
                userinfo: None,
                host: Some(host),
                port: Some(digits_value(port, 0, port.len() as int) as u16),
                path,
                query: Some(query),
                fragment: Some(fragment),
            },
        ),
{
    let b = absolute_url(scheme, host, port, path, query, fragment);
    let ls = scheme.len() as int;
    let hs = ls + 3;
    let c = hs + host.len();
    let e = c + 1 + port.len();
    let qp = e + path.len();
    let hp = qp + 1 + query.len();
    let n = b.len() as int;
    assert(n == hp + 1 + fragment.len());
    assert forall|i: int| 0 <= i < ls implies #[trigger] b[i] == scheme[i] by {}
    assert(b[ls] == COLON && b[ls + 1] == SLASH && b[ls + 2] == SLASH);
    assert forall|i: int| hs <= i < c implies #[trigger] b[i] == host[i - hs] by {}
    assert(b[c] == COLON);
    assert forall|i: int| c + 1 <= i < e implies #[trigger] b[i] == port[i - (c + 1)] by {}
    assert forall|i: int| e <= i < qp implies #[trigger] b[i] == path[i - e] by {}
    assert(b[qp] == QUESTION);
    assert forall|i: int| qp + 1 <= i < hp implies #[trigger] b[i] == query[i - (qp + 1)] by {}
    assert(b[hp] == HASH);
    assert forall|i: int| hp + 1 <= i < n implies #[trigger] b[i] == fragment[i - (hp + 1)] by {}

    // The scheme, and the `//` after it.
    assert forall|i: int| 1 <= i < ls implies is_scheme_char(#[trigger] b[i]) by {
        assert(is_scheme_char(scheme[i]));
    }
    lemma_scheme_stop_at(b, 1, ls);
    assert(has_authority(b));

    // The authority ends where the path, or else the query, begins.
    assert forall|i: int| hs <= i < e implies !ends_authority(#[trigger] b[i]) by {
        if i < c {
            assert(host[i - hs] != SLASH && host[i - hs] != QUESTION && host[i - hs] != HASH);
        } else if i > c {
            assert(all_digits(port, 0, port.len() as int) ==> is_digit(port[i - (c + 1)]));
        }
    }
    lemma_authority_stop_at(b, hs, e);

    // Userinfo, host and port.
    assert forall|i: int| hs <= i < e implies #[trigger] b[i] != AT by {
        if i < c {
            assert(host[i - hs] != AT);
        } else if i > c {
            assert(is_digit(port[i - (c + 1)]));
        }
    }
    lemma_last_of_none(b, AT, hs, e);
    assert(b[hs] != OPEN_BRACKET) by {
        if host.len() > 0 {
            assert(b[hs] == host[0]);
        }
    }
    assert forall|i: int| c < i < e implies #[trigger] b[i] != COLON by {
        assert(is_digit(port[i - (c + 1)]));
    }
    lemma_last_of_at(b, COLON, hs, c, e);
    assert(all_digits(b, c + 1, e)) by {
        assert forall|i: int| c + 1 <= i < e implies is_digit(#[trigger] b[i]) by {
            assert(is_digit(port[i - (c + 1)]));
        }
    }
    lemma_digits_value_shift(b, port, c + 1, 0, port.len() as int);

    // No forbidden byte.
    assert forall|i: int| 0 <= i < n implies !is_forbidden(#[trigger] b[i]) by {
        if i < ls {
            assert(is_scheme_char(scheme[i]));
        } else if hs <= i < c {
            assert(!is_forbidden(host[i - hs]));
        } else if c < i < e {
            assert(is_digit(port[i - (c + 1)]));
        } else if e <= i < qp {
            assert(!is_forbidden(path[i - e]));
        } else if qp < i < hp {
            assert(!is_forbidden(query[i - (qp + 1)]));
        } else if hp < i {
            assert(!is_forbidden(fragment[i - (hp + 1)]));
        }
    }

    // Path, query and fragment.
    assert forall|i: int| e <= i < hp implies #[trigger] b[i] != HASH by {
        if i < qp {
            assert(path[i - e] != HASH);
        } else if i > qp {
            assert(query[i - (qp + 1)] != HASH);
        }
    }
    lemma_first_of_at(b, HASH, e, hp, n);
    assert forall|i: int| e <= i < qp implies #[trigger] b[i] != QUESTION by {
        assert(path[i - e] != QUESTION);
    }
    lemma_first_of_at(b, QUESTION, e, qp, hp);

    assert(b.subrange(0, ls) =~= scheme);
    assert(b.subrange(hs, c) =~= host);
    assert(b.subrange(e, qp) =~= path);
    assert(b.subrange(qp + 1, hp) =~= query);
    assert(b.subrange(hp + 1, n) =~= fragment);
}

/// Where no `//` follows the scheme's `:`, or there is no scheme, a
/// successful parse has neither host nor port, nor userinfo.
pub proof fn lemma_no_authority_no_host(b: Seq<u8>)
    requires
        !has_authority(b),
        spec_parse(b) is Ok,
    ensures
        spec_parse(b)->Ok_0.host is None,
        spec_parse(b)->Ok_0.port is None,
        spec_parse(b)->Ok_0.userinfo is None,
{
}

/// A parsed URL that has a port or a userinfo has a host too.
pub proof fn lemma_port_needs_host(b: Seq<u8>)
    requires
        spec_parse(b) is Ok,
    ensures
        spec_parse(b)->Ok_0.port is Some ==> spec_parse(b)->Ok_0.host is Some,
        spec_parse(b)->Ok_0.userinfo is Some ==> spec_parse(b)->Ok_0.host is Some,
{
}

} // verus!
