use url_parser::{parse_bytes, parse_url, ParseError, ParsedUrl};

fn ok(s: &str) -> ParsedUrl {
    match parse_url(s.as_bytes()) {
        Ok(u) => u,
        Err(e) => panic!("{:?} on {}", e, s),
    }
}

fn err(s: &[u8]) -> ParseError {
    match parse_url(s) {
        Ok(_) => panic!("parsed {:?}", s),
        Err(e) => e,
    }
}

fn b(s: &str) -> Option<&[u8]> {
    Some(s.as_bytes())
}

#[test]
fn components_round_trip() {
    let u = ok("HTTP://example.com:8080/a/b?x=1&y#frag");
    assert_eq!(u.scheme(), b("http"));
    assert_eq!(u.userinfo(), None);
    assert_eq!(u.host(), b("example.com"));
    assert_eq!(u.port(), Some(8080));
    assert_eq!(u.path(), b"/a/b");
    assert_eq!(u.query(), b("x=1&y"));
    assert_eq!(u.fragment(), b("frag"));
}

#[test]
fn round_trip_with_empty_path() {
    let u = ok("ws://h:1?q#f");
    assert_eq!(u.host(), b("h"));
    assert_eq!(u.port(), Some(1));
    assert_eq!(u.path(), b"");
    assert_eq!(u.query(), b("q"));
    assert_eq!(u.fragment(), b("f"));
}

#[test]
fn empty_input_is_empty_relative_reference() {
    let u = ok("");
    assert_eq!(u.scheme(), None);
    assert_eq!(u.userinfo(), None);
    assert_eq!(u.host(), None);
    assert_eq!(u.port(), None);
    assert_eq!(u.path(), b"");
    assert_eq!(u.query(), None);
    assert_eq!(u.fragment(), None);
}

#[test]
fn mailto_has_no_host() {
    let u = ok("mailto:user@example.com");
    assert_eq!(u.scheme(), b("mailto"));
    assert_eq!(u.host(), None);
    assert_eq!(u.port(), None);
    assert_eq!(u.userinfo(), None);
    assert_eq!(u.path(), b"user@example.com");
}

#[test]
fn scheme_with_single_slash_has_no_host() {
    let u = ok("http:/h:80/p");
    assert_eq!(u.host(), None);
    assert_eq!(u.port(), None);
    assert_eq!(u.path(), b"/h:80/p");
}

#[test]
fn relative_reference_with_double_slash_has_no_host() {
    let u = ok("//foo:80/bar?x");
    assert_eq!(u.scheme(), None);
    assert_eq!(u.host(), None);
    assert_eq!(u.port(), None);
    assert_eq!(u.path(), b"//foo:80/bar");
    assert_eq!(u.query(), b("x"));
}

#[test]
fn digit_first_token_is_not_a_scheme() {
    let u = ok("1http://x");
    assert_eq!(u.scheme(), None);
    assert_eq!(u.host(), None);
    assert_eq!(u.path(), b"1http://x");
}

#[test]
fn scheme_with_plus_dot_and_dash() {
    let u = ok("Svn+SSH.x-y://h/x");
    assert_eq!(u.scheme(), b("svn+ssh.x-y"));
    assert_eq!(u.host(), b("h"));
    assert_eq!(u.path(), b"/x");
}

#[test]
fn ipv6_host_and_port() {
    let u = ok("http://[::1]:8080/");
    assert_eq!(u.host(), b("::1"));
    assert_eq!(u.port(), Some(8080));
    assert_eq!(u.path(), b"/");
}

#[test]
fn ipv6_host_without_port() {
    let u = ok("http://[fe80::1]/x");
    assert_eq!(u.host(), b("fe80::1"));
    assert_eq!(u.port(), None);
}

#[test]
fn last_at_separates_userinfo() {
    let u = ok("http://a@b@c.com/");
    assert_eq!(u.userinfo(), b("a@b"));
    assert_eq!(u.host(), b("c.com"));
    assert_eq!(u.port(), None);
}

#[test]
fn empty_userinfo_is_present() {
    let u = ok("http://@h/");
    assert_eq!(u.userinfo(), b(""));
    assert_eq!(u.host(), b("h"));
}

#[test]
fn userinfo_with_colon_and_port() {
    let u = ok("ftp://user:pw@h:21/f");
    assert_eq!(u.userinfo(), b("user:pw"));
    assert_eq!(u.host(), b("h"));
    assert_eq!(u.port(), Some(21));
}

#[test]
fn empty_authority_has_empty_host() {
    let u = ok("file:///etc/hosts");
    assert_eq!(u.host(), b(""));
    assert_eq!(u.port(), None);
    assert_eq!(u.path(), b"/etc/hosts");
}

#[test]
fn non_digit_suffix_stays_in_host() {
    let u = ok("http://host:abc/");
    assert_eq!(u.host(), b("host:abc"));
    assert_eq!(u.port(), None);
}

#[test]
fn trailing_colon_stays_in_host() {
    let u = ok("http://host:/");
    assert_eq!(u.host(), b("host:"));
    assert_eq!(u.port(), None);
}

#[test]
fn largest_port() {
    let u = ok("http://h:65535");
    assert_eq!(u.port(), Some(65535));
    assert_eq!(u.path(), b"");
    let z = ok("http://h:0/");
    assert_eq!(z.port(), Some(0));
}

#[test]
fn port_with_leading_zeros() {
    let u = ok("http://h:0000000000000000000000080/");
    assert_eq!(u.port(), Some(80));
}

#[test]
fn leading_colon_is_empty_scheme() {
    assert_eq!(err(b":foo"), ParseError::EmptyScheme);
}

#[test]
fn port_over_16_bits_is_invalid() {
    assert_eq!(err(b"http://host:99999/"), ParseError::InvalidPort);
    assert_eq!(err(b"http://host:65536/"), ParseError::InvalidPort);
    assert_eq!(err(b"http://h:99999999999999999999999/"), ParseError::InvalidPort);
}

#[test]
fn bracket_port_errors() {
    assert_eq!(err(b"http://[::1]:/"), ParseError::InvalidPort);
    assert_eq!(err(b"http://[::1]:8a/"), ParseError::InvalidPort);
    assert_eq!(err(b"http://[::1]:70000/"), ParseError::InvalidPort);
}

#[test]
fn bracket_host_errors() {
    assert_eq!(err(b"http://[::1/"), ParseError::InvalidHost);
    assert_eq!(err(b"http://[]/"), ParseError::InvalidHost);
    assert_eq!(err(b"http://[::1]x/"), ParseError::InvalidHost);
}

#[test]
fn query_absent_versus_empty() {
    let absent = ok("http://h/p");
    assert_eq!(absent.query(), None);
    let empty = ok("http://h/p?");
    assert_eq!(empty.query(), b(""));
}

#[test]
fn fragment_absent_versus_empty() {
    assert_eq!(ok("http://h/p").fragment(), None);
    assert_eq!(ok("http://h/p#").fragment(), b(""));
}

#[test]
fn question_mark_inside_fragment_is_not_a_query() {
    let u = ok("http://h/p#a?b");
    assert_eq!(u.path(), b"/p");
    assert_eq!(u.query(), None);
    assert_eq!(u.fragment(), b("a?b"));
}

#[test]
fn hash_ends_the_authority() {
    let u = ok("http://h:8#x");
    assert_eq!(u.host(), b("h"));
    assert_eq!(u.port(), Some(8));
    assert_eq!(u.path(), b"");
    assert_eq!(u.fragment(), b("x"));
}

#[test]
fn percent_sequences_pass_through() {
    let u = ok("http://h/a%2Fb%zz?q=%20");
    assert_eq!(u.path(), b"/a%2Fb%zz");
    assert_eq!(u.query(), b("q=%20"));
}

#[test]
fn raw_space_or_control_is_invalid() {
    assert_eq!(err(b"http://h/a b"), ParseError::InvalidCharacter);
    assert_eq!(err(b"http://h/p?a\x01"), ParseError::InvalidCharacter);
    assert_eq!(err(b"http://h/p#\n"), ParseError::InvalidCharacter);
    assert_eq!(err(b"http://h\tx/"), ParseError::InvalidCharacter);
    assert_eq!(err(b"a b"), ParseError::InvalidCharacter);
}

#[test]
fn authority_errors_come_before_characters() {
    assert_eq!(err(b"http://h:99999/ x"), ParseError::InvalidPort);
    assert_eq!(err(b": x"), ParseError::EmptyScheme);
}

#[test]
fn invalid_utf8_is_invalid_encoding() {
    assert_eq!(err(&[0x68, 0x3a, 0x2f, 0xff, 0x41]), ParseError::InvalidEncoding(3));
    assert_eq!(err(&[0xc3]), ParseError::InvalidEncoding(0));
}

#[test]
fn multibyte_text_is_kept_as_bytes() {
    let u = ok("http://h/caf\u{e9}");
    assert_eq!(u.path(), "/caf\u{e9}".as_bytes());
}

#[test]
fn grammar_alone_ignores_encoding() {
    let u = parse_bytes(&[0x2f, 0xff]).unwrap();
    assert_eq!(u.path(), &[0x2f, 0xff]);
}

#[test]
fn error_messages() {
    assert_eq!(ParseError::InvalidPort.message(), "URL has an invalid port");
    assert_eq!(ParseError::InvalidEncoding(4).message(), "URL is not valid UTF-8");
    assert_eq!(ParseError::EmptyScheme.message(), "URL begins with an empty scheme");
}
