use safe_dns::errors::DnsError;
use safe_dns::url::{parse_url, parse_url_with_scheme, DEFAULT_SERVICE, URL_SCHEME};

fn parts(long_name: &str, service: &str) -> Result<(String, String), DnsError> {
    Ok((long_name.to_string(), service.to_string()))
}

#[test]
fn locator_with_service() {
    assert_eq!(parse_url("scheme:www.example.com"), parts("example.com", "www"));
}

#[test]
fn locator_without_service_names_the_default() {
    assert_eq!(parse_url("scheme:example.com"), parts("example.com", "www"));
    assert_eq!(DEFAULT_SERVICE, "www");
}

#[test]
fn locator_of_three_short_labels() {
    assert_eq!(parse_url("scheme:a.b.c"), parts("b.c", "a"));
}

#[test]
fn single_label_is_malformed() {
    assert_eq!(parse_url("scheme:onlylabel"), Err(DnsError::MalformedUrl));
}

#[test]
fn four_labels_are_malformed() {
    assert_eq!(parse_url("scheme:a.b.c.d"), Err(DnsError::MalformedUrl));
}

#[test]
fn empty_labels_are_malformed() {
    assert_eq!(parse_url("scheme:.example.com"), Err(DnsError::MalformedUrl));
    assert_eq!(parse_url("scheme:www..com"), Err(DnsError::MalformedUrl));
    assert_eq!(parse_url("scheme:www.example."), Err(DnsError::MalformedUrl));
    assert_eq!(parse_url("scheme:.com"), Err(DnsError::MalformedUrl));
    assert_eq!(parse_url("scheme:example."), Err(DnsError::MalformedUrl));
    assert_eq!(parse_url("scheme:."), Err(DnsError::MalformedUrl));
    assert_eq!(parse_url("scheme:.."), Err(DnsError::MalformedUrl));
}

#[test]
fn missing_or_foreign_scheme_is_malformed() {
    assert_eq!(parse_url(""), Err(DnsError::MalformedUrl));
    assert_eq!(parse_url("scheme"), Err(DnsError::MalformedUrl));
    assert_eq!(parse_url("scheme:"), Err(DnsError::MalformedUrl));
    assert_eq!(parse_url("www.example.com"), Err(DnsError::MalformedUrl));
    assert_eq!(parse_url("other:www.example.com"), Err(DnsError::MalformedUrl));
    assert_eq!(parse_url("xscheme:www.example.com"), Err(DnsError::MalformedUrl));
    assert_eq!(parse_url("scheme;www.example.com"), Err(DnsError::MalformedUrl));
    assert_eq!(parse_url("Scheme:www.example.com"), Err(DnsError::MalformedUrl));
}

#[test]
fn labels_may_hold_any_character_but_a_dot() {
    assert_eq!(parse_url("scheme:w w:w.exa-mple.c0m"), parts("exa-mple.c0m", "w w:w"));
    assert_eq!(parse_url("scheme:b\u{fc}cher.caf\u{e9}"), parts("b\u{fc}cher.caf\u{e9}", "www"));
}

#[test]
fn another_scheme_can_be_named() {
    assert_eq!(parse_url_with_scheme("safe:lays.pepsico.com", "safe"), parts("pepsico.com", "lays"));
    assert_eq!(parse_url_with_scheme("safe:pepsico.com", "safe"), parts("pepsico.com", "www"));
    assert_eq!(
        parse_url_with_scheme("scheme:pepsico.com", "safe"),
        Err(DnsError::MalformedUrl)
    );
    assert_eq!(parse_url_with_scheme(":a.b", ""), parts("a.b", "www"));
    assert_eq!(URL_SCHEME, "scheme");
}
