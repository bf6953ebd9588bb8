//! Parts and normal forms of URLs.

use validate_readme::url::{urlsplit, urlunsplit};
use validate_readme::{normalize_url, ValueError};

fn normal(url: &str) -> String {
    normalize_url(url).unwrap()
}

#[test]
fn splits_into_all_parts() {
    let parts = urlsplit("HTTPS://me:pw@Host.Example:8080/a/b?x=1?y#top#more");
    assert_eq!(parts.scheme, "HTTPS");
    assert_eq!(parts.host, "Host.Example");
    assert_eq!(parts.hostname(), "host.example");
    assert_eq!(parts.port_raw, Some("8080".to_string()));
    assert_eq!(parts.port(), Ok(Some(8080)));
    assert_eq!(parts.path, "/a/b");
    assert_eq!(parts.query, "x=1?y");
}

#[test]
fn splits_without_scheme_or_path() {
    let parts = urlsplit("example.com?q");
    assert_eq!(parts.scheme, "");
    assert_eq!(parts.host, "example.com");
    assert_eq!(parts.port(), Ok(None));
    assert_eq!(parts.path, "");
    assert_eq!(parts.query, "q");
}

#[test]
fn joins_parts() {
    assert_eq!(urlunsplit("https", "h", "/p", "q"), "https://h/p?q");
    assert_eq!(urlunsplit("https", "", "/p", ""), "https:/p");
    assert_eq!(urlunsplit("https", "", "//p", ""), "https:////p");
    assert_eq!(urlunsplit("", "", "/p", "q"), "/p?q");
    assert_eq!(urlunsplit("", "h", "/", ""), "://h/");
}

#[test]
fn split_undoes_join_on_values() {
    let url = urlunsplit("http", "host:81", "/a", "b=c");
    let parts = urlsplit(&url);
    assert_eq!(parts.scheme, "http");
    assert_eq!(parts.host, "host");
    assert_eq!(parts.port_raw, Some("81".to_string()));
    assert_eq!(parts.path, "/a");
    assert_eq!(parts.query, "b=c");

    // a path may be missing
    for (query, expected) in [("", "http://host"), ("q", "http://host?q")] {
        let url = urlunsplit("http", "host", "", query);
        assert_eq!(url, expected);
        let parts = urlsplit(&url);
        assert_eq!(parts.host, "host");
        assert_eq!(parts.path, "");
        assert_eq!(parts.query, query);
    }
}

#[test]
fn fragment_does_not_count() {
    assert_eq!(normal("https://h/a#x"), normal("https://h/a"));
    assert_eq!(normal("https://h/a#x/y?z"), "https://h/a");
    // a fragment with the only separator in it makes the scheme
    assert_ne!(normal("h/a#x://y"), normal("h/a"));
}

#[test]
fn trailing_slashes_do_not_count() {
    assert_eq!(normal("https://h/a///"), "https://h/a");
    assert_eq!(normal("https://h"), "https://h/");
    assert_eq!(normal("https://h/"), "https://h/");
    assert_eq!(normal("https://h///"), "https://h/");
    assert_eq!(normal("https://h/a?q/"), "https://h/a?q/");
}

#[test]
fn only_the_port_of_https_is_dropped() {
    assert_eq!(normal("https://h:443/a"), "https://h/a");
    assert_eq!(normal("HttpS://h:443"), "https://h/");
    assert_eq!(normal("https://h:0443/a"), "https://h/a");
    assert_eq!(normal("https://h:80/a"), "https://h:80/a");
    assert_eq!(normal("http://h:443/a"), "http://h:443/a");
    assert_eq!(normal("http://h:0080/a"), "http://h:80/a");
    assert_eq!(normal("https://h:70000/"), "https://h:70000/");
}

#[test]
fn case_and_user_do_not_count() {
    assert_eq!(normal("HTTPS://User@EXAMPLE.com/Path"), "https://example.com/Path");
    assert_eq!(normal("https://\u{c9}COLE.fr/"), "https://\u{e9}cole.fr/");
}

#[test]
fn query_is_kept() {
    assert_eq!(normal("https://h/?A=B&c"), "https://h/?A=B&c");
    assert_eq!(normal("https://h/p/?"), "https://h/p");
}

#[test]
fn bad_ports_are_errors() {
    for raw in ["bad", "", "-1", "4294967296", "8 0", "1:"] {
        let raw_port = raw.rsplit(':').next().unwrap();
        let message = format!("Port could not be cast to integer value as '{raw_port}'");
        assert_eq!(
            normalize_url(&format!("https://h:{raw}/x")),
            Err(ValueError(message.clone()))
        );
        let error = normalize_url(&format!("https://h:{raw}/x")).unwrap_err();
        assert_eq!(error.to_string(), message);
        assert_eq!(error.clone(), error);
    }
}

#[test]
fn normal_forms_are_stable() {
    for url in [
        "HTTPS://EXAMPLE.COM:443/path/?q=1#fragment",
        "http://a.b:8080/x//",
        "ftp://U@Host",
        "example.com/a",
        "a:://b/c",
    ] {
        let once = normal(url);
        assert_eq!(normal(&once), once);
    }
    // a second port behind the first one is dropped the next time
    assert_eq!(normal("https://h:443:443/"), "https://h:443/");
    assert_eq!(normal("https://h:443/"), "https://h/");
}
