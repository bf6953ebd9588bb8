//! Judging links and talking to servers.

use validate_readme::http::{read_response, HttpAction, HttpEvent};
use validate_readme::links::{LinkAction, LinkEvent, Method};
use validate_readme::{
    check_link, check_links, classify_exception, classify_status, http_status, LinkError,
    Resource, Severity, USER_AGENT,
};

fn resource(url: &str) -> Resource {
    Resource {
        line: 1,
        section: String::new(),
        category: "C".to_string(),
        title: "T".to_string(),
        url: url.to_string(),
        description: "D.".to_string(),
    }
}

#[test]
fn every_status() {
    for status in 0..=u16::MAX {
        let found = classify_status(status, "u");
        let expected = match status {
            0..=399 => None,
            401 | 403 | 429 => Some((Severity::Warning, format!("link check blocked ({status}): u"))),
            408 => Some((Severity::Warning, "link check timed out (408): u".to_string())),
            400..=499 => Some((Severity::Error, format!("broken link ({status}): u"))),
            _ => Some((Severity::Warning, format!("remote server error ({status}): u"))),
        };
        assert_eq!(found, expected);
    }
}

#[test]
fn every_failure() {
    for (kind, severity, what) in [
        (LinkError::Timeout, Severity::Warning, "link check timed out"),
        (LinkError::Dns, Severity::Error, "unreachable link"),
        (LinkError::Tls, Severity::Error, "unreachable link"),
        (LinkError::Http, Severity::Warning, "link check interrupted"),
        (LinkError::Other, Severity::Error, "unreachable link"),
    ] {
        assert_eq!(
            classify_exception(kind, "u", "why"),
            (severity, format!("{what}: u (why)"))
        );
    }
    assert_eq!(Severity::Error.as_str(), "error");
    assert_eq!(Severity::Warning.as_str(), "warning");
}

fn report(action: LinkAction) -> Option<(Severity, String)> {
    match action {
        LinkAction::Report(finding) => finding,
        LinkAction::Request(_) => panic!("a request"),
    }
}

#[test]
fn head_comes_first_and_get_only_when_refused() {
    let r = resource("https://h/x");
    assert!(matches!(
        check_link(&r, LinkEvent::Start),
        LinkAction::Request(Method::Head)
    ));
    for status in [405, 501] {
        assert!(matches!(
            check_link(&r, LinkEvent::Replied(Method::Head, Ok(status))),
            LinkAction::Request(Method::Get)
        ));
    }
    assert_eq!(
        report(check_link(&r, LinkEvent::Replied(Method::Get, Ok(405)))),
        Some((Severity::Error, "broken link (405): https://h/x".to_string()))
    );
    assert_eq!(
        report(check_link(&r, LinkEvent::Replied(Method::Get, Ok(501)))),
        Some((Severity::Warning, "remote server error (501): https://h/x".to_string()))
    );
    assert_eq!(report(check_link(&r, LinkEvent::Replied(Method::Head, Ok(200)))), None);
    assert_eq!(report(check_link(&r, LinkEvent::Replied(Method::Get, Ok(302)))), None);
    for method in [Method::Head, Method::Get] {
        assert_eq!(
            report(check_link(
                &r,
                LinkEvent::Replied(method, Err((LinkError::Timeout, "slow".to_string())))
            )),
            Some((
                Severity::Warning,
                "link check timed out: https://h/x (slow)".to_string()
            ))
        );
    }
    assert_eq!(Method::Head.as_str(), "HEAD");
    assert_eq!(Method::Get.as_str(), "GET");
}

#[test]
fn findings_are_sorted_in_any_order() {
    let findings = vec![
        Some((Severity::Error, "b".to_string())),
        None,
        Some((Severity::Warning, "z".to_string())),
        Some((Severity::Error, "a".to_string())),
        Some((Severity::Error, "b".to_string())),
        Some((Severity::Warning, "c".to_string())),
    ];
    let mut reversed = findings.clone();
    reversed.reverse();
    let expected = (
        vec!["a".to_string(), "b".to_string(), "b".to_string()],
        vec!["c".to_string(), "z".to_string()],
    );
    assert_eq!(check_links(findings), expected);
    assert_eq!(check_links(reversed), expected);
    assert_eq!(check_links(vec![]), (vec![], vec![]));
}

fn address(url: &str) -> Result<String, (LinkError, String)> {
    match http_status(url, Method::Head, HttpEvent::Start) {
        HttpAction::Connect(address) => Ok(address),
        HttpAction::Finish(Err(failure)) => Err(failure),
        other => panic!("{other:?}"),
    }
}

#[test]
fn addresses() {
    assert_eq!(address("https://Host/x"), Ok("host:443".to_string()));
    assert_eq!(address("HTTP://Host"), Ok("host:80".to_string()));
    assert_eq!(address("http://\u{c9}T\u{c9}/x"), Ok("\u{e9}t\u{e9}:80".to_string()));
    assert_eq!(address("http://u@h:8080/x"), Ok("h:8080".to_string()));
    assert_eq!(address("http://h:65616/x"), Ok("h:80".to_string()));
    assert_eq!(
        address("ftp://h"),
        Err((LinkError::Other, "unsupported scheme: ftp://h".to_string()))
    );
    assert_eq!(
        address("h/x"),
        Err((LinkError::Other, "unsupported scheme: h/x".to_string()))
    );
    assert_eq!(
        address("http:///x"),
        Err((LinkError::Dns, "invalid host: http:///x".to_string()))
    );
    assert_eq!(
        address("http://h:x/"),
        Err((
            LinkError::Other,
            "Port could not be cast to integer value as 'x'".to_string()
        ))
    );
}

fn finish(url: &str, event: HttpEvent) -> Result<u16, (LinkError, String)> {
    match http_status(url, Method::Get, event) {
        HttpAction::Finish(reply) => reply,
        other => panic!("{other:?}"),
    }
}

#[test]
fn requests() {
    let HttpAction::Write(text) =
        http_status("http://Host:81/a/b?q#f", Method::Get, HttpEvent::Connected)
    else {
        panic!("nothing to write")
    };
    assert_eq!(
        text,
        format!("GET /a/b HTTP/1.1\r\nHost: host\r\nUser-Agent: {USER_AGENT}\r\nConnection: close\r\n\r\n")
    );
    assert_eq!(USER_AGENT, "awesome-ai-resource-validator/1.0");
    let HttpAction::Write(text) = http_status("http://h", Method::Head, HttpEvent::Connected)
    else {
        panic!("nothing to write")
    };
    assert!(text.starts_with("HEAD / HTTP/1.1\r\nHost: h\r\n"));
    assert!(matches!(
        http_status("http://h", Method::Head, HttpEvent::Written),
        HttpAction::Read
    ));
    assert_eq!(
        finish("https://h", HttpEvent::Connected),
        Err((LinkError::Tls, "TLS not supported by builtin client".to_string()))
    );
}

#[test]
fn broken_exchanges() {
    let why = || "why".to_string();
    assert_eq!(
        finish("http://h", HttpEvent::ConnectFailed(why())),
        Err((LinkError::Dns, why()))
    );
    assert_eq!(
        finish("http://h", HttpEvent::WriteFailed(why())),
        Err((LinkError::Http, why()))
    );
    assert_eq!(
        finish("http://h", HttpEvent::ReadFailed(why())),
        Err((LinkError::Http, why()))
    );
}

#[test]
fn slow_exchanges() {
    let why = || "timed out".to_string();
    for url in ["http://h", "https://h", "ftp://h"] {
        assert_eq!(
            finish(url, HttpEvent::TimedOut(why())),
            Err((LinkError::Timeout, why()))
        );
    }
    let r = resource("http://h/x");
    let reply = finish(&r.url, HttpEvent::TimedOut(why()));
    assert_eq!(
        report(check_link(&r, LinkEvent::Replied(Method::Get, reply))),
        Some((
            Severity::Warning,
            "link check timed out: http://h/x (timed out)".to_string()
        ))
    );
}

#[test]
fn responses() {
    let malformed = Err((LinkError::Http, "malformed response".to_string()));
    for (text, expected) in [
        ("HTTP/1.1 200 OK\r\nX: 1\r\n\r\n", Ok(200)),
        ("HTTP/1.1 404\r\n", Ok(404)),
        ("HTTP/1.1 +503 x", Ok(503)),
        ("HTTP/1.1\n200", malformed.clone()),
        ("HTTP/1.1 2x0", malformed.clone()),
        ("HTTP/1.1 65536", malformed.clone()),
        ("HTTP/1.1", malformed.clone()),
        ("", malformed.clone()),
    ] {
        assert_eq!(read_response(text), expected, "{text:?}");
        assert_eq!(
            finish("http://h", HttpEvent::Received(text.as_bytes().to_vec())),
            expected
        );
    }
    // bytes that are no text do not hide the status
    let mut bytes = b"HTTP/1.1 301 \xff\xfe\r\n\xc3".to_vec();
    assert_eq!(finish("http://h", HttpEvent::Received(bytes.clone())), Ok(301));
    bytes[9] = 0xff;
    assert_eq!(finish("http://h", HttpEvent::Received(bytes)), malformed);
    assert_eq!(
        finish("http://h", HttpEvent::Received("\u{e9} 204 \u{e9}".as_bytes().to_vec())),
        Ok(204)
    );
}
