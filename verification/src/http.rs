//! Asking a server for the status of a link, step by step: which address to
//! connect to, what to send, and how to read what comes back.
use crate::links;
use crate::links::{LinkError, Method, Reply, ReplyView};
use crate::text;
use crate::text::{
    chars_of, find, find_second_word, parse_number, same_text, text_from_bytes, to_decimal, to_lower,
};
use crate::url;
use crate::url::urlsplit;
use vstd::prelude::*;
use vstd::slice::slice_subrange;

verus! {

/// How link checks name themselves to servers.
pub const USER_AGENT: &'static str = "awesome-ai-resource-validator/1.0";

/// What happened in an exchange with a server.
#[derive(Debug)]
pub enum HttpEvent {
    /// Nothing was done yet.
    Start,
    /// There is no connection, for this reason.
    ConnectFailed(String),
    /// There is a connection.
    Connected,
    /// The request could not be sent, for this reason.
    WriteFailed(String),
    /// The request was sent.
    Written,
    /// The response could not be read, for this reason.
    ReadFailed(String),
    /// The whole response.
    Received(Vec<u8>),
    /// Connecting, sending or reading took too long, for this reason.
    TimedOut(String),
}

/// The model of an `HttpEvent`.
pub enum HttpEventView {
    Start,
    ConnectFailed(Seq<char>),
    Connected,
    WriteFailed(Seq<char>),
    Written,
    ReadFailed(Seq<char>),
    Received(Seq<u8>),
    TimedOut(Seq<char>),
}

impl View for HttpEvent {
    type V = HttpEventView;

    open spec fn view(&self) -> HttpEventView {
        match self {
            HttpEvent::Start => HttpEventView::Start,
            HttpEvent::ConnectFailed(reason) => HttpEventView::ConnectFailed(reason@),
            HttpEvent::Connected => HttpEventView::Connected,
            HttpEvent::WriteFailed(reason) => HttpEventView::WriteFailed(reason@),
            HttpEvent::Written => HttpEventView::Written,
            HttpEvent::ReadFailed(reason) => HttpEventView::ReadFailed(reason@),
            HttpEvent::Received(bytes) => HttpEventView::Received(bytes@),
            HttpEvent::TimedOut(reason) => HttpEventView::TimedOut(reason@),
        }
    }
}

/// What to do next in an exchange with a server.
#[derive(Debug)]
pub enum HttpAction {
    /// Connect to this address.
    Connect(String),
    /// Send this text.
    Write(String),
    /// Read the whole response.
    Read,
    /// The exchange is over.
    Finish(Reply),
}

/// The model of an `HttpAction`.
pub enum HttpActionView {
    Connect(Seq<char>),
    Write(Seq<char>),
    Read,
    Finish(ReplyView),
}

impl View for HttpAction {
    type V = HttpActionView;

    open spec fn view(&self) -> HttpActionView {
        match self {
            HttpAction::Connect(address) => HttpActionView::Connect(address@),
            HttpAction::Write(request) => HttpActionView::Write(request@),
            HttpAction::Read => HttpActionView::Read,
            HttpAction::Finish(reply) => HttpActionView::Finish(links::reply_view(*reply)),
        }
    }
}

/// The scheme of a URL in lower case.
pub open spec fn lower_scheme(url: Seq<char>) -> Seq<char> {
    text::lowercase(url::url_parts(url).scheme)
}

/// The host of a URL in lower case.
pub open spec fn lower_host(url: Seq<char>) -> Seq<char> {
    text::lowercase(url::url_parts(url).host)
}

/// The port to connect to where the URL gives `port`; of a number that is too
/// large the lower 16 bits count.
pub open spec fn server_port(scheme: Seq<char>, port: Option<nat>) -> nat {
    match port {
        Some(n) => n % 65536,
        None => if scheme == "https"@ {
            443
        } else {
            80
        },
    }
}

/// The address of the server, or why there is none.
pub open spec fn server_address(url: Seq<char>) -> Result<Seq<char>, ReplyView> {
    let scheme = lower_scheme(url);
    if scheme != "https"@ && scheme != "http"@ {
        Err(ReplyView::Failed(LinkError::Other, "unsupported scheme: "@ + url))
    } else if url::url_parts(url).host.len() == 0 {
        Err(ReplyView::Failed(LinkError::Dns, "invalid host: "@ + url))
    } else {
        match url::port_number(url::url_parts(url)) {
            Ok(port) => Ok(lower_host(url) + ":"@ + text::decimal(server_port(scheme, port))),
            Err(message) => Err(ReplyView::Failed(LinkError::Other, message)),
        }
    }
}

/// The path to ask for.
pub open spec fn request_path(url: Seq<char>) -> Seq<char> {
    let path = url::url_parts(url).path;
    if path.len() == 0 {
        "/"@
    } else {
        path
    }
}

/// The text of a request.
pub open spec fn request_text(url: Seq<char>, method: Method) -> Seq<char> {
    method.name() + " "@ + request_path(url) + " HTTP/1.1\r\nHost: "@ + lower_host(url)
        + "\r\nUser-Agent: "@ + USER_AGENT@ + "\r\nConnection: close\r\n\r\n"@
}

/// What a response says: the number that is the second word of its first line.
pub open spec fn response_reply(response: Seq<char>) -> ReplyView {
    let malformed = ReplyView::Failed(LinkError::Http, "malformed response"@);
    match text::second_word(text::before(response, '\n')) {
        Some(word) => match text::parsed_number(word, u16::MAX as nat) {
            Some(status) => ReplyView::Status(status),
            None => malformed,
        },
        None => malformed,
    }
}

/// What to do after an event.
pub open spec fn http_step(url: Seq<char>, method: Method, event: HttpEventView) -> HttpActionView {
    match event {
        HttpEventView::Start => match server_address(url) {
            Ok(address) => HttpActionView::Connect(address),
            Err(reply) => HttpActionView::Finish(reply),
        },
        HttpEventView::ConnectFailed(reason) => HttpActionView::Finish(
            ReplyView::Failed(LinkError::Dns, reason),
        ),
        HttpEventView::Connected => if lower_scheme(url) == "https"@ {
            HttpActionView::Finish(
                ReplyView::Failed(LinkError::Tls, "TLS not supported by builtin client"@),
            )
        } else {
            HttpActionView::Write(request_text(url, method))
        },
        HttpEventView::WriteFailed(reason) => HttpActionView::Finish(
            ReplyView::Failed(LinkError::Http, reason),
        ),
        HttpEventView::Written => HttpActionView::Read,
        HttpEventView::ReadFailed(reason) => HttpActionView::Finish(
            ReplyView::Failed(LinkError::Http, reason),
        ),
        HttpEventView::Received(bytes) => HttpActionView::Finish(
            response_reply(text::text_of_bytes(bytes)),
        ),
        HttpEventView::TimedOut(reason) => HttpActionView::Finish(
            ReplyView::Failed(LinkError::Timeout, reason),
        ),
    }
}

/// Reads the status out of a response.
pub fn read_response(response: &str) -> (reply: Reply)
    ensures
        links::reply_view(reply) == response_reply(response@),
{
    let all = chars_of(response);
    let all = all.as_slice();
    let line = match find(all, '\n') {
        Some(i) => {
            assert(all@.subrange(0, i as int) =~= all@.take(i as int));
            slice_subrange(all, 0, i)
        },
        None => all,
    };
    if let Some(word) = find_second_word(line) {
        if let Some(status) = parse_number(word, u16::MAX as u32) {
            return Ok(status as u16);
        }
    }
    Err((LinkError::Http, String::from_str("malformed response")))
}

/// The address of the server.
fn find_server(url: &str) -> (r: Result<String, (LinkError, String)>)
    ensures
        match r {
            Ok(address) => server_address(url@) == Ok::<Seq<char>, ReplyView>(address@),
            Err((kind, reason)) => server_address(url@) == Err::<Seq<char>, ReplyView>(
                ReplyView::Failed(kind, reason@),
            ),
        },
{
    let parts = urlsplit(url);
    let scheme = to_lower(parts.scheme.as_str());
    let secure = same_text(scheme.as_str(), "https");
    if !secure && !same_text(scheme.as_str(), "http") {
        let mut reason = String::from_str("unsupported scheme: ");
        reason.append(url);
        return Err((LinkError::Other, reason));
    }
    let mut address = parts.hostname();
    if address.as_str().is_empty() {
        let mut reason = String::from_str("invalid host: ");
        reason.append(url);
        return Err((LinkError::Dns, reason));
    }
    let port: u32 = match parts.port() {
        Ok(Some(n)) => n % 65536,
        Ok(None) => if secure {
            443
        } else {
            80
        },
        Err(e) => return Err((LinkError::Other, e.0)),
    };
    address.append(":");
    address.append(to_decimal(port as usize).as_str());
    Ok(address)
}

/// The text of a request.
fn write_request(url: &str, method: Method) -> (s: String)
    ensures
        s@ == request_text(url@, method),
{
    let parts = urlsplit(url);
    let mut s = String::from_str(method.as_str());
    s.append(" ");
    if parts.path.as_str().is_empty() {
        s.append("/");
    } else {
        s.append(parts.path.as_str());
    }
    s.append(" HTTP/1.1\r\nHost: ");
    s.append(parts.hostname().as_str());
    s.append("\r\nUser-Agent: ");
    s.append(USER_AGENT);
    s.append("\r\nConnection: close\r\n\r\n");
    s
}

/// Decides what to do next to get the status of a link.
pub fn http_status(url: &str, method: Method, event: HttpEvent) -> (action: HttpAction)
    ensures
        action@ == http_step(url@, method, event@),
{
    match event {
        HttpEvent::Start => match find_server(url) {
            Ok(address) => HttpAction::Connect(address),
            Err(failure) => HttpAction::Finish(Err(failure)),
        },
        HttpEvent::ConnectFailed(reason) => HttpAction::Finish(Err((LinkError::Dns, reason))),
        HttpEvent::Connected => {
            let parts = urlsplit(url);
            let scheme = to_lower(parts.scheme.as_str());
            if same_text(scheme.as_str(), "https") {
                HttpAction::Finish(
                    Err((LinkError::Tls, String::from_str("TLS not supported by builtin client"))),
                )
            } else {
                HttpAction::Write(write_request(url, method))
            }
        },
        HttpEvent::WriteFailed(reason) => HttpAction::Finish(Err((LinkError::Http, reason))),
        HttpEvent::Written => HttpAction::Read,
        HttpEvent::ReadFailed(reason) => HttpAction::Finish(Err((LinkError::Http, reason))),
        HttpEvent::Received(bytes) => HttpAction::Finish(
            read_response(text_from_bytes(&bytes).as_str()),
        ),
        HttpEvent::TimedOut(reason) => HttpAction::Finish(Err((LinkError::Timeout, reason))),
    }
}

}
