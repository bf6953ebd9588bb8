//! What is found of a link and how a server is asked, told by the answers.
use crate::http;
use crate::http::{HttpAction, HttpActionView, HttpEvent, HttpEventView};
use crate::links;
use crate::links::{
    FindingView, LinkAction, LinkActionView, LinkError, LinkEvent, LinkEventView, Method, Reply,
    ReplyView, Severity,
};
use crate::text;
use crate::url;
use vstd::multiset::*;
use vstd::prelude::*;
use vstd::seq_lib::*;

verus! {

/// A status from 400 on is a broken link, unless it says that the check was
/// blocked or came too late or that the server is at fault; below 400 there is
/// nothing to report. The message tells the status and the URL.
pub proof fn statuses_are_judged(status: nat, url: Seq<char>)
    ensures
        ({
            let finding = links::status_finding(status, url);
            let told = text::decimal(status) + "): "@ + url;
            &&& status < 400 ==> finding is None
            &&& 400 <= status < 500 && status != 401 && status != 403 && status != 408 && status
                != 429 ==> finding == Some((Severity::Error, "broken link ("@ + told))
            &&& status == 401 || status == 403 || status == 429 ==> finding == Some(
                (Severity::Warning, "link check blocked ("@ + told),
            )
            &&& status == 408 ==> finding == Some(
                (Severity::Warning, "link check timed out ("@ + told),
            )
            &&& status >= 500 ==> finding == Some(
                (Severity::Warning, "remote server error ("@ + told),
            )
        }),
{
    reveal_strlit(" (");
    reveal_strlit("broken link");
    reveal_strlit("broken link (");
    reveal_strlit("link check blocked");
    reveal_strlit("link check blocked (");
    reveal_strlit("link check timed out");
    reveal_strlit("link check timed out (");
    reveal_strlit("remote server error");
    reveal_strlit("remote server error (");
    let told = text::decimal(status) + "): "@ + url;
    assert(links::status_message("broken link"@, status, url) =~= "broken link ("@ + told);
    assert(links::status_message("link check blocked"@, status, url) =~= "link check blocked ("@
        + told);
    assert(links::status_message("link check timed out"@, status, url) =~= "link check timed out ("@
        + told);
    assert(links::status_message("remote server error"@, status, url) =~= "remote server error ("@
        + told);
}

/// A link that could not be followed is unreachable, unless the check came too
/// late or was broken off. The message tells the URL and the reason.
pub proof fn failures_are_judged(kind: LinkError, url: Seq<char>, reason: Seq<char>)
    ensures
        ({
            let finding = links::failure_finding(kind, url, reason);
            let told = url + " ("@ + reason + ")"@;
            &&& kind == LinkError::Timeout ==> finding == (
                Severity::Warning,
                "link check timed out: "@ + told,
            )
            &&& kind == LinkError::Http ==> finding == (
                Severity::Warning,
                "link check interrupted: "@ + told,
            )
            &&& kind == LinkError::Dns || kind == LinkError::Tls || kind == LinkError::Other
                ==> finding == (Severity::Error, "unreachable link: "@ + told)
        }),
{
    reveal_strlit(": ");
    reveal_strlit("link check timed out");
    reveal_strlit("link check timed out: ");
    reveal_strlit("link check interrupted");
    reveal_strlit("link check interrupted: ");
    reveal_strlit("unreachable link");
    reveal_strlit("unreachable link: ");
    let told = url + " ("@ + reason + ")"@;
    assert(links::failure_message("link check timed out"@, url, reason)
        =~= "link check timed out: "@ + told);
    assert(links::failure_message("link check interrupted"@, url, reason)
        =~= "link check interrupted: "@ + told);
    assert(links::failure_message("unreachable link"@, url, reason) =~= "unreachable link: "@ + told);
}

/// A check reports what the answer to its last request says, by whichever method
/// it asked: every status is judged as it is, and every failure too. Only 405 and
/// 501 for `HEAD` are not judged; there it asks again.
pub proof fn last_answer_is_judged(url: Seq<char>, method: Method, status: nat, kind: LinkError, reason: Seq<char>)
    ensures
        ({
            let step = links::link_step(
                url,
                LinkEventView::Replied(method, ReplyView::Status(status)),
            );
            let told = text::decimal(status) + "): "@ + url;
            let asks_again = method == Method::Head && (status == 405 || status == 501);
            &&& asks_again ==> step == LinkActionView::Request(Method::Get)
            &&& !asks_again ==> step == LinkActionView::Report(links::status_finding(status, url))
            &&& !asks_again && status < 400 ==> step == LinkActionView::Report(None)
            &&& !asks_again && 400 <= status < 500 && status != 401 && status != 403 && status
                != 408 && status != 429 ==> step == LinkActionView::Report(
                Some((Severity::Error, "broken link ("@ + told)),
            )
            &&& status == 401 || status == 403 || status == 429 ==> step == LinkActionView::Report(
                Some((Severity::Warning, "link check blocked ("@ + told)),
            )
            &&& status == 408 ==> step == LinkActionView::Report(
                Some((Severity::Warning, "link check timed out ("@ + told)),
            )
            &&& !asks_again && status >= 500 ==> step == LinkActionView::Report(
                Some((Severity::Warning, "remote server error ("@ + told)),
            )
        }),
        links::link_step(url, LinkEventView::Replied(method, ReplyView::Failed(kind, reason)))
            == LinkActionView::Report(Some(links::failure_finding(kind, url, reason))),
        links::link_step(url, LinkEventView::Start) == LinkActionView::Request(Method::Head),
{
    statuses_are_judged(status, url);
}

/// A message is collected as often as the checks found it, with its severity.
pub proof fn messages_are_collected(
    findings: Seq<Option<FindingView>>,
    severity: Severity,
    message: Seq<char>,
)
    ensures
        links::messages(findings, severity).to_multiset().count(message)
            == findings.to_multiset().count(Some((severity, message))),
{
    lemma_collected(findings, severity, message, findings.len() as int);
    assert(findings.take(findings.len() as int) =~= findings);
}

proof fn lemma_collected(
    findings: Seq<Option<FindingView>>,
    severity: Severity,
    message: Seq<char>,
    n: int,
)
    requires
        0 <= n <= findings.len(),
    ensures
        links::messages_upto(findings, severity, n).to_multiset().count(message) == findings.take(
            n,
        ).to_multiset().count(Some((severity, message))),
    decreases n,
{
    broadcast use group_multiset_axioms;

    if n > 0 {
        lemma_collected(findings, severity, message, n - 1);
        let before = links::messages_upto(findings, severity, n - 1);
        let last = findings[n - 1];
        assert(findings.take(n) =~= findings.take(n - 1).push(last));
        to_multiset_build(findings.take(n - 1), last);
        match links::message_of(last, severity) {
            Some(m) => {
                to_multiset_build(before, m);
                assert(last == Some((severity, m)));
            },
            None => {},
        }
    } else {
        assert(findings.take(0) =~= Seq::<Option<FindingView>>::empty());
        to_multiset_contains(Seq::<Seq<char>>::empty(), message);
        to_multiset_contains(Seq::<Option<FindingView>>::empty(), Some((severity, message)));
    }
}

/// A server is looked for only where the scheme is `http` or `https`, there is a
/// host, and the port is a number; otherwise the first of these that fails is
/// told. The address is the host in lower case and the port, of which the lower
/// 16 bits count, or the usual port of the scheme.
pub proof fn servers_are_addressed(u: Seq<char>)
    ensures
        ({
            let p = url::url_parts(u);
            let scheme = text::lowercase(p.scheme);
            let host = text::lowercase(p.host);
            let step = http::http_step(u, Method::Head, HttpEventView::Start);
            &&& step == http::http_step(u, Method::Get, HttpEventView::Start)
            &&& scheme != "http"@ && scheme != "https"@ ==> step == HttpActionView::Finish(
                ReplyView::Failed(LinkError::Other, "unsupported scheme: "@ + u),
            )
            &&& scheme == "http"@ || scheme == "https"@ ==> {
                &&& p.host.len() == 0 ==> step == HttpActionView::Finish(
                    ReplyView::Failed(LinkError::Dns, "invalid host: "@ + u),
                )
                &&& p.host.len() > 0 ==> match p.port_raw {
                    None => step == HttpActionView::Connect(
                        host + if scheme == "https"@ {
                            ":443"@
                        } else {
                            ":80"@
                        },
                    ),
                    Some(raw) => match text::parsed_number(raw, 0xffff_ffff) {
                        Some(n) => step == HttpActionView::Connect(
                            host + ":"@ + text::decimal(n % 65536),
                        ),
                        None => step == HttpActionView::Finish(
                            ReplyView::Failed(
                                LinkError::Other,
                                "Port could not be cast to integer value as '"@ + raw + "'"@,
                            ),
                        ),
                    },
                }
            }
        }),
{
    reveal_strlit(":");
    reveal_strlit(":443");
    reveal_strlit(":80");
    let host = text::lowercase(url::url_parts(u).host);
    assert(text::decimal(4) =~= seq!['4']);
    assert(text::decimal(44) =~= seq!['4', '4']);
    assert(text::decimal(443) =~= seq!['4', '4', '3']);
    assert(text::decimal(8) =~= seq!['8']);
    assert(text::decimal(80) =~= seq!['8', '0']);
    assert(host + ":"@ + text::decimal(443) =~= host + ":443"@);
    assert(host + ":"@ + text::decimal(80) =~= host + ":80"@);
}

/// A request asks for the path of the URL, or for `/` where there is none, and
/// names the host and who asks.
pub proof fn requests_are_written(u: Seq<char>, method: Method)
    ensures
        ({
            let p = url::url_parts(u);
            let path = if p.path.len() == 0 {
                "/"@
            } else {
                p.path
            };
            let name = if method == Method::Head {
                "HEAD "@
            } else {
                "GET "@
            };
            text::lowercase(p.scheme) != "https"@ ==> http::http_step(
                u,
                method,
                HttpEventView::Connected,
            ) == HttpActionView::Write(
                name + path + " HTTP/1.1\r\nHost: "@ + text::lowercase(p.host)
                    + "\r\nUser-Agent: awesome-ai-resource-validator/1.0\r\nConnection: close\r\n\r\n"@,
            )
        }),
{
    reveal_strlit("HEAD");
    reveal_strlit("GET");
    reveal_strlit(" ");
    reveal_strlit("HEAD ");
    reveal_strlit("GET ");
    reveal_strlit("\r\nUser-Agent: ");
    reveal_strlit("awesome-ai-resource-validator/1.0");
    reveal_strlit("\r\nConnection: close\r\n\r\n");
    reveal_strlit(
        "\r\nUser-Agent: awesome-ai-resource-validator/1.0\r\nConnection: close\r\n\r\n",
    );
    let p = url::url_parts(u);
    let path = if p.path.len() == 0 {
        "/"@
    } else {
        p.path
    };
    let name = if method == Method::Head {
        "HEAD "@
    } else {
        "GET "@
    };
    assert("HEAD"@ + " "@ =~= "HEAD "@);
    assert("GET"@ + " "@ =~= "GET "@);
    assert(http::request_text(u, method) =~= name + path + " HTTP/1.1\r\nHost: "@ + text::lowercase(
        p.host,
    ) + "\r\nUser-Agent: awesome-ai-resource-validator/1.0\r\nConnection: close\r\n\r\n"@);
}

/// What fails ends an exchange with the reason that is given: no connection, a
/// request that cannot be sent, a response that cannot be read, a step that takes
/// too long, and a connection that would have to be secured.
pub proof fn exchanges_end_with_their_reason(u: Seq<char>, method: Method, reason: Seq<char>)
    ensures
        http::http_step(u, method, HttpEventView::ConnectFailed(reason)) == HttpActionView::Finish(
            ReplyView::Failed(LinkError::Dns, reason),
        ),
        http::http_step(u, method, HttpEventView::WriteFailed(reason)) == HttpActionView::Finish(
            ReplyView::Failed(LinkError::Http, reason),
        ),
        http::http_step(u, method, HttpEventView::ReadFailed(reason)) == HttpActionView::Finish(
            ReplyView::Failed(LinkError::Http, reason),
        ),
        http::http_step(u, method, HttpEventView::TimedOut(reason)) == HttpActionView::Finish(
            ReplyView::Failed(LinkError::Timeout, reason),
        ),
        text::lowercase(url::url_parts(u).scheme) == "https"@ ==> http::http_step(
            u,
            method,
            HttpEventView::Connected,
        ) == HttpActionView::Finish(
            ReplyView::Failed(LinkError::Tls, "TLS not supported by builtin client"@),
        ),
        http::http_step(u, method, HttpEventView::Written) == HttpActionView::Read,
{
}

/// A response is read by its first line alone: the second word of it is the
/// status, and a response without such a word, or with one that is no number up to
/// 65535, makes no sense.
pub proof fn first_line_gives_the_status(line: Seq<char>, below: Seq<char>)
    requires
        !line.contains('\n'),
        below.len() > 0 ==> below[0] == '\n',
    ensures
        ({
            let reply = http::response_reply(line + below);
            let malformed = ReplyView::Failed(LinkError::Http, "malformed response"@);
            match text::second_word(line) {
                Some(word) => match text::parsed_number(word, 65535) {
                    Some(status) => reply == ReplyView::Status(status),
                    None => reply == malformed,
                },
                None => reply == malformed,
            }
        }),
{
    let all = line + below;
    text::find_char_is_first(all, '\n', 0);
    assert forall|j: int| 0 <= j < line.len() implies all[j] != '\n' by {
        assert(line.contains(line[j]));
    }
    if below.len() > 0 {
        assert(all[line.len() as int] == '\n');
        text::first_place_is_found(all, '\n', line.len() as int);
        assert(all.take(line.len() as int) =~= line);
    } else {
        assert(all =~= line);
        assert(text::find_char(all, '\n', 0) is None);
    }
}

/// The whole response is read as text.
pub proof fn responses_are_text(u: Seq<char>, method: Method, bytes: Seq<u8>)
    ensures
        http::http_step(u, method, HttpEventView::Received(bytes)) == HttpActionView::Finish(
            http::response_reply(text::text_of_bytes(bytes)),
        ),
{
}

/// The names that stand for severities and methods.
pub proof fn names_are_told()
    ensures
        Severity::Error.label() == "error"@,
        Severity::Warning.label() == "warning"@,
        Method::Head.name() == "HEAD"@,
        Method::Get.name() == "GET"@,
{
}

/// The models of findings and replies keep all that is in them.
pub proof fn finding_models_keep_everything(
    severity: Severity,
    message: String,
    status: u16,
    kind: LinkError,
    v: Seq<Option<(Severity, String)>>,
    i: int,
)
    ensures
        links::finding_view(None) is None,
        links::finding_view(Some((severity, message))) == Some((severity, message@)),
        links::reply_view(Ok(status)) == ReplyView::Status(status as nat),
        links::reply_view(Err((kind, message))) == ReplyView::Failed(kind, message@),
        links::finding_views(v).len() == v.len(),
        0 <= i < v.len() ==> links::finding_views(v)[i] == links::finding_view(v[i]),
{
}

/// The models of events and actions of a link check keep all that is in them.
pub proof fn link_models_keep_everything(
    method: Method,
    reply: Reply,
    finding: Option<(Severity, String)>,
)
    ensures
        LinkEvent::Start@ == LinkEventView::Start,
        LinkEvent::Replied(method, reply)@ == LinkEventView::Replied(
            method,
            links::reply_view(reply),
        ),
        LinkAction::Request(method)@ == LinkActionView::Request(method),
        LinkAction::Report(finding)@ == LinkActionView::Report(links::finding_view(finding)),
{
}

/// The models of events and actions of an exchange keep all that is in them.
pub proof fn exchange_models_keep_everything(s: String, bytes: Vec<u8>, reply: Reply)
    ensures
        HttpEvent::Start@ == HttpEventView::Start,
        HttpEvent::ConnectFailed(s)@ == HttpEventView::ConnectFailed(s@),
        HttpEvent::Connected@ == HttpEventView::Connected,
        HttpEvent::WriteFailed(s)@ == HttpEventView::WriteFailed(s@),
        HttpEvent::Written@ == HttpEventView::Written,
        HttpEvent::ReadFailed(s)@ == HttpEventView::ReadFailed(s@),
        HttpEvent::Received(bytes)@ == HttpEventView::Received(bytes@),
        HttpEvent::TimedOut(s)@ == HttpEventView::TimedOut(s@),
        HttpAction::Connect(s)@ == HttpActionView::Connect(s@),
        HttpAction::Write(s)@ == HttpActionView::Write(s@),
        HttpAction::Read@ == HttpActionView::Read,
        HttpAction::Finish(reply)@ == HttpActionView::Finish(links::reply_view(reply)),
{
}

}
