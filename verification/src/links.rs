//! Judging the links of a README by what came back when they were followed.
use crate::order;
use crate::order::sort;
use crate::readme;
use crate::readme::Resource;
use crate::text;
use crate::text::to_decimal;
use vstd::prelude::*;

verus! {

/// How serious a finding is.
#[derive(Debug, Clone, Copy, PartialEq, Eq, Structural)]
pub enum Severity {
    Error,
    Warning,
}

impl Severity {
    /// The label of a severity.
    pub open spec fn label(self) -> Seq<char> {
        match self {
            Severity::Error => "error"@,
            Severity::Warning => "warning"@,
        }
    }

    /// The label of a severity.
    pub fn as_str(self) -> (s: &'static str)
        ensures
            s@ == self.label(),
    {
        match self {
            Severity::Error => "error",
            Severity::Warning => "warning",
        }
    }
}

/// How following a link failed before there was any status.
#[derive(Debug, Clone, Copy, PartialEq, Eq, Structural)]
pub enum LinkError {
    /// No answer in time.
    Timeout,
    /// The host was not found.
    Dns,
    /// The connection could not be secured.
    Tls,
    /// The exchange broke off or made no sense.
    Http,
    /// Anything else.
    Other,
}

/// The model of a finding.
pub type FindingView = (Severity, Seq<char>);

/// The model of what a check may find.
pub open spec fn finding_view(finding: Option<(Severity, String)>) -> Option<FindingView> {
    match finding {
        Some((severity, message)) => Some((severity, message@)),
        None => None,
    }
}

/// `what (status): url`
pub open spec fn status_message(what: Seq<char>, status: nat, url: Seq<char>) -> Seq<char> {
    what + " ("@ + text::decimal(status) + "): "@ + url
}

/// What a status says of a link; below 400 there is nothing to report.
pub open spec fn status_finding(status: nat, url: Seq<char>) -> Option<FindingView> {
    if status < 400 {
        None
    } else if status == 401 || status == 403 || status == 429 {
        Some((Severity::Warning, status_message("link check blocked"@, status, url)))
    } else if status == 408 {
        Some((Severity::Warning, status_message("link check timed out"@, status, url)))
    } else if status >= 500 {
        Some((Severity::Warning, status_message("remote server error"@, status, url)))
    } else {
        Some((Severity::Error, status_message("broken link"@, status, url)))
    }
}

/// `what: url (reason)`
pub open spec fn failure_message(what: Seq<char>, url: Seq<char>, reason: Seq<char>) -> Seq<char> {
    what + ": "@ + url + " ("@ + reason + ")"@
}

/// What a failure says of a link.
pub open spec fn failure_finding(
    kind: LinkError,
    url: Seq<char>,
    reason: Seq<char>,
) -> FindingView {
    match kind {
        LinkError::Timeout => (
            Severity::Warning,
            failure_message("link check timed out"@, url, reason),
        ),
        LinkError::Http => (
            Severity::Warning,
            failure_message("link check interrupted"@, url, reason),
        ),
        LinkError::Dns | LinkError::Tls | LinkError::Other => (
            Severity::Error,
            failure_message("unreachable link"@, url, reason),
        ),
    }
}

/// `what (status): url`
fn about_status(what: &str, status: u16, url: &str) -> (m: String)
    ensures
        m@ == status_message(what@, status as nat, url@),
{
    let mut m = String::from_str(what);
    m.append(" (");
    m.append(to_decimal(status as usize).as_str());
    m.append("): ");
    m.append(url);
    m
}

/// `what: url (reason)`
fn about_failure(what: &str, url: &str, reason: &str) -> (m: String)
    ensures
        m@ == failure_message(what@, url@, reason@),
{
    let mut m = String::from_str(what);
    m.append(": ");
    m.append(url);
    m.append(" (");
    m.append(reason);
    m.append(")");
    m
}

/// Judges a link by the status that came back.
pub fn classify_status(status: u16, url: &str) -> (finding: Option<(Severity, String)>)
    ensures
        finding_view(finding) == status_finding(status as nat, url@),
{
    if status == 404 || status == 410 {
        Some((Severity::Error, about_status("broken link", status, url)))
    } else if status == 401 || status == 403 || status == 429 {
        Some((Severity::Warning, about_status("link check blocked", status, url)))
    } else if status == 408 {
        Some((Severity::Warning, about_status("link check timed out", status, url)))
    } else if status >= 500 {
        Some((Severity::Warning, about_status("remote server error", status, url)))
    } else if status >= 400 {
        Some((Severity::Error, about_status("broken link", status, url)))
    } else {
        None
    }
}

/// Judges a link that could not be followed.
pub fn classify_exception(kind: LinkError, url: &str, reason: &str) -> (finding: (Severity, String))
    ensures
        (finding.0, finding.1@) == failure_finding(kind, url@, reason@),
{
    match kind {
        LinkError::Timeout => (
            Severity::Warning,
            about_failure("link check timed out", url, reason),
        ),
        LinkError::Dns | LinkError::Tls => (
            Severity::Error,
            about_failure("unreachable link", url, reason),
        ),
        LinkError::Http => (
            Severity::Warning,
            about_failure("link check interrupted", url, reason),
        ),
        LinkError::Other => (Severity::Error, about_failure("unreachable link", url, reason)),
    }
}

/// The ways to ask for a link.
#[derive(Debug, Clone, Copy, PartialEq, Eq, Structural)]
pub enum Method {
    Head,
    Get,
}

impl Method {
    /// The name of a method in a request.
    pub open spec fn name(self) -> Seq<char> {
        match self {
            Method::Head => "HEAD"@,
            Method::Get => "GET"@,
        }
    }

    /// The name of a method in a request.
    pub fn as_str(self) -> (s: &'static str)
        ensures
            s@ == self.name(),
    {
        match self {
            Method::Head => "HEAD",
            Method::Get => "GET",
        }
    }
}

/// What came back for a request: a status, or how it failed and why.
pub type Reply = Result<u16, (LinkError, String)>;

/// The model of a `Reply`.
pub enum ReplyView {
    Status(nat),
    Failed(LinkError, Seq<char>),
}

/// The model of a `Reply`.
pub open spec fn reply_view(reply: Reply) -> ReplyView {
    match reply {
        Ok(status) => ReplyView::Status(status as nat),
        Err((kind, reason)) => ReplyView::Failed(kind, reason@),
    }
}

/// What a link check has to react to.
#[derive(Debug)]
pub enum LinkEvent {
    /// Nothing was sent yet.
    Start,
    /// This came back for a request with that method.
    Replied(Method, Reply),
}

/// The model of a `LinkEvent`.
pub enum LinkEventView {
    Start,
    Replied(Method, ReplyView),
}

impl View for LinkEvent {
    type V = LinkEventView;

    open spec fn view(&self) -> LinkEventView {
        match self {
            LinkEvent::Start => LinkEventView::Start,
            LinkEvent::Replied(method, reply) => LinkEventView::Replied(
                *method,
                reply_view(*reply),
            ),
        }
    }
}

/// What a link check does next.
#[derive(Debug)]
pub enum LinkAction {
    /// Ask for the link with this method.
    Request(Method),
    /// The check is over and found this, or nothing.
    Report(Option<(Severity, String)>),
}

/// The model of a `LinkAction`.
pub enum LinkActionView {
    Request(Method),
    Report(Option<FindingView>),
}

impl View for LinkAction {
    type V = LinkActionView;

    open spec fn view(&self) -> LinkActionView {
        match self {
            LinkAction::Request(method) => LinkActionView::Request(*method),
            LinkAction::Report(finding) => LinkActionView::Report(finding_view(*finding)),
        }
    }
}

/// What a reply says of a link.
pub open spec fn reply_finding(reply: ReplyView, url: Seq<char>) -> Option<FindingView> {
    match reply {
        ReplyView::Status(status) => status_finding(status, url),
        ReplyView::Failed(kind, reason) => Some(failure_finding(kind, url, reason)),
    }
}

/// Whether a server refused `HEAD` itself, so that the link is asked for again.
pub open spec fn refuses_head(reply: ReplyView) -> bool {
    reply == ReplyView::Status(405) || reply == ReplyView::Status(501)
}

/// What a link check does next: it asks with `HEAD`, asks once more with `GET`
/// where that is refused, and judges what came back.
pub open spec fn link_step(url: Seq<char>, event: LinkEventView) -> LinkActionView {
    match event {
        LinkEventView::Start => LinkActionView::Request(Method::Head),
        LinkEventView::Replied(method, reply) => if method == Method::Head && refuses_head(reply) {
            LinkActionView::Request(Method::Get)
        } else {
            LinkActionView::Report(reply_finding(reply, url))
        },
    }
}

/// Decides what the check of a resource's link does next.
pub fn check_link(resource: &Resource, event: LinkEvent) -> (action: LinkAction)
    ensures
        action@ == link_step(resource@.url, event@),
{
    let url = resource.url.as_str();
    match event {
        LinkEvent::Start => LinkAction::Request(Method::Head),
        LinkEvent::Replied(method, Ok(status)) => {
            if method == Method::Head && (status == 405 || status == 501) {
                LinkAction::Request(Method::Get)
            } else {
                LinkAction::Report(classify_status(status, url))
            }
        },
        LinkEvent::Replied(_, Err((kind, reason))) => LinkAction::Report(
            Some(classify_exception(kind, url, reason.as_str())),
        ),
    }
}

/// What was found, as models.
pub open spec fn finding_views(v: Seq<Option<(Severity, String)>>) -> Seq<Option<FindingView>> {
    v.map_values(|f: Option<(Severity, String)>| finding_view(f))
}

/// The message of a finding of this severity.
pub open spec fn message_of(finding: Option<FindingView>, severity: Severity) -> Option<Seq<char>> {
    match finding {
        Some((s, message)) => if s == severity {
            Some(message)
        } else {
            None
        },
        None => None,
    }
}

/// The messages of this severity among the first `n` findings.
pub open spec fn messages_upto(
    findings: Seq<Option<FindingView>>,
    severity: Severity,
    n: int,
) -> Seq<Seq<char>>
    decreases n,
{
    if n <= 0 {
        Seq::empty()
    } else {
        readme::push_some(
            messages_upto(findings, severity, n - 1),
            message_of(findings[n - 1], severity),
        )
    }
}

/// All messages of this severity.
pub open spec fn messages(findings: Seq<Option<FindingView>>, severity: Severity) -> Seq<Seq<char>> {
    messages_upto(findings, severity, findings.len() as int)
}

/// Collects what the checks of all links found, errors and warnings apart, each
/// sorted.
pub fn check_links(findings: Vec<Option<(Severity, String)>>) -> (reports: (Vec<String>, Vec<String>))
    ensures
        order::is_sorted_form(
            text::views(reports.0@),
            messages(finding_views(findings@), Severity::Error),
        ),
        order::is_sorted_form(
            text::views(reports.1@),
            messages(finding_views(findings@), Severity::Warning),
        ),
{
    let mut errors: Vec<String> = Vec::new();
    let mut warnings: Vec<String> = Vec::new();
    let ghost all = finding_views(findings@);
    let mut i: usize = 0;
    assert(text::views(errors@) =~= Seq::<Seq<char>>::empty());
    assert(text::views(warnings@) =~= Seq::<Seq<char>>::empty());
    while i < findings.len()
        invariant
            i <= findings.len(),
            all == finding_views(findings@),
            text::views(errors@) == messages_upto(all, Severity::Error, i as int),
            text::views(warnings@) == messages_upto(all, Severity::Warning, i as int),
        decreases findings.len() - i,
    {
        let ghost errors_before = text::views(errors@);
        let ghost warnings_before = text::views(warnings@);
        assert(all[i as int] == finding_view(findings@[i as int]));
        if let Some((severity, message)) = &findings[i] {
            match severity {
                Severity::Error => {
                    errors.push(message.clone());
                    assert(text::views(errors@) =~= errors_before.push(message@));
                },
                Severity::Warning => {
                    warnings.push(message.clone());
                    assert(text::views(warnings@) =~= warnings_before.push(message@));
                },
            }
        }
        i += 1;
    }
    (sort(errors), sort(warnings))
}

}
