//! What link checks promise.
use crate::http;
use crate::http::{HttpActionView, HttpEventView};
use crate::links;
use crate::links::{
    FindingView, LinkActionView, LinkError, LinkEventView, Method, ReplyView, Severity,
};
use crate::order;
use crate::text;
use vstd::multiset::*;
use vstd::prelude::*;
use vstd::seq_lib::*;

verus! {

/// A check sends `HEAD` first, at most one `GET` after it, and is then over.
pub proof fn check_ends_after_two_requests(url: Seq<char>, head: ReplyView, get: ReplyView)
    ensures
        links::link_step(url, LinkEventView::Start) == LinkActionView::Request(Method::Head),
        links::link_step(url, LinkEventView::Replied(Method::Head, head)) is Report
            || links::link_step(url, LinkEventView::Replied(Method::Head, head))
            == LinkActionView::Request(Method::Get),
        links::link_step(url, LinkEventView::Replied(Method::Get, get)) is Report,
{
}

/// `GET` is sent exactly where `HEAD` was answered with 405 or 501.
pub proof fn get_follows_refused_head(url: Seq<char>, event: LinkEventView)
    ensures
        links::link_step(url, event) == LinkActionView::Request(Method::Get) <==> (event
            == LinkEventView::Replied(Method::Head, ReplyView::Status(405)) || event
            == LinkEventView::Replied(Method::Head, ReplyView::Status(501))),
{
}

/// What a check finds whose requests are answered like this.
pub open spec fn check_outcome(url: Seq<char>, head: ReplyView, get: ReplyView) -> Option<
    FindingView,
> {
    match links::link_step(url, LinkEventView::Replied(Method::Head, head)) {
        LinkActionView::Report(finding) => finding,
        LinkActionView::Request(method) => match links::link_step(
            url,
            LinkEventView::Replied(method, get),
        ) {
            LinkActionView::Report(finding) => finding,
            LinkActionView::Request(_) => None,
        },
    }
}

/// A link is healthy exactly where the last answer is a status below 400.
pub proof fn healthy_links_are_not_reported(url: Seq<char>, head: ReplyView, get: ReplyView)
    ensures
        check_outcome(url, head, get) is None <==> {
            let last = if links::refuses_head(head) {
                get
            } else {
                head
            };
            last matches ReplyView::Status(status) && status < 400
        },
{
}

/// A link that could not be followed is always reported, as a warning where
/// asking again may help.
pub proof fn failures_are_reported(
    url: Seq<char>,
    kind: LinkError,
    reason: Seq<char>,
    get: ReplyView,
)
    ensures
        check_outcome(url, ReplyView::Failed(kind, reason), get) == Some(
            links::failure_finding(kind, url, reason),
        ),
        links::failure_finding(kind, url, reason).0 == Severity::Warning <==> (kind
            == LinkError::Timeout || kind == LinkError::Http),
{
}

/// How often a message is collected is how often it was found.
proof fn lemma_message_count(
    findings: Seq<Option<FindingView>>,
    severity: Severity,
    message: Seq<char>,
    n: int,
)
    requires
        0 <= n <= findings.len(),
    ensures
        links::messages_upto(findings, severity, n).to_multiset().count(message) == findings.take(
            n,
        ).to_multiset().count(Some((severity, message))),
    decreases n,
{
    broadcast use group_multiset_axioms;

    if n > 0 {
        lemma_message_count(findings, severity, message, n - 1);
        let before = links::messages_upto(findings, severity, n - 1);
        let last = findings[n - 1];
        assert(findings.take(n) =~= findings.take(n - 1).push(last));
        to_multiset_build(findings.take(n - 1), last);
        match links::message_of(last, severity) {
            Some(m) => {
                to_multiset_build(before, m);
                assert(last == Some((severity, m)));
            },
            None => {},
        }
    } else {
        assert(findings.take(0) =~= Seq::<Option<FindingView>>::empty());
        to_multiset_contains(Seq::<Seq<char>>::empty(), message);
        to_multiset_contains(Seq::<Option<FindingView>>::empty(), Some((severity, message)));
    }
}

/// The collected messages do not depend on the order in which the checks of
/// the links end.
pub proof fn arrival_order_does_not_count(
    first: Seq<Option<FindingView>>,
    second: Seq<Option<FindingView>>,
    severity: Severity,
    sorted1: Seq<Seq<char>>,
    sorted2: Seq<Seq<char>>,
)
    requires
        first.to_multiset() == second.to_multiset(),
        order::is_sorted_form(sorted1, links::messages(first, severity)),
        order::is_sorted_form(sorted2, links::messages(second, severity)),
    ensures
        sorted1 == sorted2,
{
    broadcast use group_multiset_axioms;

    let a = links::messages(first, severity);
    let b = links::messages(second, severity);
    assert forall|m: Seq<char>| #[trigger]
        a.to_multiset().count(m) == b.to_multiset().count(m) by {
        lemma_message_count(first, severity, m, first.len() as int);
        lemma_message_count(second, severity, m, second.len() as int);
        assert(first.take(first.len() as int) =~= first);
        assert(second.take(second.len() as int) =~= second);
    }
    assert(a.to_multiset() =~= b.to_multiset());
    order::sorted_form_is_unique(sorted1, a, sorted2, b);
}

/// Every finding is collected once, as an error or as a warning.
pub proof fn every_finding_is_collected(findings: Seq<Option<FindingView>>, n: int)
    requires
        0 <= n <= findings.len(),
    ensures
        links::messages_upto(findings, Severity::Error, n).len() + links::messages_upto(
            findings,
            Severity::Warning,
            n,
        ).len() == findings_upto(findings, n),
    decreases n,
{
    if n > 0 {
        every_finding_is_collected(findings, n - 1);
    }
}

/// How many of the first `n` checks found something.
pub open spec fn findings_upto(findings: Seq<Option<FindingView>>, n: int) -> nat
    decreases n,
{
    if n <= 0 {
        0
    } else {
        findings_upto(findings, n - 1) + if findings[n - 1] is Some {
            1nat
        } else {
            0nat
        }
    }
}

/// An exchange goes on only to what it says: it writes after connecting, reads
/// after writing, and is over after anything that failed or took too long and after the
/// response.
pub proof fn exchange_takes_its_steps(url: Seq<char>, method: Method, event: HttpEventView)
    ensures
        http::http_step(url, method, event) is Connect ==> event is Start,
        http::http_step(url, method, event) is Write ==> event is Connected,
        http::http_step(url, method, event) is Read <==> event is Written,
        event is ConnectFailed || event is WriteFailed || event is ReadFailed || event is TimedOut
            || event is Received ==> http::http_step(url, method, event) is Finish,
{
}

/// An exchange ends as a timeout exactly where a step of it took too long, and
/// its link is then reported as timed out, with the reason.
pub proof fn timeouts_are_told_apart(url: Seq<char>, method: Method, event: HttpEventView)
    ensures
        http::http_step(url, method, event) matches HttpActionView::Finish(reply) ==> ((reply
            matches ReplyView::Failed(kind, _) && kind == LinkError::Timeout) <==> event is TimedOut),
        event matches HttpEventView::TimedOut(reason) ==> http::http_step(url, method, event)
            == HttpActionView::Finish(ReplyView::Failed(LinkError::Timeout, reason))
            && links::reply_finding(ReplyView::Failed(LinkError::Timeout, reason), url) == Some(
            (Severity::Warning, links::failure_message("link check timed out"@, url, reason)),
        ),
{
}

/// Nothing is ever sent in the clear to an `https` URL.
pub proof fn https_sends_nothing(url: Seq<char>, method: Method, event: HttpEventView)
    requires
        http::lower_scheme(url) == "https"@,
    ensures
        !(http::http_step(url, method, event) is Write),
{
}

proof fn lemma_leading_word(word: Seq<char>, tail: Seq<char>)
    requires
        forall|i: int| 0 <= i < word.len() ==> !text::white_space(#[trigger] word[i]),
        tail.len() > 0 ==> text::white_space(tail[0]),
    ensures
        text::leading_word(word + tail) == word,
    decreases word.len(),
{
    let all = word + tail;
    if word.len() > 0 {
        assert(!text::white_space(word[0]));
        let rest = word.drop_first();
        assert forall|i: int| 0 <= i < rest.len() implies !text::white_space(
            #[trigger] rest[i],
        ) by {
            assert(!text::white_space(word[i + 1]));
        }
        lemma_leading_word(rest, tail);
        assert(all.drop_first() =~= rest + tail);
        assert(seq![word[0]] + rest =~= word);
    } else {
        assert(all =~= tail);
        assert(text::leading_word(tail) =~= word);
    }
}

/// The status that a response gives in its first line is read.
pub proof fn status_line_is_read(version: Seq<char>, status: nat, tail: Seq<char>)
    requires
        version.len() > 0,
        forall|i: int| 0 <= i < version.len() ==> !text::white_space(#[trigger] version[i]),
        status <= u16::MAX,
        tail.len() > 0 ==> text::white_space(tail[0]),
    ensures
        http::response_reply(version + " "@ + text::decimal(status) + tail) == ReplyView::Status(
            status,
        ),
{
    reveal_strlit(" ");
    let number = text::decimal(status);
    text::decimal_is_digits(status);
    text::decimal_is_read_back(status, u16::MAX as nat);
    let head = version + " "@ + number;
    let response = head + tail;
    assert(!head.contains('\n')) by {
        if head.contains('\n') {
            let i = head.index_of('\n');
            if i < version.len() {
                assert(!text::white_space(version[i]));
            } else if i > version.len() {
                assert(text::is_digit(number[i - version.len() - 1]));
            }
        }
    }
    let rest = text::before(tail, '\n');
    text::find_char_is_first(tail, '\n', 0);
    text::find_char_is_first(response, '\n', 0);
    let line = text::before(response, '\n');
    assert(line =~= head + rest) by {
        assert forall|j: int| 0 <= j < head.len() implies response[j] != '\n' by {
            assert(head.contains(head[j]));
        }
        match text::find_char(tail, '\n', 0) {
            Some(i) => {
                text::first_place_is_found(response, '\n', head.len() + i);
            },
            None => {},
        }
    }
    assert(!text::white_space(version[0]));
    assert(line[0] == version[0]);
    assert(text::trimmed_start(line) == line);
    let after = " "@ + number + rest;
    assert(line =~= version + after);
    lemma_leading_word(version, after);
    assert(line.skip(version.len() as int) =~= after);
    assert(after.drop_first() =~= number + rest);
    assert(text::is_digit(number[0]));
    assert(text::trimmed_start(number + rest) == number + rest);
    assert(text::trimmed_start(after) == number + rest);
    assert forall|i: int| 0 <= i < number.len() implies !text::white_space(#[trigger] number[i]) by {
        assert(text::is_digit(number[i]));
    }
    lemma_leading_word(number, rest);
}

}
