//! What the normal form of URLs promises.
use crate::text;
use crate::url;
use crate::url::UrlParts;
use vstd::prelude::*;
use vstd::utf8::*;

verus! {

/// What is appended to a URL with a scheme leaves the scheme as it is; so it
/// does where there is no scheme even then.
proof fn lemma_scheme_stays(u: Seq<char>, x: Seq<char>)
    requires
        text::find_text(u, "://"@, 0) is Some || text::find_text(u + x, "://"@, 0) is None,
    ensures
        url::scheme_of(u + x) == url::scheme_of(u),
        url::after_scheme(u + x) == url::after_scheme(u) + x,
{
    reveal_strlit("://");
    let sep = "://"@;
    text::find_text_is_first(u, sep, 0);
    match text::find_text(u, sep, 0) {
        Some(i) => {
            let w = u + x;
            assert(w.subrange(i, i + 3) =~= u.subrange(i, i + 3));
            assert forall|j: int| 0 <= j < i implies #[trigger] w.subrange(j, j + 3) != sep by {
                assert(w.subrange(j, j + 3) =~= u.subrange(j, j + 3));
            }
            text::first_text_is_found(w, sep, i);
            assert(w.take(i) =~= u.take(i));
            assert(w.skip(i + 3) =~= u.skip(i + 3) + x);
        },
        None => {},
    }
}

/// What stands before the first `c` does not change with what is appended,
/// where there is a `c` already or what is appended starts with one.
proof fn lemma_before_stays(s: Seq<char>, x: Seq<char>, c: char)
    requires
        s.contains(c) || (x.len() > 0 && x[0] == c),
    ensures
        text::before(s + x, c) == text::before(s, c),
{
    text::find_char_is_first(s, c, 0);
    match text::find_char(s, c, 0) {
        Some(i) => {
            text::first_place_is_found(s + x, c, i);
            assert((s + x).take(i) =~= s.take(i));
        },
        None => {
            if s.contains(c) {
                let j = s.index_of(c);
                assert(s[j] == c);
            }
            assert((s + x)[s.len() as int] == c);
            text::first_place_is_found(s + x, c, s.len() as int);
            assert((s + x).take(s.len() as int) =~= s);
        },
    }
}

/// The fragment does not count: a URL with a fragment has the normal form that
/// it has without. What is left out is a fragment with the only `://` of the
/// URL in it.
pub proof fn fragment_is_dropped(u: Seq<char>, fragment: Seq<char>)
    requires
        text::find_text(u, "://"@, 0) is Some || text::find_text(u + "#"@ + fragment, "://"@, 0) is None,
    ensures
        url::normal_form(u + "#"@ + fragment) == url::normal_form(u),
{
    reveal_strlit("#");
    let x = "#"@ + fragment;
    assert(u + "#"@ + fragment =~= u + x);
    lemma_scheme_stays(u, x);
    lemma_before_stays(url::after_scheme(u), x, '#');
    assert(url::url_parts(u + x) == url::url_parts(u));
}

/// A slash at the end of the path does not count. What is left out is a slash
/// that goes to a query, and one that completes the only `://` of the URL.
pub proof fn trailing_slash_is_dropped(u: Seq<char>)
    requires
        text::find_text(u, "://"@, 0) is Some || text::find_text(u + "/"@, "://"@, 0) is None,
        url::after_scheme(u).contains('#') || !url::after_scheme(u).contains('?'),
    ensures
        url::normal_form(u + "/"@) == url::normal_form(u),
{
    reveal_strlit("/");
    let x = "/"@;
    lemma_scheme_stays(u, x);
    let rest = url::after_scheme(u);
    if rest.contains('#') {
        lemma_before_stays(rest, x, '#');
        assert(url::url_parts(u + x) == url::url_parts(u));
    } else {
        let longer = rest + x;
        assert(!longer.contains('#') && !longer.contains('?')) by {
            assert(forall|i: int| 0 <= i < rest.len() ==> longer[i] == rest[i]);
            assert(forall|i: int| 0 <= i < rest.len() ==> rest.contains(rest[i]));
        }
        text::missing_char_is_not_found(rest, '#');
        text::missing_char_is_not_found(rest, '?');
        text::missing_char_is_not_found(longer, '#');
        text::missing_char_is_not_found(longer, '?');
        lemma_before_stays(rest, x, '/');
        let p = url::url_parts(u);
        let q = url::url_parts(u + x);
        assert(q.host == p.host && q.port_raw == p.port_raw && q.query == p.query && q.scheme
            == p.scheme);
        text::find_char_is_first(rest, '/', 0);
        match text::find_char(rest, '/', 0) {
            Some(i) => {
                text::first_place_is_found(longer, '/', i);
                assert(q.path =~= p.path.push('/'));
                assert(p.path.push('/').drop_last() =~= p.path);
            },
            None => {
                text::first_place_is_found(longer, '/', rest.len() as int);
                assert(q.path =~= Seq::<char>::empty().push('/'));
                assert(q.path.drop_last() =~= Seq::<char>::empty());
            },
        }
        assert(text::stripped_end(q.path, '/') == text::stripped_end(p.path, '/'));
    }
}

/// Neither the case of scheme and host nor the user nor the fragment counts.
pub proof fn case_of_host_does_not_count(u: Seq<char>, v: Seq<char>)
    requires
        text::lowercase(url::url_parts(u).scheme) == text::lowercase(url::url_parts(v).scheme),
        text::lowercase(url::url_parts(u).host) == text::lowercase(url::url_parts(v).host),
        url::url_parts(u).port_raw == url::url_parts(v).port_raw,
        url::url_parts(u).path == url::url_parts(v).path,
        url::url_parts(u).query == url::url_parts(v).query,
    ensures
        url::normal_form(u) == url::normal_form(v),
{
}

/// A URL has no normal form exactly where it gives a port that is not a
/// number, or too large a one.
pub proof fn only_bad_ports_are_errors(u: Seq<char>)
    ensures
        url::normal_form(u) is Err <==> (url::url_parts(u).port_raw matches Some(raw)
            && text::parsed_number(raw, u32::MAX as nat) is None),
{
}

/// Whether a text can stand as a host by itself, with no character that ends
/// a host or parts it.
pub open spec fn is_plain(s: Seq<char>) -> bool {
    !s.contains('/') && !s.contains('?') && !s.contains('#') && !s.contains('@') && !s.contains(':')
}

/// Whether a text can stand as a scheme: the `://` behind it is the first.
pub open spec fn is_scheme(s: Seq<char>) -> bool {
    text::find_text(s + "://"@, "://"@, 0) == Some(s.len() as int)
}

/// Host and port with the colon between them.
pub open spec fn netloc_of(host: Seq<char>, port_raw: Option<Seq<char>>) -> Seq<char> {
    match port_raw {
        Some(raw) => host + ":"@ + raw,
        None => host,
    }
}

/// Parts of which a URL can be put together so that each is found again.
pub open spec fn is_joinable(p: UrlParts) -> bool {
    &&& is_scheme(p.scheme)
    &&& p.host.len() > 0
    &&& is_plain(p.host)
    &&& p.port_raw matches Some(raw) ==> is_plain(raw)
    &&& p.path.len() > 0 ==> p.path[0] == '/'
    &&& !p.path.contains('?')
    &&& !p.path.contains('#')
    &&& !p.query.contains('#')
}

/// No part of a joined text has a character that neither piece has.
proof fn lemma_sum_lacks(a: Seq<char>, b: Seq<char>, c: char)
    requires
        !a.contains(c),
        !b.contains(c),
    ensures
        !(a + b).contains(c),
{
    if (a + b).contains(c) {
        let i = (a + b).index_of(c);
        if i < a.len() {
            assert(a[i] == c);
        } else {
            assert(b[i - a.len()] == c);
        }
    }
}

/// The text in front is what stands before a character that it lacks.
proof fn lemma_before_sum(a: Seq<char>, b: Seq<char>, c: char)
    requires
        !a.contains(c),
        b.len() > 0,
        b[0] == c,
    ensures
        text::before(a + b, c) == a,
        text::after(a + b, c) == b.skip(1),
        text::starting_at(a + b, c) == b,
{
    assert forall|j: int| 0 <= j < a.len() implies (a + b)[j] != c by {
        assert(a.contains(a[j]));
    }
    text::first_place_is_found(a + b, c, a.len() as int);
    assert((a + b).take(a.len() as int) =~= a);
    assert((a + b).skip(1int + a.len()) =~= b.skip(1));
    assert((a + b).skip(a.len() as int) =~= b);
}

/// A URL put together from parts is split into the same parts.
pub proof fn split_undoes_join(p: UrlParts)
    requires
        is_joinable(p),
    ensures
        url::url_parts(
            url::joined_url(p.scheme, netloc_of(p.host, p.port_raw), p.path, p.query),
        ) == p,
{
    reveal_strlit("://");
    reveal_strlit(":");
    reveal_strlit("?");
    let sep = "://"@;
    let netloc = netloc_of(p.host, p.port_raw);
    let hierarchy = netloc + p.path;
    let tail = if p.query.len() > 0 {
        "?"@ + p.query
    } else {
        Seq::empty()
    };
    let rest = hierarchy + tail;
    let u = url::joined_url(p.scheme, netloc, p.path, p.query);
    assert(netloc.len() > 0);
    assert(u =~= (p.scheme + sep) + rest);
    lemma_scheme_stays(p.scheme + sep, rest);
    assert((p.scheme + sep).take(p.scheme.len() as int) =~= p.scheme);
    assert((p.scheme + sep).skip(3int + p.scheme.len()) + rest =~= rest);
    assert(url::scheme_of(u) == p.scheme);
    assert(url::after_scheme(u) == rest);
    // the server has none of the characters that part a URL
    match p.port_raw {
        Some(raw) => {
            assert(!":"@.contains('/') && !":"@.contains('?') && !":"@.contains('#')
                && !":"@.contains('@'));
            lemma_sum_lacks(p.host, ":"@, '/');
            lemma_sum_lacks(p.host + ":"@, raw, '/');
            lemma_sum_lacks(p.host, ":"@, '?');
            lemma_sum_lacks(p.host + ":"@, raw, '?');
            lemma_sum_lacks(p.host, ":"@, '#');
            lemma_sum_lacks(p.host + ":"@, raw, '#');
            lemma_sum_lacks(p.host, ":"@, '@');
            lemma_sum_lacks(p.host + ":"@, raw, '@');
        },
        None => {},
    }
    lemma_sum_lacks(netloc, p.path, '#');
    lemma_sum_lacks(netloc, p.path, '?');
    assert(!tail.contains('#')) by {
        if p.query.len() > 0 {
            assert(!"?"@.contains('#'));
            lemma_sum_lacks("?"@, p.query, '#');
        }
    }
    lemma_sum_lacks(hierarchy, tail, '#');
    text::missing_char_is_not_found(rest, '#');
    assert(text::before(rest, '#') == rest);
    if p.query.len() > 0 {
        lemma_before_sum(hierarchy, tail, '?');
        assert(tail.skip(1) =~= p.query);
    } else {
        assert(rest =~= hierarchy);
        text::missing_char_is_not_found(rest, '?');
        assert(p.query =~= Seq::<char>::empty());
    }
    assert(text::before(rest, '?') == hierarchy);
    assert(text::after(rest, '?') == p.query);
    if p.path.len() > 0 {
        lemma_before_sum(netloc, p.path, '/');
    } else {
        assert(hierarchy =~= netloc);
        text::missing_char_is_not_found(netloc, '/');
        assert(p.path =~= Seq::<char>::empty());
    }
    text::missing_char_is_not_found(netloc, '@');
    assert(url::host_port(netloc) == netloc);
    match p.port_raw {
        Some(raw) => {
            let i = p.host.len() as int;
            assert forall|j: int| i < j < netloc.len() implies netloc[j] != ':' by {
                assert(netloc[j] == raw[j - i - 1]);
                assert(raw.contains(raw[j - i - 1]));
            }
            text::last_place_is_found(netloc, ':', i);
            assert(netloc.take(i) =~= p.host);
            assert(netloc.skip(i + 1) =~= raw);
        },
        None => {
            text::missing_char_is_not_found(netloc, ':');
        },
    }
}

/// The parts that the normal form of a URL has.
pub open spec fn normal_parts(p: UrlParts, port: Option<nat>) -> UrlParts {
    let scheme = text::lowercase(p.scheme);
    UrlParts {
        scheme,
        host: text::lowercase(p.host),
        port_raw: match port {
            Some(n) => if scheme == "https"@ && n == 443 {
                None
            } else {
                Some(text::decimal(n))
            },
            None => None,
        },
        path: url::normal_path(p.path),
        query: p.query,
    }
}

/// What stands before a character lacks it, and what the whole text lacks.
proof fn lemma_before_lacks(s: Seq<char>, c: char, d: char)
    requires
        !s.contains(d) || c == d,
    ensures
        !text::before(s, c).contains(d),
{
    text::find_char_is_first(s, c, 0);
    let b = text::before(s, c);
    if b.contains(d) {
        let i = b.index_of(d);
        assert(s[i] == d);
    }
}

/// What the parts of any URL lack.
proof fn lemma_parts_shape(u: Seq<char>)
    ensures
        is_scheme(url::url_parts(u).scheme),
        !url::url_parts(u).host.contains('/'),
        !url::url_parts(u).host.contains('?'),
        !url::url_parts(u).host.contains('#'),
        !url::url_parts(u).host.contains('@'),
        url::url_parts(u).path.len() > 0 ==> url::url_parts(u).path[0] == '/',
        !url::url_parts(u).path.contains('?'),
        !url::url_parts(u).path.contains('#'),
        !url::url_parts(u).query.contains('#'),
{
    reveal_strlit("://");
    let sep = "://"@;
    let p = url::url_parts(u);
    // scheme
    text::find_text_is_first(u, sep, 0);
    match text::find_text(u, sep, 0) {
        Some(i) => {
            let w = p.scheme + sep;
            assert(w =~= u.take(i + 3)) by {
                assert(u.subrange(i, i + 3) == sep);
                assert forall|k: int| 0 <= k < i + 3 implies w[k] == u.take(i + 3)[k] by {
                    if k >= i {
                        assert(u.subrange(i, i + 3)[k - i] == u[k]);
                    }
                }
            }
            assert(w.subrange(i, i + 3) =~= u.subrange(i, i + 3));
            assert forall|j: int| 0 <= j < i implies #[trigger] w.subrange(j, j + 3) != sep by {
                assert(w.subrange(j, j + 3) =~= u.subrange(j, j + 3));
            }
            text::first_text_is_found(w, sep, i);
        },
        None => {
            assert((p.scheme + sep).subrange(0, 3) =~= sep);
        },
    }
    // the rest
    let rest = url::after_scheme(u);
    let body = text::before(rest, '#');
    let hierarchy = text::before(body, '?');
    let netloc = text::before(hierarchy, '/');
    let server = url::host_port(netloc);
    lemma_before_lacks(rest, '#', '#');
    lemma_before_lacks(body, '?', '#');
    lemma_before_lacks(body, '?', '?');
    lemma_before_lacks(hierarchy, '/', '#');
    lemma_before_lacks(hierarchy, '/', '?');
    lemma_before_lacks(hierarchy, '/', '/');
    text::rfind_char_is_last(netloc, '@', netloc.len() as int);
    text::rfind_char_is_last(server, ':', server.len() as int);
    assert forall|c: char| p.host.contains(c) implies netloc.contains(c) && c != '@' by {
        let i = p.host.index_of(c);
        assert(server[i] == c);
        match text::rfind_char(netloc, '@', netloc.len() as int) {
            Some(k) => {
                assert(netloc[k + 1 + i] == c);
            },
            None => {
                assert(netloc[i] == c);
            },
        }
    }
    text::find_char_is_first(hierarchy, '/', 0);
    assert forall|c: char| p.path.contains(c) implies hierarchy.contains(c) by {
        let i = p.path.index_of(c);
        match text::find_char(hierarchy, '/', 0) {
            Some(k) => {
                assert(hierarchy[k + i] == c);
            },
            None => {},
        }
    }
    text::find_char_is_first(body, '?', 0);
    assert forall|c: char| p.query.contains(c) implies body.contains(c) by {
        let i = p.query.index_of(c);
        match text::find_char(body, '?', 0) {
            Some(k) => {
                assert(body[k + 1 + i] == c);
            },
            None => {},
        }
    }
}

/// What is left of a path without the slashes at its end is its beginning.
proof fn lemma_stripped_is_prefix(s: Seq<char>, c: char)
    ensures
        text::stripped_end(s, c).is_prefix_of(s),
        text::stripped_end(text::stripped_end(s, c), c) == text::stripped_end(s, c),
    decreases s.len(),
{
    if s.len() > 0 && s.last() == c {
        lemma_stripped_is_prefix(s.drop_last(), c);
        let r = text::stripped_end(s, c);
        assert(s.subrange(0, r.len() as int) =~= s.drop_last().subrange(0, r.len() as int));
    } else {
        assert(s.subrange(0, s.len() as int) =~= s);
    }
}

proof fn lemma_normal_path(path: Seq<char>)
    requires
        path.len() > 0 ==> path[0] == '/',
        !path.contains('?'),
        !path.contains('#'),
    ensures
        url::normal_path(path).len() > 0,
        url::normal_path(path)[0] == '/',
        !url::normal_path(path).contains('?'),
        !url::normal_path(path).contains('#'),
        url::normal_path(url::normal_path(path)) == url::normal_path(path),
{
    reveal_strlit("/");
    let r = text::stripped_end(path, '/');
    lemma_stripped_is_prefix(path, '/');
    assert forall|i: int| 0 <= i < r.len() implies r[i] == path[i] by {
        assert(path.subrange(0, r.len() as int)[i] == path[i]);
    }
    assert forall|c: char| r.contains(c) implies path.contains(c) by {
        let i = r.index_of(c);
        assert(path[i] == c);
    }
    assert("/"@.drop_last() =~= Seq::<char>::empty());
    assert(text::stripped_end("/"@, '/') == text::stripped_end(Seq::<char>::empty(), '/'));
    assert(text::stripped_end(Seq::<char>::empty(), '/') == Seq::<char>::empty());
}

/// Whether scheme and host of a URL keep their roles in lower case, and there
/// is a host and no colon in it.
pub open spec fn is_regular(u: Seq<char>) -> bool {
    let p = url::url_parts(u);
    &&& is_scheme(text::lowercase(p.scheme))
    &&& text::lowercase(p.host).len() > 0
    &&& is_plain(text::lowercase(p.host))
}

/// ASCII letters keep their roles in lower case.
pub proof fn ascii_urls_are_regular(u: Seq<char>)
    requires
        is_ascii_chars(u),
        url::url_parts(u).host.len() > 0,
        !url::url_parts(u).host.contains(':'),
    ensures
        is_regular(u),
        is_ascii_chars(url::url_parts(u).scheme),
        is_ascii_chars(url::url_parts(u).host),
{
    reveal_strlit("://");
    let sep = "://"@;
    let p = url::url_parts(u);
    lemma_parts_shape(u);
    lemma_parts_from_url(u);
    // scheme
    let low = text::lowercase(p.scheme);
    text::ascii_lowercase_keeps_others(p.scheme, ':');
    text::ascii_lowercase_keeps_others(p.scheme, '/');
    let w = p.scheme + sep;
    let v = low + sep;
    text::find_text_is_first(w, sep, 0);
    assert(v.subrange(low.len() as int, 3int + low.len()) =~= sep);
    assert forall|j: int| 0 <= j < low.len() implies #[trigger] v.subrange(j, j + 3) != sep by {
        assert(w.subrange(j, j + 3) != sep);
        if v.subrange(j, j + 3) == sep {
            assert forall|k: int| 0 <= k < 3 implies w.subrange(j, j + 3)[k] == sep[k] by {
                assert(v.subrange(j, j + 3)[k] == v[j + k]);
                if j + k < low.len() {
                    assert(low[j + k] == sep[k]);
                    assert(sep[k] == ':' || sep[k] == '/');
                }
            }
            assert(w.subrange(j, j + 3) =~= sep);
        }
    }
    text::first_text_is_found(v, sep, low.len() as int);
    // host
    let host = text::lowercase(p.host);
    text::ascii_lowercase_keeps_others(p.host, '/');
    text::ascii_lowercase_keeps_others(p.host, '?');
    text::ascii_lowercase_keeps_others(p.host, '#');
    text::ascii_lowercase_keeps_others(p.host, '@');
    text::ascii_lowercase_keeps_others(p.host, ':');
    assert forall|c: char|
        (c == '/' || c == '?' || c == '#' || c == '@' || c == ':') && host.contains(
            c,
        ) implies p.host.contains(c) by {
        let i = host.index_of(c);
        assert(host[i] == c);
        assert(p.host[i] == c);
    }
}

/// The characters of scheme and host come from the URL.
proof fn lemma_parts_from_url(u: Seq<char>)
    requires
        is_ascii_chars(u),
    ensures
        is_ascii_chars(url::url_parts(u).scheme),
        is_ascii_chars(url::url_parts(u).host),
{
    reveal_strlit("://");
    let p = url::url_parts(u);
    text::find_text_is_first(u, "://"@, 0);
    let rest = url::after_scheme(u);
    let body = text::before(rest, '#');
    let hierarchy = text::before(body, '?');
    let netloc = text::before(hierarchy, '/');
    let server = url::host_port(netloc);
    text::find_char_is_first(rest, '#', 0);
    text::find_char_is_first(body, '?', 0);
    text::find_char_is_first(hierarchy, '/', 0);
    text::rfind_char_is_last(netloc, '@', netloc.len() as int);
    text::rfind_char_is_last(server, ':', server.len() as int);
    assert(is_ascii_chars(rest));
    assert(is_ascii_chars(body));
    assert(is_ascii_chars(hierarchy));
    assert(is_ascii_chars(netloc));
    assert(is_ascii_chars(server));
}

/// The normal form has the parts of the URL: scheme and host in lower case, the
/// port as a plain number unless it is the port of `https`, the path without
/// slashes at its end, and the query as it is.
pub proof fn normal_form_has_normal_parts(u: Seq<char>)
    requires
        is_regular(u),
        url::normal_form(u) is Ok,
    ensures
        url::url_parts(url::normal_form(u)->Ok_0) == normal_parts(
            url::url_parts(u),
            url::port_number(url::url_parts(u))->Ok_0,
        ),
{
    let p = url::url_parts(u);
    let port = url::port_number(p)->Ok_0;
    let q = normal_parts(p, port);
    lemma_parts_shape(u);
    lemma_normal_path(p.path);
    match port {
        Some(n) => {
            text::decimal_is_digits(n);
            let raw = text::decimal(n);
            assert forall|c: char| raw.contains(c) implies text::is_digit(c) by {
                let i = raw.index_of(c);
                assert(text::is_digit(raw[i]));
            }
        },
        None => {},
    }
    split_undoes_join(q);
    assert(url::normal_netloc(q.scheme, q.host, port) == netloc_of(q.host, q.port_raw));
}

/// A normal form is its own normal form.
pub proof fn normal_form_is_stable(u: Seq<char>)
    requires
        is_regular(u),
        text::lowercase(text::lowercase(url::url_parts(u).scheme)) == text::lowercase(
            url::url_parts(u).scheme,
        ),
        text::lowercase(text::lowercase(url::url_parts(u).host)) == text::lowercase(
            url::url_parts(u).host,
        ),
        url::normal_form(u) is Ok,
    ensures
        url::normal_form(url::normal_form(u)->Ok_0) == url::normal_form(u),
{
    let p = url::url_parts(u);
    let port = url::port_number(p)->Ok_0;
    normal_form_has_normal_parts(u);
    lemma_parts_shape(u);
    lemma_normal_path(p.path);
    match port {
        Some(n) => {
            text::decimal_is_read_back(n, u32::MAX as nat);
        },
        None => {},
    }
}

/// The normal form of an ASCII URL is its own normal form. What is left out is
/// a URL without a host, or with a colon in it besides that of the port.
pub proof fn ascii_normal_form_is_stable(u: Seq<char>)
    requires
        is_ascii_chars(u),
        url::url_parts(u).host.len() > 0,
        !url::url_parts(u).host.contains(':'),
        url::normal_form(u) is Ok,
    ensures
        url::normal_form(url::normal_form(u)->Ok_0) == url::normal_form(u),
{
    ascii_urls_are_regular(u);
    text::ascii_lowercase_is_stable(url::url_parts(u).scheme);
    text::ascii_lowercase_is_stable(url::url_parts(u).host);
    normal_form_is_stable(u);
}

/// Two URLs with the same normal form lead to the same place: they agree in
/// scheme and host but for case, in the port, in the path but for slashes at its
/// end, and in the query.
pub proof fn same_normal_form_is_same_place(u: Seq<char>, v: Seq<char>)
    requires
        is_regular(u),
        is_regular(v),
        url::normal_form(u) is Ok,
        url::normal_form(u) == url::normal_form(v),
    ensures
        normal_parts(url::url_parts(u), url::port_number(url::url_parts(u))->Ok_0) == normal_parts(
            url::url_parts(v),
            url::port_number(url::url_parts(v))->Ok_0,
        ),
{
    normal_form_has_normal_parts(u);
    normal_form_has_normal_parts(v);
}

/// Text in front that lacks a character only shifts the search for it.
proof fn lemma_search_shifts(a: Seq<char>, t: Seq<char>, c: char)
    requires
        !a.contains(c),
    ensures
        text::before(a + t, c) == a + text::before(t, c),
        text::after(a + t, c) == text::after(t, c),
        text::starting_at(a + t, c) == text::starting_at(t, c),
{
    text::find_char_is_first(t, c, 0);
    assert forall|j: int| 0 <= j < a.len() implies (a + t)[j] != c by {
        assert(a.contains(a[j]));
    }
    match text::find_char(t, c, 0) {
        Some(i) => {
            text::first_place_is_found(a + t, c, a.len() + i);
            assert((a + t).take(a.len() + i) =~= a + t.take(i));
            assert((a + t).skip(a.len() + i + 1) =~= t.skip(i + 1));
            assert((a + t).skip(a.len() + i) =~= t.skip(i));
        },
        None => {
            text::find_char_is_first(a + t, c, 0);
        },
    }
}

/// How a URL is split whose server and what follows it are known.
proof fn lemma_server_and_tail(s: Seq<char>, a: Seq<char>, tail: Seq<char>)
    requires
        is_scheme(s),
        !a.contains('/'),
        !a.contains('?'),
        !a.contains('#'),
        tail.len() > 0 ==> tail[0] == '/' || tail[0] == '?' || tail[0] == '#',
    ensures
        url::url_parts(s + "://"@ + a + tail) == (UrlParts {
            scheme: s,
            host: text::before_last(url::host_port(a), ':'),
            port_raw: text::after_last(url::host_port(a), ':'),
            path: text::starting_at(text::before(text::before(tail, '#'), '?'), '/'),
            query: text::after(text::before(tail, '#'), '?'),
        }),
{
    reveal_strlit("://");
    let sep = "://"@;
    let u = s + sep + a + tail;
    assert(u =~= (s + sep) + (a + tail));
    lemma_scheme_stays(s + sep, a + tail);
    assert((s + sep).take(s.len() as int) =~= s);
    assert((s + sep).skip(3int + s.len()) + (a + tail) =~= a + tail);
    lemma_search_shifts(a, tail, '#');
    let body = text::before(tail, '#');
    lemma_search_shifts(a, body, '?');
    let path = text::before(body, '?');
    lemma_search_shifts(a, path, '/');
    text::find_char_is_first(tail, '#', 0);
    text::find_char_is_first(body, '?', 0);
    text::find_char_is_first(path, '/', 0);
    assert(path.len() > 0 ==> path[0] == '/') by {
        if path.len() > 0 {
            assert(path[0] == tail[0]);
        }
    }
    assert(text::before(path, '/') =~= Seq::<char>::empty()) by {
        if path.len() > 0 {
            text::first_place_is_found(path, '/', 0);
        }
    }
    assert(a + text::before(path, '/') =~= a);
}

/// For `https` the port 443 does not count: a URL that gives it has the normal
/// form of the one that does not.
pub proof fn https_port_is_dropped(s: Seq<char>, server: Seq<char>, tail: Seq<char>)
    requires
        is_scheme(s),
        text::lowercase(s) == "https"@,
        !server.contains('/'),
        !server.contains('?'),
        !server.contains('#'),
        !url::host_port(server).contains(':'),
        tail.len() > 0 ==> tail[0] == '/' || tail[0] == '?' || tail[0] == '#',
    ensures
        url::normal_form(s + "://"@ + (server + ":443"@) + tail) == url::normal_form(
            s + "://"@ + server + tail,
        ),
{
    reveal_strlit(":443");
    let with = server + ":443"@;
    lemma_sum_lacks(server, ":443"@, '/');
    lemma_sum_lacks(server, ":443"@, '?');
    lemma_sum_lacks(server, ":443"@, '#');
    lemma_server_and_tail(s, with, tail);
    lemma_server_and_tail(s, server, tail);
    text::rfind_char_is_last(server, '@', server.len() as int);
    let host = url::host_port(server);
    assert(url::host_port(with) =~= host + ":443"@) by {
        match text::rfind_char(server, '@', server.len() as int) {
            Some(i) => {
                text::last_place_is_found(with, '@', i);
            },
            None => {
                assert(!server.contains('@'));
                lemma_sum_lacks(server, ":443"@, '@');
                text::missing_char_is_not_found(with, '@');
            },
        }
    }
    let w = host + ":443"@;
    text::missing_char_is_not_found(host, ':');
    text::last_place_is_found(w, ':', host.len() as int);
    assert(w.take(host.len() as int) =~= host);
    assert(w.skip(1int + host.len()) =~= seq!['4', '4', '3']);
    let digits = seq!['4', '4', '3'];
    assert(digits.drop_last() =~= seq!['4', '4']);
    assert(seq!['4', '4'].drop_last() =~= seq!['4']);
    assert(seq!['4'].drop_last() =~= Seq::<char>::empty());
    assert(text::digits_value(Seq::<char>::empty()) == 0);
    assert(text::digits_value(seq!['4']) == 4);
    assert(text::digits_value(seq!['4', '4']) == 44);
    assert(text::digits_value(digits) == 443);
    assert(text::parsed_number(digits, u32::MAX as nat) == Some(443nat));
}

}
