//! How URLs are taken apart and put into their normal form, told by the texts
//! that they are written from.
use crate::text;
use crate::text_laws;
use crate::url;
use crate::url::{SplitResult, UrlParts};
use vstd::prelude::*;

verus! {

/// A URL as it is written, from the scheme to the fragment.
pub struct WrittenUrl {
    pub scheme: Option<Seq<char>>,
    pub user: Option<Seq<char>>,
    pub host: Seq<char>,
    pub port: Option<Seq<char>>,
    pub path: Seq<char>,
    pub query: Option<Seq<char>>,
    pub fragment: Option<Seq<char>>,
}

/// A part with what sets it off before and behind it; nothing where it is missing.
pub open spec fn set_off(before: Seq<char>, part: Option<Seq<char>>, behind: Seq<char>) -> Seq<char> {
    match part {
        Some(s) => before + s + behind,
        None => Seq::empty(),
    }
}

/// `user@host:port`
pub open spec fn written_server(w: WrittenUrl) -> Seq<char> {
    set_off(seq![], w.user, seq!['@']) + (w.host + set_off(seq![':'], w.port, seq![]))
}

/// `/path?query#fragment`
pub open spec fn written_tail(w: WrittenUrl) -> Seq<char> {
    w.path + (set_off(seq!['?'], w.query, seq![]) + set_off(seq!['#'], w.fragment, seq![]))
}

/// `scheme://user@host:port/path?query#fragment`
pub open spec fn written(w: WrittenUrl) -> Seq<char> {
    set_off(seq![], w.scheme, seq![':', '/', '/']) + (written_server(w) + written_tail(w))
}

/// Whether none of these characters stands in a text.
pub open spec fn lacks(s: Seq<char>, cs: Seq<char>) -> bool {
    forall|i: int| 0 <= i < s.len() ==> !cs.contains(#[trigger] s[i])
}

/// Whether `://` stands at this place.
pub open spec fn parts_scheme(s: Seq<char>, i: int) -> bool {
    0 <= i && i + 3 <= s.len() && s[i] == ':' && s[i + 1] == '/' && s[i + 2] == '/'
}

/// Whether no part has a character by which it would end or be parted.
pub open spec fn is_written(w: WrittenUrl) -> bool {
    &&& w.scheme matches Some(s) ==> forall|i: int|
        i < s.len() ==> !#[trigger] parts_scheme(s + "://"@, i)
    &&& w.scheme is None ==> forall|i: int| !#[trigger] parts_scheme(written(w), i)
    &&& w.user matches Some(s) ==> lacks(s, seq!['/', '?', '#'])
    &&& lacks(w.host, seq!['/', '?', '#', '@'])
    &&& w.port is None ==> lacks(w.host, seq![':'])
    &&& w.port matches Some(s) ==> lacks(s, seq!['/', '?', '#', '@', ':'])
    &&& w.path.len() > 0 ==> w.path[0] == '/'
    &&& lacks(w.path, seq!['?', '#'])
    &&& w.query matches Some(s) ==> lacks(s, seq!['#'])
}

/// What stands before and from the first place of a character.
proof fn lemma_parted(a: Seq<char>, b: Seq<char>, c: char)
    requires
        !a.contains(c),
        b.len() > 0 ==> b[0] == c,
    ensures
        text::before(a + b, c) == a,
        text::starting_at(a + b, c) == b,
        b.len() > 0 ==> text::after(a + b, c) == b.skip(1),
        b.len() == 0 ==> text::after(a + b, c) == Seq::<char>::empty(),
{
    let all = a + b;
    assert forall|j: int| 0 <= j < a.len() implies all[j] != c by {
        assert(a.contains(a[j]));
    }
    text::find_char_is_first(all, c, 0);
    if b.len() > 0 {
        text::first_place_is_found(all, c, a.len() as int);
        assert(all.take(a.len() as int) =~= a);
        assert(all.skip(a.len() as int) =~= b);
        assert(all.skip(1int + a.len()) =~= b.skip(1));
    } else {
        assert(all =~= a);
        assert(b =~= Seq::<char>::empty());
        assert(text::find_char(all, c, 0) is None);
    }
}

proof fn lemma_lacks_one(s: Seq<char>, cs: Seq<char>, c: char)
    requires
        lacks(s, cs),
        cs.contains(c),
    ensures
        !s.contains(c),
{
    if s.contains(c) {
        let i = s.index_of(c);
        assert(!cs.contains(s[i]));
    }
}

proof fn lemma_sum_lacks_one(a: Seq<char>, b: Seq<char>, c: char)
    requires
        !a.contains(c),
        !b.contains(c),
    ensures
        !(a + b).contains(c),
{
    if (a + b).contains(c) {
        let i = (a + b).index_of(c);
        if i < a.len() {
            assert(a[i] == c);
        } else {
            assert(b[i - a.len()] == c);
        }
    }
}

/// None of the characters that end a server stands in it.
proof fn lemma_server_lacks(w: WrittenUrl, c: char)
    requires
        is_written(w),
        c == '/' || c == '?' || c == '#',
    ensures
        !written_server(w).contains(c),
{
    assert(seq!['/', '?', '#'][0] == '/' && seq!['/', '?', '#'][1] == '?' && seq!['/', '?', '#'][2]
        == '#');
    assert(seq!['/', '?', '#', '@'][0] == '/' && seq!['/', '?', '#', '@'][1] == '?' && seq![
        '/',
        '?',
        '#',
        '@',
    ][2] == '#');
    let in_port = seq!['/', '?', '#', '@', ':'];
    assert(in_port[0] == '/' && in_port[1] == '?' && in_port[2] == '#');
    let user = set_off(seq![], w.user, seq!['@']);
    let port = set_off(seq![':'], w.port, seq![]);
    assert(!user.contains(c)) by {
        match w.user {
            Some(s) => {
                lemma_lacks_one(s, seq!['/', '?', '#'], c);
                assert(seq![] + s =~= s);
                lemma_sum_lacks_one(s, seq!['@'], c);
            },
            None => {},
        }
    }
    assert(!port.contains(c)) by {
        match w.port {
            Some(s) => {
                lemma_lacks_one(s, in_port, c);
                lemma_sum_lacks_one(seq![':'], s, c);
                assert(seq![':'] + s + seq![] =~= seq![':'] + s);
            },
            None => {},
        }
    }
    lemma_lacks_one(w.host, seq!['/', '?', '#', '@'], c);
    lemma_sum_lacks_one(w.host, port, c);
    lemma_sum_lacks_one(user, w.host + port, c);
}

/// How the server is read.
proof fn lemma_server_is_read(w: WrittenUrl)
    requires
        is_written(w),
    ensures
        text::before_last(url::host_port(written_server(w)), ':') == w.host,
        text::after_last(url::host_port(written_server(w)), ':') == w.port,
{
    let user = set_off(seq![], w.user, seq!['@']);
    let port = set_off(seq![':'], w.port, seq![]);
    let server = w.host + port;
    let all = user + server;
    let in_port = seq!['/', '?', '#', '@', ':'];
    assert(in_port[3] == '@' && in_port[4] == ':');
    assert(seq!['/', '?', '#', '@'][3] == '@');
    lemma_lacks_one(w.host, seq!['/', '?', '#', '@'], '@');
    assert(!port.contains('@')) by {
        match w.port {
            Some(s) => {
                lemma_lacks_one(s, in_port, '@');
                lemma_sum_lacks_one(seq![':'], s, '@');
                assert(seq![':'] + s + seq![] =~= seq![':'] + s);
            },
            None => {},
        }
    }
    lemma_sum_lacks_one(w.host, port, '@');
    match w.user {
        Some(s) => {
            let i = s.len() as int;
            assert(user =~= s.push('@'));
            assert(all[i] == '@');
            assert forall|j: int| i < j < all.len() implies all[j] != '@' by {
                assert(all[j] == server[j - i - 1]);
                assert(server.contains(server[j - i - 1]));
            }
            text::last_place_is_found(all, '@', i);
            assert(all.skip(i + 1) =~= server);
        },
        None => {
            assert(all =~= server);
            text::missing_char_is_not_found(server, '@');
        },
    }
    assert(url::host_port(all) == server);
    match w.port {
        Some(s) => {
            let i = w.host.len() as int;
            lemma_lacks_one(s, in_port, ':');
            assert(port =~= seq![':'] + s);
            assert(server[i] == ':');
            assert forall|j: int| i < j < server.len() implies server[j] != ':' by {
                assert(server[j] == s[j - i - 1]);
                assert(s.contains(s[j - i - 1]));
            }
            text::last_place_is_found(server, ':', i);
            assert(server.take(i) =~= w.host);
            assert(server.skip(i + 1) =~= s);
        },
        None => {
            assert(server =~= w.host);
            assert(seq![':'][0] == ':');
            lemma_lacks_one(w.host, seq![':'], ':');
            text::missing_char_is_not_found(server, ':');
        },
    }
}

/// How the scheme is read.
proof fn lemma_scheme_is_read(w: WrittenUrl)
    requires
        is_written(w),
    ensures
        url::scheme_of(written(w)) == (match w.scheme {
            Some(s) => s,
            None => Seq::<char>::empty(),
        }),
        url::after_scheme(written(w)) == written_server(w) + written_tail(w),
{
    reveal_strlit("://");
    let sep = "://"@;
    let u = written(w);
    let rest = written_server(w) + written_tail(w);
    assert(sep =~= seq![':', '/', '/']);
    text::find_text_is_first(u, sep, 0);
    match w.scheme {
        Some(s) => {
            let i = s.len() as int;
            assert(seq![] + s =~= s);
            assert(u =~= (s + sep) + rest);
            assert(u.subrange(i, i + 3) =~= sep);
            assert forall|j: int| 0 <= j < i implies #[trigger] u.subrange(j, j + 3) != sep by {
                if u.subrange(j, j + 3) == sep {
                    assert(u.subrange(j, j + 3)[0] == u[j]);
                    assert(u.subrange(j, j + 3)[1] == u[j + 1]);
                    assert(u.subrange(j, j + 3)[2] == u[j + 2]);
                    assert(parts_scheme(s + "://"@, j));
                }
            }
            text::first_text_is_found(u, sep, i);
            assert(u.take(i) =~= s);
            assert(u.skip(i + 3) =~= rest);
        },
        None => {
            assert(u =~= rest);
            match text::find_text(u, sep, 0) {
                Some(i) => {
                    assert(u.subrange(i, i + 3)[0] == u[i]);
                    assert(u.subrange(i, i + 3)[1] == u[i + 1]);
                    assert(u.subrange(i, i + 3)[2] == u[i + 2]);
                    assert(parts_scheme(written(w), i));
                },
                None => {},
            }
        },
    }
}

/// A URL is taken apart into what it was written from: scheme, host, port, path
/// and query are found as they were written, and user and fragment are left out.
pub proof fn written_parts_are_found(w: WrittenUrl)
    requires
        is_written(w),
    ensures
        ({
            let p = url::url_parts(written(w));
            &&& p.scheme == match w.scheme {
                Some(s) => s,
                None => Seq::<char>::empty(),
            }
            &&& p.host == w.host
            &&& p.port_raw == w.port
            &&& p.path == w.path
            &&& p.query == match w.query {
                Some(s) => s,
                None => Seq::<char>::empty(),
            }
        }),
{
    let server = written_server(w);
    let query = set_off(seq!['?'], w.query, seq![]);
    let fragment = set_off(seq!['#'], w.fragment, seq![]);
    let body = (server + w.path) + query;
    lemma_scheme_is_read(w);
    lemma_server_is_read(w);
    lemma_server_lacks(w, '/');
    lemma_server_lacks(w, '?');
    lemma_server_lacks(w, '#');
    assert(seq!['?', '#'][0] == '?' && seq!['?', '#'][1] == '#');
    lemma_lacks_one(w.path, seq!['?', '#'], '?');
    lemma_lacks_one(w.path, seq!['?', '#'], '#');
    lemma_sum_lacks_one(server, w.path, '?');
    lemma_sum_lacks_one(server, w.path, '#');
    assert(!query.contains('#')) by {
        match w.query {
            Some(s) => {
                assert(seq!['#'][0] == '#');
                lemma_lacks_one(s, seq!['#'], '#');
                lemma_sum_lacks_one(seq!['?'], s, '#');
                assert(seq!['?'] + s + seq![] =~= seq!['?'] + s);
            },
            None => {},
        }
    }
    lemma_sum_lacks_one(server + w.path, query, '#');
    assert(server + written_tail(w) =~= body + fragment);
    lemma_parted(body, fragment, '#');
    lemma_parted(server + w.path, query, '?');
    lemma_parted(server, w.path, '/');
    match w.query {
        Some(s) => {
            assert(query.skip(1) =~= s);
        },
        None => {},
    }
}

/// The port of a URL is the number that is written, and no other text is one.
pub proof fn ports_are_numbers(p: UrlParts)
    ensures
        p.port_raw is None ==> url::port_number(p) == Ok::<Option<nat>, Seq<char>>(None),
        p.port_raw matches Some(raw) ==> match text::parsed_number(raw, 0xffff_ffff) {
            Some(n) => url::port_number(p) == Ok::<Option<nat>, Seq<char>>(Some(n)),
            None => url::port_number(p) == Err::<Option<nat>, Seq<char>>(
                "Port could not be cast to integer value as '"@ + raw + "'"@,
            ),
        },
{
}

/// A URL is put together from its parts with what sets them off between them.
pub proof fn joined_parts_are_written(
    scheme: Seq<char>,
    netloc: Seq<char>,
    path: Seq<char>,
    query: Seq<char>,
)
    ensures
        ({
            let tail = if query.len() > 0 {
                "?"@ + query
            } else {
                Seq::empty()
            };
            let u = url::joined_url(scheme, netloc, path, query);
            &&& netloc.len() > 0 ==> u == scheme + "://"@ + netloc + path + tail
            &&& netloc.len() == 0 && "//"@.is_prefix_of(path) ==> u == scheme + "://"@ + path
                + tail
            &&& netloc.len() == 0 && !"//"@.is_prefix_of(path) && scheme.len() > 0 ==> u == scheme
                + ":"@ + path + tail
            &&& netloc.len() == 0 && !"//"@.is_prefix_of(path) && scheme.len() == 0 ==> u == path
                + tail
        }),
{
    let u = url::joined_url(scheme, netloc, path, query);
    if query.len() > 0 {
        if netloc.len() > 0 {
            assert(u =~= scheme + "://"@ + netloc + path + ("?"@ + query));
        } else if "//"@.is_prefix_of(path) {
            assert(u =~= scheme + "://"@ + path + ("?"@ + query));
        } else if scheme.len() > 0 {
            assert(u =~= scheme + ":"@ + path + ("?"@ + query));
        } else {
            assert(u =~= path + ("?"@ + query));
        }
    } else {
        let none = Seq::<char>::empty();
        if netloc.len() > 0 {
            assert(u =~= scheme + "://"@ + netloc + path + none);
        } else if "//"@.is_prefix_of(path) {
            assert(u =~= scheme + "://"@ + path + none);
        } else if scheme.len() > 0 {
            assert(u =~= scheme + ":"@ + path + none);
        } else {
            assert(u =~= path + none);
        }
    }
}

/// The URL with this path, followed by so many slashes, in place of its own.
pub open spec fn with_path(w: WrittenUrl, path: Seq<char>, slashes: nat) -> WrittenUrl {
    WrittenUrl { path: path + text_laws::repeated('/', slashes), ..w }
}

/// The server of a URL in its normal form.
pub open spec fn plain_server(scheme: Seq<char>, host: Seq<char>, port: Option<nat>) -> Seq<char> {
    if port is None || (scheme == "https"@ && port == Some(443nat)) {
        host
    } else {
        host + ":"@ + text::decimal(port->0)
    }
}

/// The normal form of a URL is the URL without user, without fragment and without
/// the slashes at the end of its path, with scheme and host in lower case and the
/// port as a plain number, which is left out where it is that of `https`. The path
/// is otherwise kept whole, and the query too; a path of which nothing is left is
/// `/`.
pub proof fn normal_form_is_written_out(w: WrittenUrl, path: Seq<char>, slashes: nat, port: Option<nat>)
    requires
        is_written(with_path(w, path, slashes)),
        path.len() > 0 ==> path.last() != '/',
        match w.port {
            Some(raw) => port is Some && text::parsed_number(raw, 0xffff_ffff) == port,
            None => port is None,
        },
        text::lowercase(w.host).len() > 0,
    ensures
        ({
            let scheme = match w.scheme {
                Some(s) => text::lowercase(s),
                None => text::lowercase(Seq::empty()),
            };
            url::normal_form(written(with_path(w, path, slashes))) == Ok::<Seq<char>, Seq<char>>(
                scheme + "://"@ + plain_server(scheme, text::lowercase(w.host), port) + (if path.len()
                    == 0 {
                    "/"@
                } else {
                    path
                }) + query_tail(w.query),
            )
        }),
{
    let x = with_path(w, path, slashes);
    let p = url::url_parts(written(x));
    let scheme = text::lowercase(p.scheme);
    written_parts_are_found(x);
    ports_are_numbers(p);
    text_laws::stripping_takes_off_the_end(path, '/', slashes);
    assert(url::normal_netloc(scheme, text::lowercase(p.host), port) == plain_server(
        scheme,
        text::lowercase(w.host),
        port,
    ));
    joined_parts_are_written(
        scheme,
        plain_server(scheme, text::lowercase(w.host), port),
        url::normal_path(p.path),
        p.query,
    );
}

/// A URL without a host has the normal form of its scheme, port, path and query:
/// the server is left out where nothing is left of it.
pub proof fn normal_form_without_host(w: WrittenUrl, path: Seq<char>, slashes: nat, port: Option<nat>)
    requires
        is_written(with_path(w, path, slashes)),
        path.len() > 0 ==> path.last() != '/',
        match w.port {
            Some(raw) => port is Some && text::parsed_number(raw, 0xffff_ffff) == port,
            None => port is None,
        },
        w.host.len() == 0,
    ensures
        ({
            let scheme = match w.scheme {
                Some(s) => text::lowercase(s),
                None => text::lowercase(Seq::empty()),
            };
            let left = if path.len() == 0 {
                "/"@
            } else {
                path
            };
            let tail = query_tail(w.query);
            url::normal_form(written(with_path(w, path, slashes))) == Ok::<Seq<char>, Seq<char>>(
                if port is Some && !(scheme == "https"@ && port == Some(443nat)) {
                    scheme + "://"@ + (":"@ + text::decimal(port->0)) + left + tail
                } else if "//"@.is_prefix_of(left) {
                    scheme + "://"@ + left + tail
                } else if scheme.len() > 0 {
                    scheme + ":"@ + left + tail
                } else {
                    left + tail
                },
            )
        }),
{
    reveal_strlit(":");
    let x = with_path(w, path, slashes);
    let p = url::url_parts(written(x));
    let scheme = text::lowercase(p.scheme);
    let host = text::lowercase(p.host);
    written_parts_are_found(x);
    ports_are_numbers(p);
    text_laws::stripping_takes_off_the_end(path, '/', slashes);
    text_laws::lowercase_goes_letter_by_letter(p.host);
    assert(host =~= Seq::<char>::empty());
    if port is Some && !(scheme == "https"@ && port == Some(443nat)) {
        assert(url::normal_netloc(scheme, host, port) =~= ":"@ + text::decimal(port->0));
    }
    joined_parts_are_written(
        scheme,
        url::normal_netloc(scheme, host, port),
        url::normal_path(p.path),
        p.query,
    );
}

/// A URL has no normal form where its port is not a number, and the message tells
/// that port.
pub proof fn bad_port_is_told(w: WrittenUrl, raw: Seq<char>)
    requires
        is_written(w),
        w.port == Some(raw),
        text::parsed_number(raw, 0xffff_ffff) is None,
    ensures
        url::normal_form(written(w)) == Err::<Seq<char>, Seq<char>>(
            "Port could not be cast to integer value as '"@ + raw + "'"@,
        ),
{
    written_parts_are_found(w);
    ports_are_numbers(url::url_parts(written(w)));
}

/// The path is kept: the path of a URL is the path of its normal form and some
/// slashes, unless it is made of slashes alone.
pub proof fn path_is_kept(path: Seq<char>)
    ensures
        path.len() > 0 && path.last() != '/' ==> url::normal_path(path) == path,
        forall|i: int| 0 <= i < path.len() && path[i] != '/' ==> {
            &&& i < url::normal_path(path).len() <= path.len()
            &&& #[trigger] url::normal_path(path)[i] == path[i]
        },
        (forall|i: int| 0 <= i < path.len() ==> path[i] == '/') ==> url::normal_path(path) == "/"@,
        (exists|i: int| 0 <= i < path.len() && path[i] != '/') ==> path == url::normal_path(path)
            + text_laws::repeated('/', (path.len() - url::normal_path(path).len()) as nat),
{
    let r = text::stripped_end(path, '/');
    text_laws::stripped_text_is_the_beginning(path, '/');
    let rest = text_laws::repeated('/', (path.len() - r.len()) as nat);
    if forall|i: int| 0 <= i < path.len() ==> path[i] == '/' {
        if r.len() > 0 {
            assert(path[r.len() - 1] == r.last());
        }
    }
    assert forall|i: int| 0 <= i < path.len() && path[i] != '/' implies {
        &&& i < url::normal_path(path).len() <= path.len()
        &&& #[trigger] url::normal_path(path)[i] == path[i]
    } by {
        if i >= r.len() {
            assert((r + rest)[i] == '/');
        }
        assert((r + rest)[i] == r[i]);
    }
    if path.len() > 0 && path.last() != '/' && r.len() < path.len() {
        assert((r + rest).last() == '/');
    }
    if path.len() > 0 && path.last() != '/' {
        assert(r =~= path);
    }
}

proof fn lemma_tails_differ(
    head: Seq<char>,
    p: Seq<char>,
    x: Seq<char>,
    q: Seq<char>,
    y: Seq<char>,
)
    requires
        !p.contains('?'),
        !q.contains('?'),
        x.len() > 0 ==> x[0] == '?',
        y.len() > 0 ==> y[0] == '?',
        head + p + x == head + q + y,
    ensures
        p == q,
        x == y,
{
    assert((head + p + x).skip(head.len() as int) =~= p + x);
    assert((head + q + y).skip(head.len() as int) =~= q + y);
    lemma_parted(p, x, '?');
    lemma_parted(q, y, '?');
}

/// A query with its question mark, where there is one that is not empty.
pub open spec fn query_tail(query: Option<Seq<char>>) -> Seq<char> {
    match query {
        Some(q) => if q.len() > 0 {
            "?"@ + q
        } else {
            Seq::empty()
        },
        None => Seq::empty(),
    }
}

proof fn lemma_query_tails(a: Option<Seq<char>>, b: Option<Seq<char>>)
    ensures
        query_tail(a).len() > 0 ==> query_tail(a)[0] == '?',
        a is Some && b is Some && query_tail(a) == query_tail(b) ==> a == b,
{
    reveal_strlit("?");
    if a is Some && b is Some && query_tail(a) == query_tail(b) {
        let x = a->0;
        let y = b->0;
        if x.len() > 0 && y.len() > 0 {
            assert(query_tail(a).skip(1) =~= x);
            assert(query_tail(b).skip(1) =~= y);
        } else {
            assert(x =~= y);
        }
    }
}

proof fn lemma_path_lacks_mark(w: WrittenUrl, path: Seq<char>, slashes: nat)
    requires
        is_written(with_path(w, path, slashes)),
    ensures
        !(if path.len() == 0 {
            "/"@
        } else {
            path
        }).contains('?'),
{
    reveal_strlit("/");
    let x = with_path(w, path, slashes).path;
    assert(seq!['?', '#'][0] == '?');
    lemma_lacks_one(x, seq!['?', '#'], '?');
    if path.contains('?') {
        let i = path.index_of('?');
        assert(x[i] == '?');
    }
}

/// Paths are told apart: two URLs with the same scheme, host and port whose paths
/// differ in more than slashes at the end have different normal forms, whatever
/// their queries are. So do two with the same path and different queries.
pub proof fn different_paths_stay_different(
    w: WrittenUrl,
    path1: Seq<char>,
    slashes1: nat,
    path2: Seq<char>,
    slashes2: nat,
    query2: Option<Seq<char>>,
    port: Option<nat>,
)
    requires
        is_written(with_path(w, path1, slashes1)),
        is_written(with_path(WrittenUrl { query: query2, ..w }, path2, slashes2)),
        path1.len() > 0 ==> path1.last() != '/',
        path2.len() > 0 ==> path2.last() != '/',
        match w.port {
            Some(raw) => port is Some && text::parsed_number(raw, 0xffff_ffff) == port,
            None => port is None,
        },
        text::lowercase(w.host).len() > 0,
        path1 != path2 || (w.query != query2 && w.query is Some && query2 is Some),
    ensures
        url::normal_form(written(with_path(w, path1, slashes1))) != url::normal_form(
            written(with_path(WrittenUrl { query: query2, ..w }, path2, slashes2)),
        ),
{
    let v = WrittenUrl { query: query2, ..w };
    normal_form_is_written_out(w, path1, slashes1, port);
    normal_form_is_written_out(v, path2, slashes2, port);
    lemma_path_lacks_mark(w, path1, slashes1);
    lemma_path_lacks_mark(v, path2, slashes2);
    lemma_query_tails(w.query, query2);
    lemma_query_tails(query2, w.query);
    let scheme = match w.scheme {
        Some(s) => text::lowercase(s),
        None => text::lowercase(Seq::empty()),
    };
    let head = scheme + "://"@ + plain_server(scheme, text::lowercase(w.host), port);
    let p1 = if path1.len() == 0 {
        "/"@
    } else {
        path1
    };
    let p2 = if path2.len() == 0 {
        "/"@
    } else {
        path2
    };
    let t1 = query_tail(w.query);
    let t2 = query_tail(query2);
    assert(p1 != p2 || t1 != t2) by {
        reveal_strlit("/");
        if path1 != path2 && p1 == p2 {
            if path1.len() == 0 && path2.len() == 0 {
                assert(path1 =~= path2);
            } else if path1.len() == 0 {
                assert(path2.last() == '/');
            } else if path2.len() == 0 {
                assert(path1.last() == '/');
            }
        }
    }
    assert(head + p1 + t1 != head + p2 + t2) by {
        if head + p1 + t1 == head + p2 + t2 {
            lemma_tails_differ(head, p1, t1, p2, t2);
        }
    }
}

/// The model of a split URL keeps every part of it.
pub proof fn split_models_keep_all_parts(p: SplitResult)
    ensures
        p@.scheme == p.scheme@,
        p@.host == p.host@,
        p@.port_raw is Some <==> p.port_raw is Some,
        p.port_raw matches Some(raw) ==> p@.port_raw == Some(raw@),
        p@.path == p.path@,
        p@.query == p.query@,
{
}

}
