//! Splitting URLs into their parts and bringing them into a normal form, by
//! which two links to the same place are told to be the same.
use crate::text;
use crate::text::{chars_of, find, find_str, parse_number, rfind, string_of, strip_end, to_decimal, to_lower};
use vstd::prelude::*;
use vstd::slice::slice_subrange;

verus! {

/// What is wrong with the port of a URL.
#[derive(Debug, PartialEq, Eq)]
pub struct ValueError(pub String);

impl Clone for ValueError {
    fn clone(&self) -> (e: Self)
        ensures
            e == *self,
    {
        ValueError(self.0.clone())
    }
}

impl ValueError {
    /// The message.
    pub fn to_string(&self) -> (s: String)
        ensures
            s@ == self.0@,
    {
        self.0.clone()
    }
}

/// The parts of a URL `scheme://user@host:port/path?query#fragment` that its
/// normal form is made of. The port is kept as it is written.
pub struct SplitResult {
    pub scheme: String,
    pub host: String,
    pub port_raw: Option<String>,
    pub path: String,
    pub query: String,
}

/// The model of a `SplitResult`.
pub struct UrlParts {
    pub scheme: Seq<char>,
    pub host: Seq<char>,
    pub port_raw: Option<Seq<char>>,
    pub path: Seq<char>,
    pub query: Seq<char>,
}

impl View for SplitResult {
    type V = UrlParts;

    open spec fn view(&self) -> UrlParts {
        UrlParts {
            scheme: self.scheme@,
            host: self.host@,
            port_raw: match self.port_raw {
                Some(raw) => Some(raw@),
                None => None,
            },
            path: self.path@,
            query: self.query@,
        }
    }
}

/// The scheme: what stands before the first `://`, if anything.
pub open spec fn scheme_of(url: Seq<char>) -> Seq<char> {
    match text::find_text(url, "://"@, 0) {
        Some(i) => url.take(i),
        None => Seq::empty(),
    }
}

/// What follows the scheme.
pub open spec fn after_scheme(url: Seq<char>) -> Seq<char> {
    match text::find_text(url, "://"@, 0) {
        Some(i) => url.skip(i + 3),
        None => url,
    }
}

/// The host and the port as they stand in the part before the path, without
/// the user.
pub open spec fn host_port(netloc: Seq<char>) -> Seq<char> {
    match text::after_last(netloc, '@') {
        Some(rest) => rest,
        None => netloc,
    }
}

/// The parts of a URL.
pub open spec fn url_parts(url: Seq<char>) -> UrlParts {
    let body = text::before(after_scheme(url), '#');
    let hierarchy = text::before(body, '?');
    let netloc = text::before(hierarchy, '/');
    UrlParts {
        scheme: scheme_of(url),
        host: text::before_last(host_port(netloc), ':'),
        port_raw: text::after_last(host_port(netloc), ':'),
        path: text::starting_at(hierarchy, '/'),
        query: text::after(body, '?'),
    }
}

/// What is said of a port that is not a number.
pub open spec fn port_message(raw: Seq<char>) -> Seq<char> {
    "Port could not be cast to integer value as '"@ + raw + "'"@
}

/// The number of the port, where the URL gives one, or what is wrong with it.
pub open spec fn port_number(parts: UrlParts) -> Result<Option<nat>, Seq<char>> {
    match parts.port_raw {
        None => Ok(None),
        Some(raw) => match text::parsed_number(raw, u32::MAX as nat) {
            Some(n) => Ok(Some(n)),
            None => Err(port_message(raw)),
        },
    }
}

/// Host and port as they stand in the normal form: the port of `https` is left
/// out.
pub open spec fn normal_netloc(scheme: Seq<char>, host: Seq<char>, port: Option<nat>) -> Seq<char> {
    match port {
        Some(n) => if scheme == "https"@ && n == 443 {
            host
        } else {
            host + ":"@ + text::decimal(n)
        },
        None => host,
    }
}

/// The path as it stands in the normal form: without slashes at its end, and
/// `/` where nothing else is left.
pub open spec fn normal_path(path: Seq<char>) -> Seq<char> {
    let stripped = text::stripped_end(path, '/');
    if stripped.len() == 0 {
        "/"@
    } else {
        stripped
    }
}

/// A URL put together from its parts.
pub open spec fn joined_url(
    scheme: Seq<char>,
    netloc: Seq<char>,
    path: Seq<char>,
    query: Seq<char>,
) -> Seq<char> {
    let hierarchy = if netloc.len() > 0 || "//"@.is_prefix_of(path) {
        scheme + "://"@ + netloc + path
    } else if scheme.len() > 0 {
        scheme + ":"@ + path
    } else {
        path
    };
    if query.len() > 0 {
        hierarchy + "?"@ + query
    } else {
        hierarchy
    }
}

/// The normal form of a URL, or what is wrong with its port.
pub open spec fn normal_form(url: Seq<char>) -> Result<Seq<char>, Seq<char>> {
    let parts = url_parts(url);
    let scheme = text::lowercase(parts.scheme);
    match port_number(parts) {
        Err(message) => Err(message),
        Ok(port) => Ok(
            joined_url(
                scheme,
                normal_netloc(scheme, text::lowercase(parts.host), port),
                normal_path(parts.path),
                parts.query,
            ),
        ),
    }
}

impl SplitResult {
    /// The host in lower case.
    pub fn hostname(&self) -> (host: String)
        ensures
            host@ == text::lowercase(self@.host),
            host@.len() == 0 <==> self@.host.len() == 0,
    {
        to_lower(self.host.as_str())
    }

    /// The number of the port.
    pub fn port(&self) -> (r: Result<Option<u32>, ValueError>)
        ensures
            match r {
                Ok(None) => port_number(self@) == Ok::<Option<nat>, Seq<char>>(None),
                Ok(Some(n)) => port_number(self@) == Ok::<Option<nat>, Seq<char>>(Some(n as nat)),
                Err(e) => port_number(self@) == Err::<Option<nat>, Seq<char>>(e.0@),
            },
    {
        match &self.port_raw {
            None => Ok(None),
            Some(raw) => {
                let cs = chars_of(raw.as_str());
                match parse_number(cs.as_slice(), u32::MAX) {
                    Some(n) => Ok(Some(n)),
                    None => {
                        let mut message = String::new();
                        message.append("Port could not be cast to integer value as '");
                        message.append(raw.as_str());
                        message.append("'");
                        assert(message@ =~= port_message(raw@));
                        Err(ValueError(message))
                    },
                }
            },
        }
    }
}

/// Splits a URL into its parts.
pub fn urlsplit(url: &str) -> (parts: SplitResult)
    ensures
        parts@ == url_parts(url@),
{
    let all = chars_of(url);
    let all = all.as_slice();
    proof {
        reveal_strlit("://");
    }
    let (scheme, rest) = match find_str(all, "://") {
        Some(i) => {
            assert(all@.subrange(0, i as int) =~= all@.take(i as int));
            assert(all@.subrange(i + 3, all@.len() as int) =~= all@.skip(i + 3));
            (string_of(slice_subrange(all, 0, i)), slice_subrange(all, i + 3, all.len()))
        },
        None => (String::new(), all),
    };
    let body = match find(rest, '#') {
        Some(i) => {
            assert(rest@.subrange(0, i as int) =~= rest@.take(i as int));
            slice_subrange(rest, 0, i)
        },
        None => rest,
    };
    let (hierarchy, query) = match find(body, '?') {
        Some(i) => {
            assert(body@.subrange(0, i as int) =~= body@.take(i as int));
            assert(body@.subrange(i + 1, body@.len() as int) =~= body@.skip(i + 1));
            (slice_subrange(body, 0, i), string_of(slice_subrange(body, i + 1, body.len())))
        },
        None => (body, String::new()),
    };
    let (netloc, path) = match find(hierarchy, '/') {
        Some(i) => {
            assert(hierarchy@.subrange(0, i as int) =~= hierarchy@.take(i as int));
            assert(hierarchy@.subrange(i as int, hierarchy@.len() as int) =~= hierarchy@.skip(
                i as int,
            ));
            (
                slice_subrange(hierarchy, 0, i),
                string_of(slice_subrange(hierarchy, i, hierarchy.len())),
            )
        },
        None => (hierarchy, String::new()),
    };
    let server = match rfind(netloc, '@') {
        Some(i) => {
            assert(netloc@.subrange(i + 1, netloc@.len() as int) =~= netloc@.skip(i + 1));
            slice_subrange(netloc, i + 1, netloc.len())
        },
        None => netloc,
    };
    let (host, port_raw) = match rfind(server, ':') {
        Some(i) => {
            assert(server@.subrange(0, i as int) =~= server@.take(i as int));
            assert(server@.subrange(i + 1, server@.len() as int) =~= server@.skip(i + 1));
            (
                string_of(slice_subrange(server, 0, i)),
                Some(string_of(slice_subrange(server, i + 1, server.len()))),
            )
        },
        None => (string_of(server), None),
    };
    SplitResult { scheme, host, port_raw, path, query }
}

/// Puts a URL together from its parts.
pub fn urlunsplit(scheme: &str, netloc: &str, path: &str, query: &str) -> (url: String)
    ensures
        url@ == joined_url(scheme@, netloc@, path@, query@),
{
    let mut url = String::new();
    let path_chars = chars_of(path);
    if !netloc.is_empty() || text::starts_with(path_chars.as_slice(), "//") {
        url.append(scheme);
        url.append("://");
        url.append(netloc);
        url.append(path);
        assert(url@ =~= scheme@ + "://"@ + netloc@ + path@);
    } else if !scheme.is_empty() {
        url.append(scheme);
        url.append(":");
        url.append(path);
        assert(url@ =~= scheme@ + ":"@ + path@);
    } else {
        url.append(path);
        assert(url@ =~= path@);
    }
    if !query.is_empty() {
        url.append("?");
        url.append(query);
    }
    url
}

/// Brings a URL into its normal form: scheme and host in lower case, no
/// fragment, the query as it is, no slash at the end of the path unless the
/// path is `/`, and no port `443` for `https`. A port that is not a number is an
/// error.
pub fn normalize_url(url: &str) -> (r: Result<String, ValueError>)
    ensures
        match r {
            Ok(normal) => normal_form(url@) == Ok::<Seq<char>, Seq<char>>(normal@),
            Err(e) => normal_form(url@) == Err::<Seq<char>, Seq<char>>(e.0@),
        },
        r is Ok && url_parts(url@).host.len() > 0 ==> text::lowercase(url_parts(url@).host).len()
            > 0,
{
    let parts = urlsplit(url);
    let mut netloc = parts.hostname();
    let port = match parts.port() {
        Ok(port) => port,
        Err(e) => return Err(e),
    };
    let scheme = to_lower(parts.scheme.as_str());
    if let Some(n) = port {
        if !(text::same_text(scheme.as_str(), "https") && n == 443) {
            netloc.append(":");
            netloc.append(to_decimal(n as usize).as_str());
        }
    }
    let path_chars = chars_of(parts.path.as_str());
    let stripped = strip_end(path_chars.as_slice(), '/');
    let path = if stripped.len() == 0 {
        String::from_str("/")
    } else {
        string_of(stripped)
    };
    Ok(urlunsplit(scheme.as_str(), netloc.as_str(), path.as_str(), parts.query.as_str()))
}

}
