//! The two line patterns of a resource list and what they recognise.
use crate::text;
use regex::Regex;
use vstd::prelude::*;

verus! {

/// A whole resource entry: `- [title](https://url): description`.
pub const RESOURCE_PATTERN: &'static str = r"^- \[([^\]]+)]\((https://[^)\s]+)\): (.+)$";

/// The start of a line that is meant to be a resource entry.
pub const LINK_PATTERN: &'static str = r"^- \[";

/// The compiled regular expressions of the `regex` crate.
#[verifier::external_type_specification]
#[verifier::external_body]
pub struct ExRegex(Regex);

/// The text that a regular expression was compiled from, as `Regex::as_str`
/// gives it. That text does not tell the flags that a builder may set; here
/// every regular expression comes from `compile`, which sets none.
pub uninterp spec fn regex_source(re: Regex) -> Seq<char>;

/// Calls `Regex::new` on one of the two patterns, both of which are well
/// formed and small. The result is the compiled form of that pattern.
#[verifier::external_body]
fn compile(pattern: &str) -> (re: Regex)
    requires
        pattern@ == RESOURCE_PATTERN@ || pattern@ == LINK_PATTERN@,
    ensures
        regex_source(re) == pattern@,
{
    Regex::new(pattern).unwrap()
}

/// Calls `Regex::is_match` with the start pattern, which is anchored and holds
/// nothing but literal characters: it matches exactly the texts that begin with
/// those characters.
#[verifier::external_body]
pub(crate) fn is_link(re: &Regex, line: &str) -> (found: bool)
    requires
        regex_source(*re) == LINK_PATTERN@,
    ensures
        found == is_link_line(line@),
{
    re.is_match(line)
}

/// Calls `Regex::captures` with the entry pattern and hands out its three
/// groups. The pattern is anchored on both sides, `[^\]]` is any character but
/// `]`, `[^)\s]` any but `)` and the characters of `White_Space`, and `.` any
/// but a line feed: so there is a match exactly where the text can be divided as
/// `is_entry` says, and the groups are such a division.
#[verifier::external_body]
pub(crate) fn captures<'a>(re: &Regex, line: &'a str) -> (r: Option<(&'a str, &'a str, &'a str)>)
    requires
        regex_source(*re) == RESOURCE_PATTERN@,
    ensures
        match r {
            Some((title, url, description)) => is_entry(line@, title@, url@, description@),
            None => forall|t: Seq<char>, u: Seq<char>, d: Seq<char>| !is_entry(line@, t, u, d),
        },
{
    match re.captures(line) {
        Some(found) => {
            let (_, [title, url, description]) = found.extract();
            Some((title, url, description))
        },
        None => None,
    }
}

/// The compiled entry pattern.
pub(crate) fn resource_re() -> (re: Regex)
    ensures
        regex_source(re) == RESOURCE_PATTERN@,
{
    compile(RESOURCE_PATTERN)
}

/// The compiled start pattern.
pub(crate) fn link_re() -> (re: Regex)
    ensures
        regex_source(re) == LINK_PATTERN@,
{
    compile(LINK_PATTERN)
}

/// Whether a line is meant to be a resource entry.
pub open spec fn is_link_line(line: Seq<char>) -> bool {
    "- ["@.is_prefix_of(line)
}

/// Whether `line` is the entry made of these three parts: a title without `]`,
/// an `https` URL without `)` and white space, and a description on one line,
/// none of them empty.
pub open spec fn is_entry(
    line: Seq<char>,
    title: Seq<char>,
    url: Seq<char>,
    description: Seq<char>,
) -> bool {
    &&& line == "- ["@ + title + "]("@ + url + "): "@ + description
    &&& title.len() > 0
    &&& !title.contains(']')
    &&& "https://"@.is_prefix_of(url)
    &&& url.len() > "https://"@.len()
    &&& !url.contains(')')
    &&& forall|i: int| 0 <= i < url.len() ==> !text::white_space(#[trigger] url[i])
    &&& description.len() > 0
    &&& !description.contains('\n')
}

/// The parts of a resource entry.
pub struct EntryParts {
    pub title: Seq<char>,
    pub url: Seq<char>,
    pub description: Seq<char>,
}

/// The parts of `line` where it is a resource entry.
pub open spec fn entry_parts(line: Seq<char>) -> Option<EntryParts> {
    if exists|p: EntryParts| is_entry(line, p.title, p.url, p.description) {
        Some(choose|p: EntryParts| is_entry(line, p.title, p.url, p.description))
    } else {
        None
    }
}

/// A line can be read as a resource entry in at most one way.
pub proof fn entry_is_unambiguous(line: Seq<char>, p: EntryParts, q: EntryParts)
    requires
        is_entry(line, p.title, p.url, p.description),
        is_entry(line, q.title, q.url, q.description),
    ensures
        p == q,
        entry_parts(line) == Some(p),
{
    entry_parts_agree(line, p, q);
    let r = choose|r: EntryParts| is_entry(line, r.title, r.url, r.description);
    entry_parts_agree(line, p, r);
}

proof fn entry_parts_agree(line: Seq<char>, p: EntryParts, q: EntryParts)
    requires
        is_entry(line, p.title, p.url, p.description),
        is_entry(line, q.title, q.url, q.description),
    ensures
        p == q,
{
    reveal_strlit("- [");
    reveal_strlit("](");
    reveal_strlit("): ");
    assert(line[3int + p.title.len()] == ']');
    assert(line[3int + q.title.len()] == ']');
    if p.title.len() < q.title.len() {
        assert(q.title[p.title.len() as int] == line[3int + p.title.len()]);
    }
    if q.title.len() < p.title.len() {
        assert(p.title[q.title.len() as int] == line[3int + q.title.len()]);
    }
    let a: int = 3int + p.title.len() + 2;
    assert(p.title =~= line.subrange(3, 3int + p.title.len()));
    assert(q.title =~= line.subrange(3, 3int + q.title.len()));
    assert(line[a + p.url.len()] == ')');
    assert(line[a + q.url.len()] == ')');
    if p.url.len() < q.url.len() {
        assert(q.url[p.url.len() as int] == line[a + p.url.len()]);
    }
    if q.url.len() < p.url.len() {
        assert(p.url[q.url.len() as int] == line[a + q.url.len()]);
    }
    assert(p.url =~= line.subrange(a, a + p.url.len()));
    assert(q.url =~= line.subrange(a, a + q.url.len()));
    let b: int = a + p.url.len() + 3;
    assert(p.description =~= line.subrange(b, line.len() as int));
    assert(q.description =~= line.subrange(b, line.len() as int));
}

}
