//! What a README says: its sections, categories and resources, line by line, and
//! what is wrong with them.
use crate::pattern;
use crate::pattern::EntryParts;
use crate::text;
use crate::url;
use vstd::prelude::*;

verus! {

/// A resource entry of a README, with the section and the category that it
/// stands in.
#[derive(Debug, PartialEq, Eq)]
pub struct Resource {
    pub line: usize,
    pub section: String,
    pub category: String,
    pub title: String,
    pub url: String,
    pub description: String,
}

impl Clone for Resource {
    fn clone(&self) -> (r: Self)
        ensures
            r == *self,
    {
        Resource {
            line: self.line,
            section: self.section.clone(),
            category: self.category.clone(),
            title: self.title.clone(),
            url: self.url.clone(),
            description: self.description.clone(),
        }
    }
}

/// The model of a `Resource`.
pub struct ResourceView {
    pub line: nat,
    pub section: Seq<char>,
    pub category: Seq<char>,
    pub title: Seq<char>,
    pub url: Seq<char>,
    pub description: Seq<char>,
}

impl View for Resource {
    type V = ResourceView;

    open spec fn view(&self) -> ResourceView {
        ResourceView {
            line: self.line as nat,
            section: self.section@,
            category: self.category@,
            title: self.title@,
            url: self.url@,
            description: self.description@,
        }
    }
}

/// The models of resources.
pub open spec fn resource_views(v: Seq<Resource>) -> Seq<ResourceView> {
    v.map_values(|r: Resource| r@)
}

/// `s` followed by the item, where there is one.
pub open spec fn push_some<A>(s: Seq<A>, item: Option<A>) -> Seq<A> {
    match item {
        Some(a) => s.push(a),
        None => s,
    }
}

/// What a line of a README is.
pub enum Line {
    /// `## name`
    Section(Seq<char>),
    /// `### name`
    Category(Seq<char>),
    /// `- [title](url): description`
    Entry(EntryParts),
    /// A line that starts like an entry and is none.
    Malformed,
    /// Anything else.
    Prose,
}

/// What a line is. The names of sections and categories are given without the
/// white space around them.
pub open spec fn line_kind(line: Seq<char>) -> Line {
    if "## "@.is_prefix_of(line) {
        Line::Section(text::trimmed(line.skip(3)))
    } else if "### "@.is_prefix_of(line) {
        Line::Category(text::trimmed(line.skip(4)))
    } else if pattern::is_link_line(line) {
        match pattern::entry_parts(line) {
            Some(parts) => Line::Entry(parts),
            None => Line::Malformed,
        }
    } else {
        Line::Prose
    }
}

/// The section that line `n` stands in: the last one named before it.
pub open spec fn section_at(lines: Seq<Seq<char>>, n: int) -> Seq<char>
    decreases n,
{
    if n <= 0 {
        Seq::empty()
    } else {
        match line_kind(lines[n - 1]) {
            Line::Section(name) => name,
            _ => section_at(lines, n - 1),
        }
    }
}

/// The category that line `n` stands in: the last one named before it in its
/// section.
pub open spec fn category_at(lines: Seq<Seq<char>>, n: int) -> Seq<char>
    decreases n,
{
    if n <= 0 {
        Seq::empty()
    } else {
        match line_kind(lines[n - 1]) {
            Line::Section(_) => Seq::empty(),
            Line::Category(name) => name,
            _ => category_at(lines, n - 1),
        }
    }
}

/// The resource on line `n`: an entry inside a category. Lines are numbered
/// from one.
pub open spec fn resource_at(lines: Seq<Seq<char>>, n: int) -> Option<ResourceView> {
    match line_kind(lines[n]) {
        Line::Entry(parts) => if category_at(lines, n).len() > 0 {
            Some(
                ResourceView {
                    line: (n + 1) as nat,
                    section: section_at(lines, n),
                    category: category_at(lines, n),
                    title: text::trimmed(parts.title),
                    url: parts.url,
                    description: text::trimmed(parts.description),
                },
            )
        } else {
            None
        },
        _ => None,
    }
}

/// The resources on the first `n` lines, in their order.
pub open spec fn resources_upto(lines: Seq<Seq<char>>, n: int) -> Seq<ResourceView>
    decreases n,
{
    if n <= 0 {
        Seq::empty()
    } else {
        push_some(resources_upto(lines, n - 1), resource_at(lines, n - 1))
    }
}

/// A message about a line.
pub open spec fn about_line(line: nat, what: Seq<char>) -> Seq<char> {
    "line "@ + text::decimal(line) + ": "@ + what
}

/// What is wrong with line `n` by itself.
pub open spec fn error_at(lines: Seq<Seq<char>>, n: int) -> Option<Seq<char>> {
    match line_kind(lines[n]) {
        Line::Malformed => Some(about_line((n + 1) as nat, "malformed resource entry"@)),
        Line::Entry(parts) => if category_at(lines, n).len() == 0 {
            Some(about_line((n + 1) as nat, "resource is outside a level-three category"@))
        } else if parts.description.last() != '.' {
            Some(about_line((n + 1) as nat, "description must end with a period"@))
        } else {
            None
        },
        _ => None,
    }
}

/// What is wrong with the first `n` lines by themselves, in their order.
pub open spec fn line_errors_upto(lines: Seq<Seq<char>>, n: int) -> Seq<Seq<char>>
    decreases n,
{
    if n <= 0 {
        Seq::empty()
    } else {
        push_some(line_errors_upto(lines, n - 1), error_at(lines, n - 1))
    }
}

/// A category and the section that it belongs to.
pub struct CategoryKey {
    pub section: Seq<char>,
    pub name: Seq<char>,
}

/// The category that line `n` names.
pub open spec fn heading_at(lines: Seq<Seq<char>>, n: int) -> Option<CategoryKey> {
    match line_kind(lines[n]) {
        Line::Category(name) => Some(CategoryKey { section: section_at(lines, n), name }),
        _ => None,
    }
}

/// The categories that the first `n` lines name, each once, in the order in
/// which they first appear.
pub open spec fn categories_upto(lines: Seq<Seq<char>>, n: int) -> Seq<CategoryKey>
    decreases n,
{
    if n <= 0 {
        Seq::empty()
    } else {
        let before = categories_upto(lines, n - 1);
        match heading_at(lines, n - 1) {
            Some(key) => if before.contains(key) {
                before
            } else {
                before.push(key)
            },
            None => before,
        }
    }
}

/// The last of the first `n` lines that names the category, or `-1`.
pub open spec fn last_heading(lines: Seq<Seq<char>>, key: CategoryKey, n: int) -> int
    decreases n,
{
    if n <= 0 {
        -1
    } else if heading_at(lines, n - 1) == Some(key) {
        n - 1
    } else {
        last_heading(lines, key, n - 1)
    }
}

/// Whether line `i` is a resource of the category.
pub open spec fn is_resource_of(lines: Seq<Seq<char>>, i: int, key: CategoryKey) -> bool {
    match resource_at(lines, i) {
        Some(r) => r.section == key.section && r.category == key.name,
        None => false,
    }
}

/// Whether some resource of the category stands after its last heading within
/// the first `n` lines.
pub open spec fn is_populated(lines: Seq<Seq<char>>, key: CategoryKey, n: int) -> bool {
    exists|i: int|
        last_heading(lines, key, n) < i < n && #[trigger] is_resource_of(lines, i, key)
}

/// What is said of a category without resources.
pub open spec fn empty_category_message(line: nat, key: CategoryKey) -> Seq<char> {
    let location = if key.section.len() == 0 {
        Seq::empty()
    } else {
        " in section '"@ + key.section + "'"@
    };
    about_line(line, "category '"@ + key.name + "'"@ + location + " has no resources"@)
}

/// What is wrong with the first `k` categories.
pub open spec fn category_errors_upto(lines: Seq<Seq<char>>, k: int) -> Seq<Seq<char>>
    decreases k,
{
    if k <= 0 {
        Seq::empty()
    } else {
        let n = lines.len() as int;
        let key = categories_upto(lines, n)[k - 1];
        let before = category_errors_upto(lines, k - 1);
        if is_populated(lines, key, n) {
            before
        } else {
            before.push(empty_category_message((last_heading(lines, key, n) + 1) as nat, key))
        }
    }
}

/// The first of the first `n` resources whose title is `key` in lower case.
pub open spec fn first_with_title(rs: Seq<ResourceView>, key: Seq<char>, n: int) -> Option<int>
    decreases n,
{
    if n <= 0 {
        None
    } else {
        match first_with_title(rs, key, n - 1) {
            Some(i) => Some(i),
            None => if text::lowercase(rs[n - 1].title) == key {
                Some(n - 1)
            } else {
                None
            },
        }
    }
}

/// The first of the first `n` resources whose URL has the normal form `key`.
pub open spec fn first_with_url(rs: Seq<ResourceView>, key: Seq<char>, n: int) -> Option<int>
    decreases n,
{
    if n <= 0 {
        None
    } else {
        match first_with_url(rs, key, n - 1) {
            Some(i) => Some(i),
            None => if url::normal_form(rs[n - 1].url) == Ok::<Seq<char>, Seq<char>>(key) {
                Some(n - 1)
            } else {
                None
            },
        }
    }
}

/// What is said of a value that an earlier line has too.
pub open spec fn duplicate_message(
    line: nat,
    what: Seq<char>,
    value: Seq<char>,
    first: nat,
) -> Seq<char> {
    about_line(
        line,
        "duplicate "@ + what + " '"@ + value + "' (first used on line "@ + text::decimal(first)
            + ")"@,
    )
}

/// What is said of a URL that has no normal form.
pub open spec fn invalid_url_message(line: nat, url: Seq<char>, why: Seq<char>) -> Seq<char> {
    about_line(line, "invalid URL '"@ + url + "' ("@ + why + ")"@)
}

/// What is wrong with the title of resource `i`: an earlier one has it too,
/// but for the case of letters.
pub open spec fn title_error(rs: Seq<ResourceView>, i: int) -> Option<Seq<char>> {
    match first_with_title(rs, text::lowercase(rs[i].title), i) {
        Some(j) => Some(duplicate_message(rs[i].line, "title"@, rs[i].title, rs[j].line)),
        None => None,
    }
}

/// What is wrong with the URL of resource `i`: it has no normal form, or an
/// earlier URL has the same.
pub open spec fn url_error(rs: Seq<ResourceView>, i: int) -> Option<Seq<char>> {
    match url::normal_form(rs[i].url) {
        Err(why) => Some(invalid_url_message(rs[i].line, rs[i].url, why)),
        Ok(key) => match first_with_url(rs, key, i) {
            Some(j) => Some(duplicate_message(rs[i].line, "URL"@, rs[i].url, rs[j].line)),
            None => None,
        },
    }
}

/// What is wrong with the titles and URLs of the first `n` resources.
pub open spec fn resource_errors_upto(rs: Seq<ResourceView>, n: int) -> Seq<Seq<char>>
    decreases n,
{
    if n <= 0 {
        Seq::empty()
    } else {
        push_some(
            push_some(resource_errors_upto(rs, n - 1), title_error(rs, n - 1)),
            url_error(rs, n - 1),
        )
    }
}

/// The lines of a text.
pub open spec fn lines_of(text: Seq<char>) -> Seq<Seq<char>> {
    text::pieces(text, '\n')
}

/// The resources that a README lists.
pub open spec fn resources_of(text: Seq<char>) -> Seq<ResourceView> {
    resources_upto(lines_of(text), lines_of(text).len() as int)
}

/// The categories that a README names.
pub open spec fn categories_of(text: Seq<char>) -> Seq<CategoryKey> {
    categories_upto(lines_of(text), lines_of(text).len() as int)
}

/// What is wrong with a README: first with its lines, then with its
/// categories, then with its resources.
pub open spec fn errors_of(text: Seq<char>) -> Seq<Seq<char>> {
    line_errors_upto(lines_of(text), lines_of(text).len() as int) + category_errors_upto(
        lines_of(text),
        categories_of(text).len() as int,
    ) + resource_errors_upto(resources_of(text), resources_of(text).len() as int)
}

}
