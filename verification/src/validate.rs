//! Reading a README and reporting what is wrong with it.
use crate::pattern;
use crate::pattern::{captures, is_link, link_re, resource_re, EntryParts};
use crate::readme;
use crate::readme::{CategoryKey, Line, Resource, ResourceView};
use crate::text;
use crate::text::{chars_of, same_text, split, starts_with, string_of, to_decimal, to_lower, trim};
use crate::url::normalize_url;
use regex::Regex;
use vstd::hash_map::StringHashMap;
use vstd::prelude::*;
use vstd::slice::slice_subrange;

verus! {

/// The resources of a README and what is wrong with it.
pub struct Validation {
    pub resources: Vec<Resource>,
    pub errors: Vec<String>,
    pub warnings: Vec<String>,
}

/// `line N: what`.
fn about_line(line: usize, what: &str) -> (m: String)
    ensures
        m@ == readme::about_line(line as nat, what@),
{
    let mut m = String::from_str("line ");
    m.append(to_decimal(line).as_str());
    m.append(": ");
    m.append(what);
    m
}

/// A category that was met, the line of its last heading, and whether a
/// resource has stood under that heading since.
struct CategoryRecord {
    section: String,
    name: String,
    line: usize,
    populated: bool,
}

impl CategoryRecord {
    spec fn key(self) -> CategoryKey {
        CategoryKey { section: self.section@, name: self.name@ }
    }
}

spec fn record_keys(records: Seq<CategoryRecord>) -> Seq<CategoryKey> {
    records.map_values(|r: CategoryRecord| r.key())
}

/// Finds the record of a category.
fn find_record(records: &Vec<CategoryRecord>, section: &str, name: &str) -> (r: Option<usize>)
    ensures
        match r {
            Some(i) => i < records.len() && records[i as int].section@ == section@
                && records[i as int].name@ == name@,
            None => !record_keys(records@).contains(
                CategoryKey { section: section@, name: name@ },
            ),
        },
{
    let mut i: usize = 0;
    while i < records.len()
        invariant
            i <= records.len(),
            forall|j: int|
                0 <= j < i ==> (#[trigger] records@[j]).key() != (CategoryKey {
                    section: section@,
                    name: name@,
                }),
        decreases records.len() - i,
    {
        if same_text(records[i].section.as_str(), section) && same_text(
            records[i].name.as_str(),
            name,
        ) {
            return Some(i);
        }
        i += 1;
    }
    proof {
        let key = CategoryKey { section: section@, name: name@ };
        if record_keys(records@).contains(key) {
            let j = record_keys(records@).index_of(key);
            assert(records@[j].key() == key);
        }
    }
    None
}

/// How far a README was read and what was found.
struct Scan {
    section: String,
    category: String,
    records: Vec<CategoryRecord>,
    resources: Vec<Resource>,
    errors: Vec<String>,
}

/// The records are what the first `n` lines say of their categories.
spec fn records_hold(records: Seq<CategoryRecord>, lines: Seq<Seq<char>>, n: int) -> bool {
    &&& record_keys(records) == readme::categories_upto(lines, n)
    &&& forall|j: int|
        0 <= j < records.len() ==> {
            let r = #[trigger] records[j];
            &&& r.line == readme::last_heading(lines, r.key(), n) + 1
            &&& r.populated == readme::is_populated(lines, r.key(), n)
        }
}

impl Scan {
    /// What was found is what the first `n` lines hold.
    spec fn reached(self, lines: Seq<Seq<char>>, n: int) -> bool {
        &&& self.section@ == readme::section_at(lines, n)
        &&& self.category@ == readme::category_at(lines, n)
        &&& readme::resource_views(self.resources@) == readme::resources_upto(lines, n)
        &&& text::views(self.errors@) == readme::line_errors_upto(lines, n)
        &&& records_hold(self.records@, lines, n)
    }
}

proof fn lemma_last_heading_bound(lines: Seq<Seq<char>>, key: CategoryKey, n: int)
    requires
        n >= 0,
    ensures
        -1 <= readme::last_heading(lines, key, n) < n || n == 0,
    decreases n,
{
    if n > 0 && readme::heading_at(lines, n - 1) != Some(key) {
        lemma_last_heading_bound(lines, key, n - 1);
    }
}

/// How one more line changes what is known of a category.
proof fn lemma_category_step(lines: Seq<Seq<char>>, key: CategoryKey, n: int)
    requires
        n >= 0,
    ensures
        readme::heading_at(lines, n) == Some(key) ==> readme::last_heading(lines, key, n + 1) == n
            && !readme::is_populated(lines, key, n + 1),
        readme::heading_at(lines, n) != Some(key) ==> {
            &&& readme::last_heading(lines, key, n + 1) == readme::last_heading(lines, key, n)
            &&& readme::is_populated(lines, key, n + 1) == (readme::is_populated(lines, key, n)
                || readme::is_resource_of(lines, n, key))
        },
{
    lemma_last_heading_bound(lines, key, n);
    if readme::heading_at(lines, n) != Some(key) {
        let last = readme::last_heading(lines, key, n);
        if readme::is_populated(lines, key, n) {
            let i = choose|i: int|
                last < i < n && #[trigger] readme::is_resource_of(lines, i, key);
            assert(readme::is_resource_of(lines, i, key));
        }
        if readme::is_resource_of(lines, n, key) {
            assert(last < n < n + 1);
        }
    }
}

/// A line inside a category follows a heading of that category.
proof fn lemma_category_known(lines: Seq<Seq<char>>, n: int)
    requires
        n >= 0,
        readme::category_at(lines, n).len() > 0,
    ensures
        readme::categories_upto(lines, n).contains(
            CategoryKey {
                section: readme::section_at(lines, n),
                name: readme::category_at(lines, n),
            },
        ),
    decreases n,
{
    let key = CategoryKey {
        section: readme::section_at(lines, n),
        name: readme::category_at(lines, n),
    };
    let earlier = readme::categories_upto(lines, n - 1);
    match readme::line_kind(lines[n - 1]) {
        Line::Section(_) => {},
        Line::Category(_) => {
            assert(readme::heading_at(lines, n - 1) == Some(key));
            if !earlier.contains(key) {
                assert(earlier.push(key).last() == key);
            }
        },
        _ => {
            lemma_category_known(lines, n - 1);
        },
    }
}

/// No category is listed twice.
proof fn lemma_categories_distinct(lines: Seq<Seq<char>>, n: int)
    ensures
        readme::categories_upto(lines, n).no_duplicates(),
    decreases n,
{
    if n > 0 {
        lemma_categories_distinct(lines, n - 1);
    }
}

/// A line that is neither a heading of a category nor a resource changes
/// nothing about the categories.
proof fn lemma_records_stay(records: Seq<CategoryRecord>, lines: Seq<Seq<char>>, n: int)
    requires
        n >= 0,
        records_hold(records, lines, n),
        readme::heading_at(lines, n) is None,
        readme::resource_at(lines, n) is None,
    ensures
        records_hold(records, lines, n + 1),
{
    assert forall|j: int| 0 <= j < records.len() implies {
        let r = #[trigger] records[j];
        &&& r.line == readme::last_heading(lines, r.key(), n + 1) + 1
        &&& r.populated == readme::is_populated(lines, r.key(), n + 1)
    } by {
        lemma_category_step(lines, records[j].key(), n);
    }
}

/// A heading starts the record of its category, or starts it anew.
proof fn lemma_records_after_heading(
    before: Seq<CategoryRecord>,
    after: Seq<CategoryRecord>,
    i: int,
    lines: Seq<Seq<char>>,
    n: int,
)
    requires
        n >= 0,
        records_hold(before, lines, n),
        0 <= i <= before.len(),
        i < before.len() ==> after.len() == before.len() && before[i].key() == after[i].key(),
        i == before.len() ==> after.len() == before.len() + 1 && !record_keys(before).contains(
            after[i].key(),
        ),
        forall|j: int| 0 <= j < before.len() && j != i ==> #[trigger] after[j] == before[j],
        readme::heading_at(lines, n) == Some(after[i].key()),
        after[i].line == n + 1,
        !after[i].populated,
    ensures
        records_hold(after, lines, n + 1),
{
    let key = after[i].key();
    lemma_categories_distinct(lines, n);
    if i < before.len() {
        assert(record_keys(before)[i] == key);
        assert(record_keys(after) =~= record_keys(before));
    } else {
        assert(record_keys(after) =~= record_keys(before).push(key));
    }
    assert forall|j: int| 0 <= j < after.len() implies {
        let r = #[trigger] after[j];
        &&& r.line == readme::last_heading(lines, r.key(), n + 1) + 1
        &&& r.populated == readme::is_populated(lines, r.key(), n + 1)
    } by {
        lemma_category_step(lines, after[j].key(), n);
        if j != i {
            assert(record_keys(before)[j] == before[j].key());
        }
    }
}

/// A resource fills its category.
proof fn lemma_records_after_resource(
    before: Seq<CategoryRecord>,
    after: Seq<CategoryRecord>,
    i: int,
    lines: Seq<Seq<char>>,
    n: int,
)
    requires
        n >= 0,
        records_hold(before, lines, n),
        0 <= i < before.len() == after.len(),
        after[i].key() == before[i].key(),
        after[i].line == before[i].line,
        after[i].populated,
        forall|j: int| 0 <= j < before.len() && j != i ==> #[trigger] after[j] == before[j],
        readme::is_resource_of(lines, n, after[i].key()),
    ensures
        records_hold(after, lines, n + 1),
{
    lemma_categories_distinct(lines, n);
    assert(record_keys(before)[i] == after[i].key());
    assert(record_keys(after) =~= record_keys(before));
    assert forall|j: int| 0 <= j < after.len() implies {
        let r = #[trigger] after[j];
        &&& r.line == readme::last_heading(lines, r.key(), n + 1) + 1
        &&& r.populated == readme::is_populated(lines, r.key(), n + 1)
    } by {
        lemma_category_step(lines, after[j].key(), n);
        if j != i {
            assert(record_keys(before)[j] == before[j].key());
        }
    }
}

impl Scan {
    /// Adds an error.
    fn report(&mut self, line: usize, what: &str)
        ensures
            text::views(final(self).errors@) == text::views(old(self).errors@).push(
                readme::about_line(line as nat, what@),
            ),
            final(self).section == old(self).section,
            final(self).category == old(self).category,
            final(self).records == old(self).records,
            final(self).resources == old(self).resources,
    {
        let ghost before = self.errors@;
        self.errors.push(about_line(line, what));
        assert(text::views(self.errors@) =~= text::views(before).push(self.errors@.last()@));
    }

    /// Takes in a line that names a category.
    fn read_category(&mut self, name: String, line: usize, Ghost(lines): Ghost<Seq<Seq<char>>>)
        requires
            line >= 1,
            old(self).reached(lines, line - 1),
            readme::line_kind(lines[line - 1]) == Line::Category(name@),
        ensures
            final(self).reached(lines, line as int),
    {
        let ghost before = self.records@;
        let i: usize = match find_record(&self.records, self.section.as_str(), name.as_str()) {
            Some(i) => {
                self.records[i].line = line;
                self.records[i].populated = false;
                i
            },
            None => {
                self.records.push(
                    CategoryRecord {
                        section: self.section.clone(),
                        name: name.clone(),
                        line,
                        populated: false,
                    },
                );
                self.records.len() - 1
            },
        };
        self.category = name;
        proof {
            lemma_records_after_heading(before, self.records@, i as int, lines, line - 1);
        }
    }

    /// Takes in a resource entry.
    fn read_entry(
        &mut self,
        title: &str,
        url: &str,
        description: &str,
        line: usize,
        Ghost(lines): Ghost<Seq<Seq<char>>>,
    )
        requires
            line >= 1,
            description@.len() > 0,
            old(self).reached(lines, line - 1),
            readme::line_kind(lines[line - 1]) == Line::Entry(
                EntryParts { title: title@, url: url@, description: description@ },
            ),
        ensures
            final(self).reached(lines, line as int),
    {
        if self.category.as_str().is_empty() {
            self.report(line, "resource is outside a level-three category");
            proof {
                lemma_records_stay(self.records@, lines, line - 1);
            }
            return;
        }
        let description_chars = chars_of(description);
        if description_chars[description_chars.len() - 1] != '.' {
            self.report(line, "description must end with a period");
        }
        let title_chars = chars_of(title);
        let ghost resources = self.resources@;
        self.resources.push(
            Resource {
                line,
                section: self.section.clone(),
                category: self.category.clone(),
                title: string_of(trim(title_chars.as_slice())),
                url: url.to_owned(),
                description: string_of(trim(description_chars.as_slice())),
            },
        );
        assert(readme::resource_views(self.resources@) =~= readme::resource_views(resources).push(
            self.resources@.last()@,
        ));
        let ghost before = self.records@;
        proof {
            lemma_category_known(lines, line - 1);
        }
        if let Some(i) = find_record(&self.records, self.section.as_str(), self.category.as_str()) {
            self.records[i].populated = true;
            proof {
                lemma_records_after_resource(before, self.records@, i as int, lines, line - 1);
            }
        }
    }

    /// Takes in a line.
    fn read_line(
        &mut self,
        link: &Regex,
        resource: &Regex,
        line: &str,
        number: usize,
        Ghost(lines): Ghost<Seq<Seq<char>>>,
    )
        requires
            pattern::regex_source(*link) == pattern::LINK_PATTERN@,
            pattern::regex_source(*resource) == pattern::RESOURCE_PATTERN@,
            1 <= number <= lines.len(),
            line@ == lines[number - 1],
            old(self).reached(lines, number - 1),
        ensures
            final(self).reached(lines, number as int),
    {
        let all = chars_of(line);
        let cs = all.as_slice();
        proof {
            reveal_strlit("## ");
            reveal_strlit("### ");
        }
        if starts_with(cs, "## ") {
            assert(cs@.subrange(3, cs@.len() as int) =~= line@.skip(3));
            self.section = string_of(trim(slice_subrange(cs, 3, cs.len())));
            self.category = String::new();
            proof {
                lemma_records_stay(self.records@, lines, number - 1);
            }
        } else if starts_with(cs, "### ") {
            assert(cs@.subrange(4, cs@.len() as int) =~= line@.skip(4));
            let name = string_of(trim(slice_subrange(cs, 4, cs.len())));
            self.read_category(name, number, Ghost(lines));
        } else if !is_link(link, line) {
            proof {
                lemma_records_stay(self.records@, lines, number - 1);
            }
        } else {
            match captures(resource, line) {
                Some((title, url, description)) => {
                    proof {
                        let parts = EntryParts {
                            title: title@,
                            url: url@,
                            description: description@,
                        };
                        pattern::entry_is_unambiguous(line@, parts, parts);
                    }
                    self.read_entry(title, url, description, number, Ghost(lines));
                },
                None => {
                    self.report(number, "malformed resource entry");
                    proof {
                        lemma_records_stay(self.records@, lines, number - 1);
                    }
                },
            }
        }
    }
}

/// Reports the categories without resources.
fn report_categories(
    records: &Vec<CategoryRecord>,
    errors: &mut Vec<String>,
    Ghost(lines): Ghost<Seq<Seq<char>>>,
)
    requires
        records_hold(records@, lines, lines.len() as int),
    ensures
        text::views(final(errors)@) == text::views(old(errors)@) + readme::category_errors_upto(
            lines,
            readme::categories_upto(lines, lines.len() as int).len() as int,
        ),
{
    let ghost n = lines.len() as int;
    let ghost first = text::views(errors@);
    let mut k: usize = 0;
    assert(first + readme::category_errors_upto(lines, 0) =~= first);
    while k < records.len()
        invariant
            k <= records.len(),
            n == lines.len(),
            records_hold(records@, lines, n),
            text::views(errors@) == first + readme::category_errors_upto(lines, k as int),
        decreases records.len() - k,
    {
        let ghost before = errors@;
        let ghost key = records@[k as int].key();
        assert(record_keys(records@)[k as int] == key);
        if !records[k].populated {
            let mut what = String::from_str("category '");
            what.append(records[k].name.as_str());
            what.append("'");
            if !records[k].section.as_str().is_empty() {
                what.append(" in section '");
                what.append(records[k].section.as_str());
                what.append("'");
            }
            what.append(" has no resources");
            proof {
                let location = if key.section.len() == 0 {
                    Seq::<char>::empty()
                } else {
                    " in section '"@ + key.section + "'"@
                };
                assert(what@ =~= "category '"@ + key.name + "'"@ + location + " has no resources"@);
            }
            errors.push(about_line(records[k].line, what.as_str()));
            assert(text::views(errors@) =~= text::views(before).push(errors@.last()@));
            assert(text::views(errors@) =~= first + readme::category_errors_upto(lines, k + 1));
        }
        k += 1;
    }
}

/// `m` holds, for each title of the first `n` resources in lower case, the line
/// that has it first.
spec fn titles_seen(m: Map<Seq<char>, usize>, rs: Seq<ResourceView>, n: int) -> bool {
    forall|key: Seq<char>|
        match #[trigger] readme::first_with_title(rs, key, n) {
            Some(i) => m.contains_key(key) && m[key] == rs[i].line,
            None => !m.contains_key(key),
        }
}

/// `m` holds, for each normal form of the URLs of the first `n` resources, the
/// line that has it first.
spec fn urls_seen(m: Map<Seq<char>, usize>, rs: Seq<ResourceView>, n: int) -> bool {
    forall|key: Seq<char>|
        match #[trigger] readme::first_with_url(rs, key, n) {
            Some(i) => m.contains_key(key) && m[key] == rs[i].line,
            None => !m.contains_key(key),
        }
}

/// `line N: duplicate what 'value' (first used on line M)`.
fn duplicate_message(line: usize, what: &str, value: &str, first: usize) -> (m: String)
    ensures
        m@ == readme::duplicate_message(line as nat, what@, value@, first as nat),
{
    let mut m = String::from_str("duplicate ");
    m.append(what);
    m.append(" '");
    m.append(value);
    m.append("' (first used on line ");
    m.append(to_decimal(first).as_str());
    m.append(")");
    about_line(line, m.as_str())
}

/// Reports the title of resource `i` where an earlier resource has it.
fn report_title(
    resource: &Resource,
    titles: &mut StringHashMap<usize>,
    errors: &mut Vec<String>,
    Ghost(rs): Ghost<Seq<ResourceView>>,
    Ghost(i): Ghost<int>,
)
    requires
        0 <= i < rs.len(),
        rs[i] == resource@,
        titles_seen(old(titles)@, rs, i),
    ensures
        titles_seen(final(titles)@, rs, i + 1),
        text::views(final(errors)@) == readme::push_some(
            text::views(old(errors)@),
            readme::title_error(rs, i),
        ),
{
    let key = to_lower(resource.title.as_str());
    let known = match titles.get(key.as_str()) {
        Some(first) => Some(*first),
        None => None,
    };
    match known {
        Some(first) => {
            errors.push(
                duplicate_message(resource.line, "title", resource.title.as_str(), first),
            );
            assert(text::views(errors@) =~= text::views(old(errors)@).push(errors@.last()@));
        },
        None => {
            titles.insert(key, resource.line);
        },
    }
    proof {
        assert forall|k: Seq<char>|
            match #[trigger] readme::first_with_title(rs, k, i + 1) {
                Some(j) => titles@.contains_key(k) && titles@[k] == rs[j].line,
                None => !titles@.contains_key(k),
            } by {
            let earlier = readme::first_with_title(rs, k, i);
        }
    }
}

/// Reports the URL of resource `i` where it has no normal form or an earlier
/// resource has the same.
fn report_url(
    resource: &Resource,
    urls: &mut StringHashMap<usize>,
    errors: &mut Vec<String>,
    Ghost(rs): Ghost<Seq<ResourceView>>,
    Ghost(i): Ghost<int>,
)
    requires
        0 <= i < rs.len(),
        rs[i] == resource@,
        urls_seen(old(urls)@, rs, i),
    ensures
        urls_seen(final(urls)@, rs, i + 1),
        text::views(final(errors)@) == readme::push_some(
            text::views(old(errors)@),
            readme::url_error(rs, i),
        ),
{
    let key = match normalize_url(resource.url.as_str()) {
        Ok(key) => key,
        Err(e) => {
            let mut m = String::from_str("invalid URL '");
            m.append(resource.url.as_str());
            m.append("' (");
            m.append(e.0.as_str());
            m.append(")");
            errors.push(about_line(resource.line, m.as_str()));
            assert(text::views(errors@) =~= text::views(old(errors)@).push(errors@.last()@));
            proof {
                assert forall|k: Seq<char>|
                    match #[trigger] readme::first_with_url(rs, k, i + 1) {
                        Some(j) => urls@.contains_key(k) && urls@[k] == rs[j].line,
                        None => !urls@.contains_key(k),
                    } by {
                    let earlier = readme::first_with_url(rs, k, i);
                }
            }
            return;
        },
    };
    let known = match urls.get(key.as_str()) {
        Some(first) => Some(*first),
        None => None,
    };
    match known {
        Some(first) => {
            errors.push(duplicate_message(resource.line, "URL", resource.url.as_str(), first));
            assert(text::views(errors@) =~= text::views(old(errors)@).push(errors@.last()@));
        },
        None => {
            urls.insert(key, resource.line);
        },
    }
    proof {
        assert forall|k: Seq<char>|
            match #[trigger] readme::first_with_url(rs, k, i + 1) {
                Some(j) => urls@.contains_key(k) && urls@[k] == rs[j].line,
                None => !urls@.contains_key(k),
            } by {
            let earlier = readme::first_with_url(rs, k, i);
        }
    }
}

/// Reports the titles and URLs that are invalid or used before.
fn report_resources(resources: &Vec<Resource>, errors: &mut Vec<String>)
    ensures
        text::views(final(errors)@) == text::views(old(errors)@) + readme::resource_errors_upto(
            readme::resource_views(resources@),
            resources.len() as int,
        ),
{
    let ghost rs = readme::resource_views(resources@);
    let ghost first = text::views(errors@);
    let mut titles: StringHashMap<usize> = StringHashMap::new();
    let mut urls: StringHashMap<usize> = StringHashMap::new();
    let mut i: usize = 0;
    assert(first + readme::resource_errors_upto(rs, 0) =~= first);
    while i < resources.len()
        invariant
            i <= resources.len(),
            rs == readme::resource_views(resources@),
            titles_seen(titles@, rs, i as int),
            urls_seen(urls@, rs, i as int),
            text::views(errors@) == first + readme::resource_errors_upto(rs, i as int),
        decreases resources.len() - i,
    {
        let resource = &resources[i];
        report_title(resource, &mut titles, errors, Ghost(rs), Ghost(i as int));
        report_url(resource, &mut urls, errors, Ghost(rs), Ghost(i as int));
        assert(text::views(errors@) =~= first + readme::resource_errors_upto(rs, i + 1));
        i += 1;
    }
}

/// Reads a README and reports what is wrong with it: first what is wrong with
/// its lines, then the categories without resources, then the titles and URLs
/// that are invalid or used before. There are no warnings.
pub fn validate_text(text: &str) -> (result: Validation)
    ensures
        readme::resource_views(result.resources@) == readme::resources_of(text@),
        text::views(result.errors@) == readme::errors_of(text@),
        result.warnings@.len() == 0,
{
    let link = link_re();
    let resource = resource_re();
    let lines = split(text, '\n');
    let ghost all = readme::lines_of(text@);
    let mut scan = Scan {
        section: String::new(),
        category: String::new(),
        records: Vec::new(),
        resources: Vec::new(),
        errors: Vec::new(),
    };
    proof {
        assert(record_keys(scan.records@) =~= Seq::<CategoryKey>::empty());
        assert(readme::resource_views(scan.resources@) =~= Seq::<ResourceView>::empty());
        assert(text::views(scan.errors@) =~= Seq::<Seq<char>>::empty());
    }
    let mut i: usize = 0;
    while i < lines.len()
        invariant
            i <= lines.len(),
            all == text::views(lines@),
            pattern::regex_source(link) == pattern::LINK_PATTERN@,
            pattern::regex_source(resource) == pattern::RESOURCE_PATTERN@,
            scan.reached(all, i as int),
        decreases lines.len() - i,
    {
        scan.read_line(&link, &resource, lines[i].as_str(), i + 1, Ghost(all));
        i += 1;
    }
    let mut errors = scan.errors;
    report_categories(&scan.records, &mut errors, Ghost(all));
    report_resources(&scan.resources, &mut errors);
    Validation { resources: scan.resources, errors, warnings: Vec::new() }
}

}
