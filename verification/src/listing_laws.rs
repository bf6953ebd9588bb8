//! What a README lists and what is reported of it, told by its lines.
use crate::pattern;
use crate::pattern::EntryParts;
use crate::readme;
use crate::readme::{CategoryKey, Line, Resource, ResourceView};
use crate::text;
use crate::text_laws;
use crate::url;
use vstd::prelude::*;

verus! {

/// The lines of a text are what stands between its line feeds.
pub proof fn lines_are_read_off(above: Seq<char>, line: Seq<char>)
    requires
        !line.contains('\n'),
    ensures
        readme::lines_of(line) == seq![line],
        readme::lines_of(above.push('\n') + line) == readme::lines_of(above).push(line),
{
    text_laws::single_piece_is_the_text(line, '\n');
    text::pieces_of_sum(above, line, '\n');
}

/// Whether a line names a section.
pub open spec fn names_section(line: Seq<char>) -> bool {
    "## "@.is_prefix_of(line)
}

/// Whether a line names a category.
pub open spec fn names_category(line: Seq<char>) -> bool {
    "### "@.is_prefix_of(line)
}

/// Whether a line is meant to be an entry.
pub open spec fn starts_entry(line: Seq<char>) -> bool {
    "- ["@.is_prefix_of(line)
}

/// Whether a line is an entry.
pub open spec fn is_any_entry(line: Seq<char>) -> bool {
    exists|t: Seq<char>, u: Seq<char>, d: Seq<char>| pattern::is_entry(line, t, u, d)
}

/// The three beginnings exclude each other.
proof fn lemma_beginnings(line: Seq<char>)
    ensures
        names_section(line) ==> !names_category(line) && !starts_entry(line),
        names_category(line) ==> !starts_entry(line),
{
    reveal_strlit("## ");
    reveal_strlit("### ");
    reveal_strlit("- [");
    if names_section(line) {
        assert(line.subrange(0, 3)[0] == '#' && line.subrange(0, 3)[2] == ' ');
    }
    if names_category(line) {
        assert(line.subrange(0, 4)[0] == '#' && line.subrange(0, 4)[2] == '#');
    }
    if starts_entry(line) {
        assert(line.subrange(0, 3)[0] == '-');
    }
}

proof fn lemma_entry_begins(line: Seq<char>, t: Seq<char>, u: Seq<char>, d: Seq<char>)
    requires
        pattern::is_entry(line, t, u, d),
    ensures
        starts_entry(line),
        is_any_entry(line),
        readme::line_kind(line) == Line::Entry(EntryParts { title: t, url: u, description: d }),
{
    reveal_strlit("- [");
    assert("- ["@ =~= line.subrange(0, 3));
    let p = EntryParts { title: t, url: u, description: d };
    assert(pattern::is_entry(line, p.title, p.url, p.description));
    pattern::entry_is_unambiguous(line, p, p);
    lemma_beginnings(line);
}

proof fn lemma_no_entry(line: Seq<char>)
    requires
        starts_entry(line),
        !is_any_entry(line),
    ensures
        readme::line_kind(line) is Malformed,
{
    lemma_beginnings(line);
    assert forall|p: EntryParts| !pattern::is_entry(line, p.title, p.url, p.description) by {}
}

/// What the other lines are.
proof fn lemma_other_lines(line: Seq<char>)
    ensures
        names_section(line) ==> readme::line_kind(line) == Line::Section(
            text::trimmed(line.skip(3)),
        ),
        names_category(line) ==> readme::line_kind(line) == Line::Category(
            text::trimmed(line.skip(4)),
        ),
        !names_section(line) ==> !(readme::line_kind(line) is Section),
        !names_category(line) ==> !(readme::line_kind(line) is Category),
        !starts_entry(line) ==> !(readme::line_kind(line) is Entry) && !(readme::line_kind(
            line,
        ) is Malformed),
        readme::line_kind(line) is Malformed ==> !is_any_entry(line),
        readme::line_kind(line) matches Line::Entry(p) ==> pattern::is_entry(
            line,
            p.title,
            p.url,
            p.description,
        ),
{
    lemma_beginnings(line);
    if is_any_entry(line) {
        let (t, u, d) = choose|t: Seq<char>, u: Seq<char>, d: Seq<char>|
            pattern::is_entry(line, t, u, d);
        lemma_entry_begins(line, t, u, d);
    }
}

/// A line that starts like an entry and cannot be divided like one is malformed.
pub proof fn undivided_entry_is_malformed(line: Seq<char>)
    requires
        starts_entry(line),
        forall|t: Seq<char>, u: Seq<char>, d: Seq<char>| !pattern::is_entry(line, t, u, d),
    ensures
        readme::line_kind(line) is Malformed,
{
    lemma_no_entry(line);
}

/// A line stands in the section that was named last before it, with the name
/// that follows the marks, and in none where none was named.
pub proof fn section_is_the_last_one_named(lines: Seq<Seq<char>>, h: int, n: int)
    requires
        -1 <= h < n <= lines.len() || h == -1 && n == 0,
        h >= 0 ==> names_section(lines[h]),
        forall|i: int| h < i < n ==> !names_section(#[trigger] lines[i]),
    ensures
        readme::section_at(lines, n) == if h >= 0 {
            text::trimmed(lines[h].skip(3))
        } else {
            Seq::empty()
        },
    decreases n,
{
    if n > 0 {
        lemma_other_lines(lines[n - 1]);
        if h < n - 1 {
            assert(!names_section(lines[n - 1]));
            section_is_the_last_one_named(lines, h, n - 1);
        }
    }
}

/// A line stands in the category that was named last before it, unless a section
/// was named since.
pub proof fn category_is_the_last_one_named(lines: Seq<Seq<char>>, h: int, n: int)
    requires
        -1 <= h < n <= lines.len() || h == -1 && n == 0,
        h >= 0 ==> names_category(lines[h]) || names_section(lines[h]),
        forall|i: int|
            h < i < n ==> !names_section(#[trigger] lines[i]) && !names_category(lines[i]),
    ensures
        readme::category_at(lines, n) == if h >= 0 && names_category(lines[h]) {
            text::trimmed(lines[h].skip(4))
        } else {
            Seq::empty()
        },
    decreases n,
{
    if n > 0 {
        lemma_other_lines(lines[n - 1]);
        lemma_beginnings(lines[n - 1]);
        if h < n - 1 {
            assert(!names_section(lines[n - 1]) && !names_category(lines[n - 1]));
            category_is_the_last_one_named(lines, h, n - 1);
        }
    }
}

/// What a line lists: an entry inside a category is a resource, with its place,
/// with title and description without the white space around them, and with the
/// URL as it is; nothing else is one.
pub proof fn entries_inside_categories_are_resources(lines: Seq<Seq<char>>, n: int)
    requires
        0 <= n < lines.len(),
    ensures
        forall|t: Seq<char>, u: Seq<char>, d: Seq<char>| #[trigger]
            pattern::is_entry(lines[n], t, u, d) && readme::category_at(lines, n).len() > 0
                ==> readme::resource_at(lines, n) == Some(
                ResourceView {
                    line: (n + 1) as nat,
                    section: readme::section_at(lines, n),
                    category: readme::category_at(lines, n),
                    title: text::trimmed(t),
                    url: u,
                    description: text::trimmed(d),
                },
            ),
        !is_any_entry(lines[n]) || readme::category_at(lines, n).len() == 0
            ==> readme::resource_at(lines, n) is None,
{
    lemma_other_lines(lines[n]);
    assert forall|t: Seq<char>, u: Seq<char>, d: Seq<char>| #[trigger]
        pattern::is_entry(lines[n], t, u, d) && readme::category_at(lines, n).len()
            > 0 implies readme::resource_at(lines, n) == Some(
        ResourceView {
            line: (n + 1) as nat,
            section: readme::section_at(lines, n),
            category: readme::category_at(lines, n),
            title: text::trimmed(t),
            url: u,
            description: text::trimmed(d),
        },
    ) by {
        lemma_entry_begins(lines[n], t, u, d);
    }
    match readme::line_kind(lines[n]) {
        Line::Entry(p) => {
            assert(pattern::is_entry(lines[n], p.title, p.url, p.description));
            assert(is_any_entry(lines[n]));
        },
        _ => {},
    }
}

/// The resources of a README are those of its lines, from the first line to the
/// last: each line adds its resource, where it has one.
pub proof fn resources_come_line_by_line(readme_text: Seq<char>, n: int)
    requires
        0 <= n < readme::lines_of(readme_text).len(),
    ensures
        ({
            let lines = readme::lines_of(readme_text);
            &&& readme::resources_of(readme_text) == readme::resources_upto(
                lines,
                lines.len() as int,
            )
            &&& readme::resources_upto(lines, 0) == Seq::<ResourceView>::empty()
            &&& readme::resource_at(lines, n) matches Some(r) ==> readme::resources_upto(
                lines,
                n + 1,
            ) == readme::resources_upto(lines, n).push(r)
            &&& readme::resource_at(lines, n) is None ==> readme::resources_upto(lines, n + 1)
                == readme::resources_upto(lines, n)
        }),
{
}

/// What is reported of a line by itself.
pub proof fn faults_of_a_line(lines: Seq<Seq<char>>, n: int)
    requires
        0 <= n < lines.len(),
    ensures
        ({
            let place = "line "@ + text::decimal((n + 1) as nat);
            let error = readme::error_at(lines, n);
            &&& starts_entry(lines[n]) && !is_any_entry(lines[n]) ==> error == Some(
                place + ": malformed resource entry"@,
            )
            &&& is_any_entry(lines[n]) && readme::category_at(lines, n).len() == 0 ==> error
                == Some(place + ": resource is outside a level-three category"@)
            &&& forall|t: Seq<char>, u: Seq<char>, d: Seq<char>| #[trigger]
                pattern::is_entry(lines[n], t, u, d) && readme::category_at(lines, n).len() > 0
                    ==> error == (if d.last() == '.' {
                    None
                } else {
                    Some(place + ": description must end with a period"@)
                })
            &&& !starts_entry(lines[n]) ==> error is None
        }),
{
    let place = "line "@ + text::decimal((n + 1) as nat);
    reveal_strlit(": ");
    reveal_strlit(": malformed resource entry");
    reveal_strlit("malformed resource entry");
    reveal_strlit(": resource is outside a level-three category");
    reveal_strlit("resource is outside a level-three category");
    reveal_strlit(": description must end with a period");
    reveal_strlit("description must end with a period");
    assert(place + ": "@ + "malformed resource entry"@ =~= place + ": malformed resource entry"@);
    assert(place + ": "@ + "resource is outside a level-three category"@ =~= place
        + ": resource is outside a level-three category"@);
    assert(place + ": "@ + "description must end with a period"@ =~= place
        + ": description must end with a period"@);
    lemma_other_lines(lines[n]);
    lemma_beginnings(lines[n]);
    if starts_entry(lines[n]) && !is_any_entry(lines[n]) {
        lemma_no_entry(lines[n]);
    }
    assert forall|t: Seq<char>, u: Seq<char>, d: Seq<char>| #[trigger]
        pattern::is_entry(lines[n], t, u, d) && readme::category_at(lines, n).len()
            > 0 implies readme::error_at(lines, n) == (if d.last() == '.' {
        None
    } else {
        Some(place + ": description must end with a period"@)
    }) by {
        lemma_entry_begins(lines[n], t, u, d);
    }
    if is_any_entry(lines[n]) {
        let (t, u, d) = choose|t: Seq<char>, u: Seq<char>, d: Seq<char>|
            pattern::is_entry(lines[n], t, u, d);
        lemma_entry_begins(lines[n], t, u, d);
    }
}

/// What is wrong with the lines of a README is reported from the first line to the
/// last, once for each faulty line.
pub proof fn line_errors_come_line_by_line(lines: Seq<Seq<char>>, n: int)
    requires
        0 <= n < lines.len(),
    ensures
        readme::line_errors_upto(lines, 0) == Seq::<Seq<char>>::empty(),
        readme::error_at(lines, n) matches Some(e) ==> readme::line_errors_upto(lines, n + 1)
            == readme::line_errors_upto(lines, n).push(e),
        readme::error_at(lines, n) is None ==> readme::line_errors_upto(lines, n + 1)
            == readme::line_errors_upto(lines, n),
{
}

/// What is wrong with a README is told in three groups: its lines, its
/// categories, and the titles and URLs of its resources.
pub proof fn errors_come_in_three_groups(readme_text: Seq<char>)
    ensures
        ({
            let lines = readme::lines_of(readme_text);
            let n = lines.len() as int;
            let rs = readme::resources_of(readme_text);
            readme::errors_of(readme_text) == readme::line_errors_upto(lines, n)
                + readme::category_errors_upto(
                lines,
                readme::categories_upto(lines, n).len() as int,
            ) + readme::resource_errors_upto(rs, rs.len() as int)
        }),
{
}

/// A heading names its category once: the first time adds it behind those named
/// before, and any other line adds nothing.
pub proof fn categories_come_in_order(lines: Seq<Seq<char>>, n: int)
    requires
        0 <= n < lines.len(),
    ensures
        readme::categories_upto(lines, 0) == Seq::<CategoryKey>::empty(),
        ({
            let known = readme::categories_upto(lines, n);
            let key = CategoryKey {
                section: readme::section_at(lines, n),
                name: text::trimmed(lines[n].skip(4)),
            };
            readme::categories_upto(lines, n + 1) == if names_category(lines[n]) && !known.contains(
                key,
            ) {
                known.push(key)
            } else {
                known
            }
        }),
{
    lemma_other_lines(lines[n]);
}

/// Whether line `h` names the category.
pub open spec fn is_heading_of(lines: Seq<Seq<char>>, h: int, key: CategoryKey) -> bool {
    names_category(lines[h]) && readme::section_at(lines, h) == key.section && text::trimmed(
        lines[h].skip(4),
    ) == key.name
}

/// Whether line `i` is an entry of the category.
pub open spec fn is_entry_of(lines: Seq<Seq<char>>, i: int, key: CategoryKey) -> bool {
    is_any_entry(lines[i]) && readme::section_at(lines, i) == key.section && readme::category_at(
        lines,
        i,
    ) == key.name
}

proof fn lemma_last_heading(lines: Seq<Seq<char>>, key: CategoryKey, h: int, n: int)
    requires
        0 <= h < n <= lines.len(),
        is_heading_of(lines, h, key),
        forall|i: int| h < i < n ==> !#[trigger] is_heading_of(lines, i, key),
    ensures
        readme::last_heading(lines, key, n) == h,
    decreases n,
{
    lemma_other_lines(lines[n - 1]);
    if h < n - 1 {
        assert(!is_heading_of(lines, n - 1, key));
        lemma_last_heading(lines, key, h, n - 1);
    }
}

/// A category is reported exactly where no entry of it follows its last heading,
/// and the line of that heading is told. A category without a name has no entries.
pub proof fn empty_categories_are_reported(lines: Seq<Seq<char>>, k: int, h: int)
    requires
        0 <= k < readme::categories_upto(lines, lines.len() as int).len(),
        0 <= h < lines.len(),
        is_heading_of(lines, h, readme::categories_upto(lines, lines.len() as int)[k]),
        forall|i: int|
            h < i < lines.len() ==> !#[trigger] is_heading_of(
                lines,
                i,
                readme::categories_upto(lines, lines.len() as int)[k],
            ),
    ensures
        readme::category_errors_upto(lines, 0) == Seq::<Seq<char>>::empty(),
        ({
            let key = readme::categories_upto(lines, lines.len() as int)[k];
            let filled = key.name.len() > 0 && exists|i: int|
                h < i < lines.len() && #[trigger] is_entry_of(lines, i, key);
            let before = readme::category_errors_upto(lines, k);
            readme::category_errors_upto(lines, k + 1) == if filled {
                before
            } else if key.section.len() == 0 {
                before.push(
                    "line "@ + text::decimal((h + 1) as nat) + ": category '"@ + key.name
                        + "' has no resources"@,
                )
            } else {
                before.push(
                    "line "@ + text::decimal((h + 1) as nat) + ": category '"@ + key.name
                        + "' in section '"@ + key.section + "' has no resources"@,
                )
            }
        }),
{
    let n = lines.len() as int;
    let key = readme::categories_upto(lines, n)[k];
    lemma_last_heading(lines, key, h, n);
    let filled = key.name.len() > 0 && exists|i: int|
        h < i < n && #[trigger] is_entry_of(lines, i, key);
    assert(readme::is_populated(lines, key, n) == filled) by {
        if readme::is_populated(lines, key, n) {
            let i = choose|i: int| h < i < n && #[trigger] readme::is_resource_of(lines, i, key);
            entries_inside_categories_are_resources(lines, i);
            assert(is_any_entry(lines[i]));
            let (t, u, d) = choose|t: Seq<char>, u: Seq<char>, d: Seq<char>|
                pattern::is_entry(lines[i], t, u, d);
            assert(pattern::is_entry(lines[i], t, u, d));
            assert(is_entry_of(lines, i, key));
        }
        if filled {
            let i = choose|i: int| h < i < n && #[trigger] is_entry_of(lines, i, key);
            entries_inside_categories_are_resources(lines, i);
            let (t, u, d) = choose|t: Seq<char>, u: Seq<char>, d: Seq<char>|
                pattern::is_entry(lines[i], t, u, d);
            assert(pattern::is_entry(lines[i], t, u, d));
            assert(readme::is_resource_of(lines, i, key));
        }
    }
    let place = "line "@ + text::decimal((h + 1) as nat);
    reveal_strlit(": ");
    reveal_strlit("category '");
    reveal_strlit(": category '");
    reveal_strlit("'");
    reveal_strlit(" in section '");
    reveal_strlit("' in section '");
    reveal_strlit(" has no resources");
    reveal_strlit("' has no resources");
    if key.section.len() == 0 {
        assert(readme::empty_category_message((h + 1) as nat, key) =~= place + ": category '"@
            + key.name + "' has no resources"@);
    } else {
        assert(readme::empty_category_message((h + 1) as nat, key) =~= place + ": category '"@
            + key.name + "' in section '"@ + key.section + "' has no resources"@);
    }
}

proof fn lemma_title_search(rs: Seq<ResourceView>, key: Seq<char>, j: int, n: int)
    requires
        0 <= n <= rs.len(),
        -1 <= j < n || j == -1,
        j >= 0 ==> text::lowercase(rs[j].title) == key,
        forall|k: int| 0 <= k < (if j >= 0 { j } else { n }) ==> text::lowercase(
            #[trigger] rs[k].title,
        ) != key,
    ensures
        readme::first_with_title(rs, key, n) == (if j >= 0 {
            Some(j)
        } else {
            None
        }),
    decreases n,
{
    if n > 0 {
        if j == n - 1 {
            lemma_title_search(rs, key, -1, n - 1);
        } else {
            lemma_title_search(rs, key, j, n - 1);
            if j < 0 {
                assert(text::lowercase(rs[n - 1].title) != key);
            }
        }
    }
}

/// A title is reported exactly where an earlier resource has it too but for case;
/// the message tells the title, its line, and the line of the first that has it.
pub proof fn repeated_titles_are_reported(rs: Seq<ResourceView>, i: int, j: int)
    requires
        0 <= i < rs.len(),
        -1 <= j < i,
        j >= 0 ==> text::lowercase(rs[j].title) == text::lowercase(rs[i].title),
        forall|k: int| 0 <= k < (if j >= 0 { j } else { i }) ==> text::lowercase(
            #[trigger] rs[k].title,
        ) != text::lowercase(rs[i].title),
    ensures
        readme::title_error(rs, i) == (if j >= 0 {
            Some(
                "line "@ + text::decimal(rs[i].line) + ": duplicate title '"@ + rs[i].title
                    + "' (first used on line "@ + text::decimal(rs[j].line) + ")"@,
            )
        } else {
            None
        }),
{
    lemma_title_search(rs, text::lowercase(rs[i].title), j, i);
    if j >= 0 {
        reveal_strlit(": ");
        reveal_strlit("duplicate ");
        reveal_strlit("title");
        reveal_strlit(" '");
        reveal_strlit(": duplicate title '");
        assert(readme::title_error(rs, i)->0 =~= "line "@ + text::decimal(rs[i].line)
            + ": duplicate title '"@ + rs[i].title + "' (first used on line "@ + text::decimal(
            rs[j].line,
        ) + ")"@);
    }
}

proof fn lemma_url_search(rs: Seq<ResourceView>, key: Seq<char>, j: int, n: int)
    requires
        0 <= n <= rs.len(),
        -1 <= j < n || j == -1,
        j >= 0 ==> url::normal_form(rs[j].url) == Ok::<Seq<char>, Seq<char>>(key),
        forall|k: int| 0 <= k < (if j >= 0 { j } else { n }) ==> url::normal_form(
            #[trigger] rs[k].url,
        ) != Ok::<Seq<char>, Seq<char>>(key),
    ensures
        readme::first_with_url(rs, key, n) == (if j >= 0 {
            Some(j)
        } else {
            None
        }),
    decreases n,
{
    if n > 0 {
        if j == n - 1 {
            lemma_url_search(rs, key, -1, n - 1);
        } else {
            lemma_url_search(rs, key, j, n - 1);
            if j < 0 {
                assert(url::normal_form(rs[n - 1].url) != Ok::<Seq<char>, Seq<char>>(key));
            }
        }
    }
}

/// A URL is reported exactly where it has no normal form or an earlier resource
/// has the same one; the message tells the URL, its line, and what is wrong with
/// it or the line of the first that has it.
pub proof fn repeated_urls_are_reported(rs: Seq<ResourceView>, i: int, j: int)
    requires
        0 <= i < rs.len(),
        -1 <= j < i,
        j >= 0 ==> url::normal_form(rs[j].url) == url::normal_form(rs[i].url),
        forall|k: int| 0 <= k < (if j >= 0 { j } else { i }) ==> url::normal_form(
            #[trigger] rs[k].url,
        ) != url::normal_form(rs[i].url),
    ensures
        url::normal_form(rs[i].url) matches Err(why) ==> readme::url_error(rs, i) == Some(
            "line "@ + text::decimal(rs[i].line) + ": invalid URL '"@ + rs[i].url + "' ("@ + why
                + ")"@,
        ),
        url::normal_form(rs[i].url) is Ok ==> readme::url_error(rs, i) == (if j >= 0 {
            Some(
                "line "@ + text::decimal(rs[i].line) + ": duplicate URL '"@ + rs[i].url
                    + "' (first used on line "@ + text::decimal(rs[j].line) + ")"@,
            )
        } else {
            None
        }),
{
    reveal_strlit(": ");
    match url::normal_form(rs[i].url) {
        Ok(key) => {
            lemma_url_search(rs, key, j, i);
            if j >= 0 {
                reveal_strlit("duplicate ");
                reveal_strlit("URL");
                reveal_strlit(" '");
                reveal_strlit(": duplicate URL '");
                assert(readme::url_error(rs, i)->0 =~= "line "@ + text::decimal(rs[i].line)
                    + ": duplicate URL '"@ + rs[i].url + "' (first used on line "@ + text::decimal(
                    rs[j].line,
                ) + ")"@);
            }
        },
        Err(why) => {
            reveal_strlit("invalid URL '");
            reveal_strlit(": invalid URL '");
            assert(readme::url_error(rs, i)->0 =~= "line "@ + text::decimal(rs[i].line)
                + ": invalid URL '"@ + rs[i].url + "' ("@ + why + ")"@);
        },
    }
}

/// What is wrong with resources is reported one after the other, the title of each
/// before its URL.
pub proof fn resource_errors_come_in_order(rs: Seq<ResourceView>, n: int)
    requires
        0 <= n < rs.len(),
    ensures
        readme::resource_errors_upto(rs, 0) == Seq::<Seq<char>>::empty(),
        ({
            let before = readme::resource_errors_upto(rs, n);
            readme::resource_errors_upto(rs, n + 1) == match (
                readme::title_error(rs, n),
                readme::url_error(rs, n),
            ) {
                (Some(t), Some(u)) => before.push(t).push(u),
                (Some(t), None) => before.push(t),
                (None, Some(u)) => before.push(u),
                (None, None) => before,
            }
        }),
{
}

proof fn lemma_line_error_is_told(lines: Seq<Seq<char>>, n: int, m: int, e: Seq<char>)
    requires
        0 <= n < m <= lines.len(),
        readme::error_at(lines, n) == Some(e),
    ensures
        readme::line_errors_upto(lines, m).contains(e),
    decreases m,
{
    let now = readme::line_errors_upto(lines, m);
    if n == m - 1 {
        assert(now.last() == e);
    } else {
        lemma_line_error_is_told(lines, n, m - 1, e);
        let before = readme::line_errors_upto(lines, m - 1);
        let i = before.index_of(e);
        assert(now[i] == e);
    }
}

/// Every faulty line of a README is reported: one that starts like an entry and is
/// none, an entry outside of a category, and a description without a period.
pub proof fn faulty_lines_are_reported(readme_text: Seq<char>, n: int)
    requires
        0 <= n < readme::lines_of(readme_text).len(),
    ensures
        ({
            let lines = readme::lines_of(readme_text);
            let errors = readme::errors_of(readme_text);
            let place = "line "@ + text::decimal((n + 1) as nat);
            &&& starts_entry(lines[n]) && (forall|t: Seq<char>, u: Seq<char>, d: Seq<char>|
                !pattern::is_entry(lines[n], t, u, d)) ==> errors.contains(
                place + ": malformed resource entry"@,
            )
            &&& forall|t: Seq<char>, u: Seq<char>, d: Seq<char>| #[trigger]
                pattern::is_entry(lines[n], t, u, d) && readme::category_at(lines, n).len() == 0
                    ==> errors.contains(place + ": resource is outside a level-three category"@)
            &&& forall|t: Seq<char>, u: Seq<char>, d: Seq<char>| #[trigger]
                pattern::is_entry(lines[n], t, u, d) && readme::category_at(lines, n).len() > 0
                    && d.last() != '.' ==> errors.contains(
                place + ": description must end with a period"@,
            )
        }),
{
    let lines = readme::lines_of(readme_text);
    let errors = readme::errors_of(readme_text);
    let first = readme::line_errors_upto(lines, lines.len() as int);
    faults_of_a_line(lines, n);
    assert(forall|t: Seq<char>, u: Seq<char>, d: Seq<char>| #[trigger]
        pattern::is_entry(lines[n], t, u, d) ==> is_any_entry(lines[n]));
    match readme::error_at(lines, n) {
        Some(e) => {
            lemma_line_error_is_told(lines, n, lines.len() as int, e);
            let i = first.index_of(e);
            assert(errors[i] == first[i]);
            assert(errors.contains(e));
        },
        None => {},
    }
}

/// The model of a resource has all of its fields, and that of a list all of its
/// resources.
pub proof fn resource_models_keep_all_fields(r: Resource, v: Seq<Resource>, i: int)
    ensures
        r@.line == r.line,
        r@.section == r.section@,
        r@.category == r.category@,
        r@.title == r.title@,
        r@.url == r.url@,
        r@.description == r.description@,
        readme::resource_views(v).len() == v.len(),
        0 <= i < v.len() ==> readme::resource_views(v)[i] == v[i]@,
{
}

/// An entry is a dash, a title in square brackets, an `https` URL in round ones, a
/// colon and a description, each separated as written here.
pub proof fn entries_are_written_so(line: Seq<char>, t: Seq<char>, u: Seq<char>, d: Seq<char>)
    ensures
        pattern::is_entry(line, t, u, d) <==> {
            &&& line == "- ["@ + t + "]("@ + u + "): "@ + d
            &&& t.len() > 0
            &&& !t.contains(']')
            &&& u.len() > 8
            &&& u.take(8) == "https://"@
            &&& forall|i: int| 0 <= i < u.len() ==> #[trigger] u[i] != ')' && !text::white_space(u[i])
            &&& d.len() > 0
            &&& !d.contains('\n')
        },
        starts_entry(line) <==> pattern::is_link_line(line),
{
    reveal_strlit("https://");
    assert("https://"@.len() == 8);
    if u.len() > 8 {
        assert(u.take(8) =~= u.subrange(0, 8));
    }
    if u.contains(')') {
        let i = u.index_of(')');
        assert(u[i] == ')');
    }
    if !u.contains(')') {
        assert forall|i: int| 0 <= i < u.len() implies u[i] != ')' by {
            assert(u.contains(u[i]));
        }
    }
}

/// The patterns that lines are held against.
pub proof fn patterns_are_these()
    ensures
        pattern::RESOURCE_PATTERN@ == r"^- \[([^\]]+)]\((https://[^)\s]+)\): (.+)$"@,
        pattern::LINK_PATTERN@ == r"^- \["@,
{
}

}
