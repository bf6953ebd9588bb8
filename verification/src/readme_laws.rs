//! What a validated README promises.
use crate::pattern;
use crate::pattern::EntryParts;
use crate::readme;
use crate::readme::{CategoryKey, Line, ResourceView};
use crate::text;
use crate::url;
use vstd::prelude::*;

verus! {

/// Whether line `n` is fine by itself: no malformed entry, and every entry
/// inside a category with a description that ends with a period.
pub open spec fn is_good_line(lines: Seq<Seq<char>>, n: int) -> bool {
    match readme::line_kind(lines[n]) {
        Line::Malformed => false,
        Line::Entry(parts) => readme::category_at(lines, n).len() > 0 && parts.description.last()
            == '.',
        _ => true,
    }
}

/// Whether no two resources have the same title but for case.
pub open spec fn has_distinct_titles(rs: Seq<ResourceView>) -> bool {
    forall|i: int, j: int|
        0 <= i < j < rs.len() ==> text::lowercase(#[trigger] rs[i].title) != text::lowercase(
            #[trigger] rs[j].title,
        )
}

/// Whether every URL has a normal form, and no two the same.
pub open spec fn has_distinct_urls(rs: Seq<ResourceView>) -> bool {
    &&& forall|i: int| 0 <= i < rs.len() ==> url::normal_form(#[trigger] rs[i].url) is Ok
    &&& forall|i: int, j: int|
        0 <= i < j < rs.len() ==> url::normal_form(#[trigger] rs[i].url) != url::normal_form(
            #[trigger] rs[j].url,
        )
}

/// A README as it should be: good lines, no category without resources after
/// its last heading, no title and no URL twice.
pub open spec fn is_well_formed(readme_text: Seq<char>) -> bool {
    let lines = readme::lines_of(readme_text);
    let categories = readme::categories_of(readme_text);
    &&& forall|n: int| 0 <= n < lines.len() ==> #[trigger] is_good_line(lines, n)
    &&& forall|k: int|
        0 <= k < categories.len() ==> readme::is_populated(
            lines,
            #[trigger] categories[k],
            lines.len() as int,
        )
    &&& has_distinct_titles(readme::resources_of(readme_text))
    &&& has_distinct_urls(readme::resources_of(readme_text))
}

proof fn lemma_no_line_errors(lines: Seq<Seq<char>>, n: int)
    requires
        0 <= n <= lines.len(),
    ensures
        readme::line_errors_upto(lines, n).len() == 0 <==> forall|i: int|
            0 <= i < n ==> #[trigger] is_good_line(lines, i),
    decreases n,
{
    if n > 0 {
        lemma_no_line_errors(lines, n - 1);
        assert(readme::error_at(lines, n - 1) is None <==> is_good_line(lines, n - 1));
    }
}

proof fn lemma_no_category_errors(lines: Seq<Seq<char>>, k: int)
    requires
        0 <= k <= readme::categories_upto(lines, lines.len() as int).len(),
    ensures
        readme::category_errors_upto(lines, k).len() == 0 <==> forall|i: int|
            0 <= i < k ==> readme::is_populated(
                lines,
                #[trigger] readme::categories_upto(lines, lines.len() as int)[i],
                lines.len() as int,
            ),
    decreases k,
{
    if k > 0 {
        lemma_no_category_errors(lines, k - 1);
    }
}

/// What the search for a title finds.
proof fn lemma_first_with_title(rs: Seq<ResourceView>, key: Seq<char>, n: int)
    requires
        0 <= n <= rs.len(),
    ensures
        match readme::first_with_title(rs, key, n) {
            Some(i) => 0 <= i < n && text::lowercase(rs[i].title) == key && forall|j: int|
                0 <= j < i ==> text::lowercase(#[trigger] rs[j].title) != key,
            None => forall|j: int| 0 <= j < n ==> text::lowercase(#[trigger] rs[j].title) != key,
        },
    decreases n,
{
    if n > 0 {
        lemma_first_with_title(rs, key, n - 1);
    }
}

/// What the search for a URL finds.
proof fn lemma_first_with_url(rs: Seq<ResourceView>, key: Seq<char>, n: int)
    requires
        0 <= n <= rs.len(),
    ensures
        match readme::first_with_url(rs, key, n) {
            Some(i) => 0 <= i < n && url::normal_form(rs[i].url) == Ok::<Seq<char>, Seq<char>>(key)
                && forall|j: int|
                0 <= j < i ==> url::normal_form(#[trigger] rs[j].url) != Ok::<Seq<char>, Seq<char>>(
                    key,
                ),
            None => forall|j: int|
                0 <= j < n ==> url::normal_form(#[trigger] rs[j].url) != Ok::<Seq<char>, Seq<char>>(
                    key,
                ),
        },
    decreases n,
{
    if n > 0 {
        lemma_first_with_url(rs, key, n - 1);
    }
}

proof fn lemma_no_resource_errors(rs: Seq<ResourceView>, n: int)
    requires
        0 <= n <= rs.len(),
    ensures
        readme::resource_errors_upto(rs, n).len() == 0 <==> has_distinct_titles(rs.take(n))
            && has_distinct_urls(rs.take(n)),
    decreases n,
{
    if n > 0 {
        lemma_no_resource_errors(rs, n - 1);
        let before = rs.take(n - 1);
        let now = rs.take(n);
        assert forall|i: int| 0 <= i < n - 1 implies #[trigger] before[i] == now[i] by {}
        let last = rs[n - 1];
        let title = text::lowercase(last.title);
        lemma_first_with_title(rs, title, n - 1);
        assert(readme::title_error(rs, n - 1) is None <==> forall|i: int|
            0 <= i < n - 1 ==> text::lowercase(#[trigger] rs[i].title) != title);
        match url::normal_form(last.url) {
            Ok(key) => {
                lemma_first_with_url(rs, key, n - 1);
                assert(readme::url_error(rs, n - 1) is None <==> forall|i: int|
                    0 <= i < n - 1 ==> url::normal_form(#[trigger] rs[i].url) != url::normal_form(
                        last.url,
                    ));
            },
            Err(_) => {},
        }
        let ok = readme::resource_errors_upto(rs, n).len() == 0;
        if ok {
            assert(has_distinct_titles(before) && has_distinct_urls(before));
            assert forall|i: int, j: int| 0 <= i < j < now.len() implies text::lowercase(
                #[trigger] now[i].title,
            ) != text::lowercase(#[trigger] now[j].title) by {
                if j < n - 1 {
                    assert(before[i].title == now[i].title && before[j].title == now[j].title);
                } else {
                    assert(rs[i].title == now[i].title);
                }
            }
            assert forall|i: int| 0 <= i < now.len() implies url::normal_form(
                #[trigger] now[i].url,
            ) is Ok by {
                if i < n - 1 {
                    assert(before[i].url == now[i].url);
                }
            }
            assert forall|i: int, j: int| 0 <= i < j < now.len() implies url::normal_form(
                #[trigger] now[i].url,
            ) != url::normal_form(#[trigger] now[j].url) by {
                if j < n - 1 {
                    assert(before[i].url == now[i].url && before[j].url == now[j].url);
                } else {
                    assert(rs[i].url == now[i].url);
                }
            }
        }
        if has_distinct_titles(now) && has_distinct_urls(now) {
            assert(now[n - 1].title == last.title && now[n - 1].url == last.url);
            assert forall|i: int| 0 <= i < n - 1 implies text::lowercase(#[trigger] rs[i].title)
                != title by {
                assert(now[i].title == rs[i].title);
            }
            assert forall|i: int| 0 <= i < n - 1 implies url::normal_form(#[trigger] rs[i].url)
                != url::normal_form(last.url) by {
                assert(now[i].url == rs[i].url);
            }
            assert(has_distinct_titles(before)) by {
                assert forall|i: int, j: int| 0 <= i < j < before.len() implies text::lowercase(
                    #[trigger] before[i].title,
                ) != text::lowercase(#[trigger] before[j].title) by {
                    assert(before[i].title == now[i].title && before[j].title == now[j].title);
                }
            }
            assert(has_distinct_urls(before)) by {
                assert forall|i: int| 0 <= i < before.len() implies url::normal_form(
                    #[trigger] before[i].url,
                ) is Ok by {
                    assert(before[i].url == now[i].url);
                }
                assert forall|i: int, j: int| 0 <= i < j < before.len() implies url::normal_form(
                    #[trigger] before[i].url,
                ) != url::normal_form(#[trigger] before[j].url) by {
                    assert(before[i].url == now[i].url && before[j].url == now[j].url);
                }
            }
        }
    }
}

/// No errors are reported exactly where the README is well formed.
pub proof fn no_errors_means_well_formed(readme_text: Seq<char>)
    ensures
        readme::errors_of(readme_text).len() == 0 <==> is_well_formed(readme_text),
{
    let lines = readme::lines_of(readme_text);
    let rs = readme::resources_of(readme_text);
    lemma_no_line_errors(lines, lines.len() as int);
    lemma_no_category_errors(lines, readme::categories_of(readme_text).len() as int);
    lemma_no_resource_errors(rs, rs.len() as int);
    assert(rs.take(rs.len() as int) =~= rs);
}

/// What every resource of a README is: an entry of one of its lines, inside a
/// category, with an `https` URL without white space.
pub open spec fn is_listed(r: ResourceView, lines: Seq<Seq<char>>) -> bool {
    &&& 1 <= r.line <= lines.len()
    &&& readme::resource_at(lines, r.line - 1) == Some(r)
    &&& r.category.len() > 0
    &&& "https://"@.is_prefix_of(r.url)
    &&& forall|i: int| 0 <= i < r.url.len() ==> !text::white_space(#[trigger] r.url[i])
}

proof fn lemma_resource_is_listed(lines: Seq<Seq<char>>, n: int)
    requires
        0 <= n < lines.len(),
    ensures
        readme::resource_at(lines, n) matches Some(r) ==> is_listed(r, lines) && r.line == n + 1,
{
    match readme::line_kind(lines[n]) {
        Line::Entry(parts) => {
            let line = lines[n];
            assert(pattern::entry_parts(line) == Some(parts));
            assert(pattern::is_entry(line, parts.title, parts.url, parts.description));
        },
        _ => {},
    }
}

proof fn lemma_resources_from_lines(lines: Seq<Seq<char>>, n: int)
    requires
        0 <= n <= lines.len(),
    ensures
        ({
            let rs = readme::resources_upto(lines, n);
            &&& forall|i: int|
                0 <= i < rs.len() ==> is_listed(#[trigger] rs[i], lines) && rs[i].line <= n
            &&& forall|i: int, j: int|
                0 <= i < j < rs.len() ==> (#[trigger] rs[i]).line < (#[trigger] rs[j]).line
            &&& forall|m: int|
                0 <= m < n ==> (#[trigger] readme::resource_at(lines, m) matches Some(r)
                    ==> rs.contains(r))
        }),
    decreases n,
{
    if n > 0 {
        lemma_resources_from_lines(lines, n - 1);
        lemma_resource_is_listed(lines, n - 1);
        let before = readme::resources_upto(lines, n - 1);
        let rs = readme::resources_upto(lines, n);
        assert forall|m: int| 0 <= m < n implies (#[trigger] readme::resource_at(
            lines,
            m,
        ) matches Some(r) ==> rs.contains(r)) by {
            match readme::resource_at(lines, m) {
                Some(r) => {
                    if m < n - 1 {
                        assert(before.contains(r));
                        let i = before.index_of(r);
                        assert(rs[i] == r);
                    } else {
                        assert(rs.last() == r);
                    }
                },
                None => {},
            }
        }
    }
}

/// The resources of a README are the entries of its lines that stand inside a
/// category, all of them, each once, from top to bottom.
pub proof fn resources_are_the_entries(readme_text: Seq<char>)
    ensures
        ({
            let lines = readme::lines_of(readme_text);
            let rs = readme::resources_of(readme_text);
            &&& forall|i: int| 0 <= i < rs.len() ==> is_listed(#[trigger] rs[i], lines)
            &&& forall|i: int, j: int|
                0 <= i < j < rs.len() ==> (#[trigger] rs[i]).line < (#[trigger] rs[j]).line
            &&& forall|n: int|
                0 <= n < lines.len() ==> (#[trigger] readme::resource_at(lines, n) matches Some(r)
                    ==> rs.contains(r))
        }),
{
    let lines = readme::lines_of(readme_text);
    lemma_resources_from_lines(lines, lines.len() as int);
}

/// An entry that is written from its parts is read back as these parts.
pub proof fn written_entry_is_read_back(p: EntryParts)
    requires
        p.title.len() > 0,
        !p.title.contains(']'),
        "https://"@.is_prefix_of(p.url),
        p.url.len() > "https://"@.len(),
        !p.url.contains(')'),
        forall|i: int| 0 <= i < p.url.len() ==> !text::white_space(#[trigger] p.url[i]),
        p.description.len() > 0,
        !p.description.contains('\n'),
    ensures
        readme::line_kind("- ["@ + p.title + "]("@ + p.url + "): "@ + p.description)
            == Line::Entry(p),
{
    reveal_strlit("- [");
    reveal_strlit("## ");
    reveal_strlit("### ");
    let line = "- ["@ + p.title + "]("@ + p.url + "): "@ + p.description;
    pattern::entry_is_unambiguous(line, p, p);
    assert(line[0] == '-');
    assert(line.subrange(0, 3)[0] == '-');
    assert(line.subrange(0, 4)[0] == '-');
    assert("- ["@ =~= line.subrange(0, 3));
}

/// A level-two heading ends the category: an entry after it, with no
/// level-three heading between them, is reported to stand outside.
pub proof fn section_heading_resets_category(lines: Seq<Seq<char>>, h: int, n: int)
    requires
        0 <= h < n < lines.len(),
        readme::line_kind(lines[h]) is Section,
        forall|i: int| h < i < n ==> !(readme::line_kind(#[trigger] lines[i]) is Category),
        readme::line_kind(lines[n]) is Entry,
    ensures
        readme::category_at(lines, n).len() == 0,
        readme::resource_at(lines, n) is None,
        readme::error_at(lines, n) == Some(
            readme::about_line((n + 1) as nat, "resource is outside a level-three category"@),
        ),
{
    lemma_no_category_since(lines, h, n);
}

proof fn lemma_no_category_since(lines: Seq<Seq<char>>, h: int, n: int)
    requires
        0 <= h < n <= lines.len(),
        readme::line_kind(lines[h]) is Section,
        forall|i: int| h < i < n ==> !(readme::line_kind(#[trigger] lines[i]) is Category),
    ensures
        readme::category_at(lines, n).len() == 0,
    decreases n,
{
    if h < n - 1 {
        lemma_no_category_since(lines, h, n - 1);
        assert(!(readme::line_kind(lines[n - 1]) is Category));
    }
}

/// A message that tells one of the lines.
pub open spec fn is_about(message: Seq<char>, line: nat, what: Seq<char>) -> bool {
    message == readme::about_line(line, what)
}

/// Whether a message tells a line of the text.
pub open spec fn is_located(message: Seq<char>, count: nat) -> bool {
    exists|line: nat, what: Seq<char>|
        1 <= line <= count && #[trigger] is_about(message, line, what)
}

proof fn lemma_located(count: nat, line: nat, what: Seq<char>)
    requires
        1 <= line <= count,
    ensures
        is_located(readme::about_line(line, what), count),
{
    assert(is_about(readme::about_line(line, what), line, what));
}

proof fn lemma_line_errors_located(lines: Seq<Seq<char>>, n: int)
    requires
        0 <= n <= lines.len(),
    ensures
        forall|i: int|
            0 <= i < readme::line_errors_upto(lines, n).len() ==> is_located(
                #[trigger] readme::line_errors_upto(lines, n)[i],
                lines.len(),
            ),
    decreases n,
{
    if n > 0 {
        lemma_line_errors_located(lines, n - 1);
        lemma_located(lines.len(), n as nat, "malformed resource entry"@);
        lemma_located(lines.len(), n as nat, "resource is outside a level-three category"@);
        lemma_located(lines.len(), n as nat, "description must end with a period"@);
        let before = readme::line_errors_upto(lines, n - 1);
        let after = readme::line_errors_upto(lines, n);
        assert forall|i: int| 0 <= i < after.len() implies is_located(
            #[trigger] after[i],
            lines.len(),
        ) by {
            if i < before.len() {
                assert(after[i] == before[i]);
            }
        }
    }
}

/// A listed category has a heading.
proof fn lemma_category_has_heading(lines: Seq<Seq<char>>, n: int, key: CategoryKey)
    requires
        0 <= n,
        readme::categories_upto(lines, n).contains(key),
    ensures
        0 <= readme::last_heading(lines, key, n) < n,
    decreases n,
{
    if n > 0 {
        let before = readme::categories_upto(lines, n - 1);
        if readme::heading_at(lines, n - 1) != Some(key) {
            let i = readme::categories_upto(lines, n).index_of(key);
            if i == before.len() {
                assert(readme::categories_upto(lines, n)[i] == key);
            } else {
                assert(before[i] == key);
            }
            lemma_category_has_heading(lines, n - 1, key);
        }
    }
}

proof fn lemma_category_errors_located(lines: Seq<Seq<char>>, k: int)
    requires
        0 <= k <= readme::categories_upto(lines, lines.len() as int).len(),
    ensures
        forall|i: int|
            0 <= i < readme::category_errors_upto(lines, k).len() ==> is_located(
                #[trigger] readme::category_errors_upto(lines, k)[i],
                lines.len(),
            ),
    decreases k,
{
    if k > 0 {
        lemma_category_errors_located(lines, k - 1);
        let n = lines.len() as int;
        let key = readme::categories_upto(lines, n)[k - 1];
        lemma_category_has_heading(lines, n, key);
        let line = (readme::last_heading(lines, key, n) + 1) as nat;
        let location = if key.section.len() == 0 {
            Seq::empty()
        } else {
            " in section '"@ + key.section + "'"@
        };
        lemma_located(
            lines.len(),
            line,
            "category '"@ + key.name + "'"@ + location + " has no resources"@,
        );
        let before = readme::category_errors_upto(lines, k - 1);
        let after = readme::category_errors_upto(lines, k);
        assert forall|i: int| 0 <= i < after.len() implies is_located(
            #[trigger] after[i],
            lines.len(),
        ) by {
            if i < before.len() {
                assert(after[i] == before[i]);
            }
        }
    }
}

proof fn lemma_resource_errors_located(rs: Seq<ResourceView>, n: int, count: nat)
    requires
        0 <= n <= rs.len(),
        forall|i: int| 0 <= i < rs.len() ==> 1 <= (#[trigger] rs[i]).line <= count,
    ensures
        forall|i: int|
            0 <= i < readme::resource_errors_upto(rs, n).len() ==> is_located(
                #[trigger] readme::resource_errors_upto(rs, n)[i],
                count,
            ),
    decreases n,
{
    if n > 0 {
        lemma_resource_errors_located(rs, n - 1, count);
        let r = rs[n - 1];
        assert forall|e: Seq<char>|
            readme::title_error(rs, n - 1) == Some(e) || readme::url_error(rs, n - 1) == Some(
                e,
            ) implies #[trigger] is_located(e, count) by {
            match readme::first_with_title(rs, text::lowercase(r.title), n - 1) {
                Some(j) => {
                    lemma_located(
                        count,
                        r.line,
                        "duplicate "@ + "title"@ + " '"@ + r.title + "' (first used on line "@
                            + text::decimal(rs[j].line) + ")"@,
                    );
                },
                None => {},
            }
            match url::normal_form(r.url) {
                Ok(key) => match readme::first_with_url(rs, key, n - 1) {
                    Some(j) => {
                        lemma_located(
                            count,
                            r.line,
                            "duplicate "@ + "URL"@ + " '"@ + r.url + "' (first used on line "@
                                + text::decimal(rs[j].line) + ")"@,
                        );
                    },
                    None => {},
                },
                Err(why) => {
                    lemma_located(count, r.line, "invalid URL '"@ + r.url + "' ("@ + why + ")"@);
                },
            }
        }
        let a = readme::resource_errors_upto(rs, n - 1);
        let b = readme::push_some(a, readme::title_error(rs, n - 1));
        let c = readme::push_some(b, readme::url_error(rs, n - 1));
        assert forall|i: int| 0 <= i < c.len() implies is_located(#[trigger] c[i], count) by {
            if i < a.len() {
                assert(c[i] == a[i]);
            } else if i < b.len() {
                assert(c[i] == b[i]);
            }
        }
    }
}

/// Every error tells a line of the README.
pub proof fn errors_are_located(readme_text: Seq<char>)
    ensures
        forall|i: int|
            0 <= i < readme::errors_of(readme_text).len() ==> is_located(
                #[trigger] readme::errors_of(readme_text)[i],
                readme::lines_of(readme_text).len(),
            ),
{
    let lines = readme::lines_of(readme_text);
    let rs = readme::resources_of(readme_text);
    let k = readme::categories_of(readme_text).len() as int;
    resources_are_the_entries(readme_text);
    lemma_line_errors_located(lines, lines.len() as int);
    lemma_category_errors_located(lines, k);
    assert forall|i: int| 0 <= i < rs.len() implies 1 <= (#[trigger] rs[i]).line <= lines.len() by {
        assert(is_listed(rs[i], lines));
    }
    lemma_resource_errors_located(rs, rs.len() as int, lines.len());
    let a = readme::line_errors_upto(lines, lines.len() as int);
    let b = readme::category_errors_upto(lines, k);
    let c = readme::resource_errors_upto(rs, rs.len() as int);
    assert forall|i: int| 0 <= i < (a + b + c).len() implies is_located(
        #[trigger] (a + b + c)[i],
        lines.len(),
    ) by {
        if i < a.len() {
            assert((a + b + c)[i] == a[i]);
        } else if i < a.len() + b.len() {
            assert((a + b + c)[i] == b[i - a.len()]);
        } else {
            assert((a + b + c)[i] == c[i - a.len() - b.len()]);
        }
    }
}

/// What is said of the first `n` lines does not depend on a line behind them.
proof fn lemma_later_line(lines: Seq<Seq<char>>, line: Seq<char>, n: int)
    requires
        0 <= n <= lines.len(),
    ensures
        ({
            let more = lines.push(line);
            &&& readme::section_at(more, n) == readme::section_at(lines, n)
            &&& readme::category_at(more, n) == readme::category_at(lines, n)
            &&& readme::resources_upto(more, n) == readme::resources_upto(lines, n)
            &&& readme::line_errors_upto(more, n) == readme::line_errors_upto(lines, n)
            &&& readme::categories_upto(more, n) == readme::categories_upto(lines, n)
            &&& forall|key: CategoryKey|
                #[trigger] readme::last_heading(more, key, n) == readme::last_heading(lines, key, n)
            &&& n < lines.len() ==> readme::resource_at(more, n) == readme::resource_at(lines, n)
        }),
    decreases n,
{
    let more = lines.push(line);
    if n > 0 {
        lemma_later_line(lines, line, n - 1);
        assert(more[n - 1] == lines[n - 1]);
        assert(readme::heading_at(more, n - 1) == readme::heading_at(lines, n - 1));
        assert forall|key: CategoryKey| #[trigger]
            readme::last_heading(more, key, n) == readme::last_heading(lines, key, n) by {
            assert(readme::last_heading(more, key, n - 1) == readme::last_heading(
                lines,
                key,
                n - 1,
            ));
        }
    }
    if n < lines.len() {
        assert(more[n] == lines[n]);
    }
}

proof fn lemma_prose_category_errors(lines: Seq<Seq<char>>, line: Seq<char>, k: int)
    requires
        readme::line_kind(line) is Prose,
        0 <= k <= readme::categories_upto(lines, lines.len() as int).len(),
    ensures
        readme::categories_upto(lines.push(line), 1int + lines.len()) == readme::categories_upto(
            lines,
            lines.len() as int,
        ),
        readme::category_errors_upto(lines.push(line), k) == readme::category_errors_upto(lines, k),
    decreases k,
{
    let more = lines.push(line);
    let n = lines.len() as int;
    lemma_later_line(lines, line, n);
    assert(more[n] == line);
    if k > 0 {
        lemma_prose_category_errors(lines, line, k - 1);
        let key = readme::categories_upto(lines, n)[k - 1];
        assert(readme::last_heading(more, key, n + 1) == readme::last_heading(more, key, n));
        assert(readme::last_heading(more, key, n) == readme::last_heading(lines, key, n));
        let last = readme::last_heading(lines, key, n);
        lemma_category_has_heading(lines, n, key);
        assert(readme::is_populated(more, key, n + 1) == readme::is_populated(lines, key, n)) by {
            if readme::is_populated(lines, key, n) {
                let i = choose|i: int|
                    last < i < n && #[trigger] readme::is_resource_of(lines, i, key);
                lemma_later_line(lines, line, i);
                assert(readme::is_resource_of(more, i, key));
            }
            if readme::is_populated(more, key, n + 1) {
                let i = choose|i: int|
                    last < i < n + 1 && #[trigger] readme::is_resource_of(more, i, key);
                if i < n {
                    lemma_later_line(lines, line, i);
                    assert(readme::is_resource_of(lines, i, key));
                }
            }
        }
    }
}

/// A line of prose at the end, an empty one too, changes nothing.
pub proof fn prose_at_the_end_changes_nothing(readme_text: Seq<char>, line: Seq<char>)
    requires
        !line.contains('\n'),
        readme::line_kind(line) is Prose,
    ensures
        readme::resources_of(readme_text + "\n"@ + line) == readme::resources_of(readme_text),
        readme::errors_of(readme_text + "\n"@ + line) == readme::errors_of(readme_text),
{
    reveal_strlit("\n");
    let lines = readme::lines_of(readme_text);
    let n = lines.len() as int;
    let more = readme::lines_of(readme_text + "\n"@ + line);
    text::pieces_of_sum(readme_text, line, '\n');
    assert(readme_text + "\n"@ + line =~= readme_text.push('\n') + line);
    assert(more == lines.push(line));
    assert(more[n] == line);
    lemma_later_line(lines, line, n);
    lemma_prose_category_errors(lines, line, readme::categories_of(readme_text).len() as int);
}

/// An entry that is appended inside a category is listed behind all others, on
/// its line, with section and category of the place; one outside of a category
/// is not listed.
pub proof fn appended_entry_is_listed(readme_text: Seq<char>, p: EntryParts)
    requires
        pattern::is_entry(
            "- ["@ + p.title + "]("@ + p.url + "): "@ + p.description,
            p.title,
            p.url,
            p.description,
        ),
        !p.title.contains('\n'),
    ensures
        ({
            let lines = readme::lines_of(readme_text);
            let n = lines.len() as int;
            let line = "- ["@ + p.title + "]("@ + p.url + "): "@ + p.description;
            readme::resources_of(readme_text + "\n"@ + line) == if readme::category_at(
                lines,
                n,
            ).len() > 0 {
                readme::resources_of(readme_text).push(
                    ResourceView {
                        line: (n + 1) as nat,
                        section: readme::section_at(lines, n),
                        category: readme::category_at(lines, n),
                        title: text::trimmed(p.title),
                        url: p.url,
                        description: text::trimmed(p.description),
                    },
                )
            } else {
                readme::resources_of(readme_text)
            }
        }),
{
    reveal_strlit("\n");
    reveal_strlit("- [");
    reveal_strlit("](");
    reveal_strlit("): ");
    let line = "- ["@ + p.title + "]("@ + p.url + "): "@ + p.description;
    let lines = readme::lines_of(readme_text);
    let n = lines.len() as int;
    assert(!line.contains('\n')) by {
        if line.contains('\n') {
            let i = line.index_of('\n');
            let a = 3int + p.title.len();
            let b = a + 2 + p.url.len();
            if 3 <= i < a {
                assert(p.title[i - 3] == '\n');
            } else if a + 2 <= i < b {
                assert(p.url[i - a - 2] == '\n');
                assert(!text::white_space(p.url[i - a - 2]));
            } else if i >= b + 3 {
                assert(p.description[i - b - 3] == '\n');
            }
        }
    }
    written_entry_is_read_back(p);
    text::pieces_of_sum(readme_text, line, '\n');
    assert(readme_text + "\n"@ + line =~= readme_text.push('\n') + line);
    assert(lines.push(line)[n] == line);
    lemma_later_line(lines, line, n);
}

/// A resource one line further down.
pub open spec fn one_line_down(r: ResourceView) -> ResourceView {
    ResourceView { line: r.line + 1, ..r }
}

/// Resources one line further down.
pub open spec fn all_one_line_down(rs: Seq<ResourceView>) -> Seq<ResourceView> {
    rs.map_values(|r: ResourceView| one_line_down(r))
}

/// What is said of a line below a line of prose.
proof fn lemma_earlier_line(lines: Seq<Seq<char>>, line: Seq<char>, n: int)
    requires
        readme::line_kind(line) is Prose,
        0 <= n <= lines.len(),
    ensures
        ({
            let more = seq![line] + lines;
            &&& readme::section_at(more, n + 1) == readme::section_at(lines, n)
            &&& readme::category_at(more, n + 1) == readme::category_at(lines, n)
            &&& readme::resources_upto(more, n + 1) == all_one_line_down(
                readme::resources_upto(lines, n),
            )
            &&& readme::line_errors_upto(more, n + 1).len() == readme::line_errors_upto(
                lines,
                n,
            ).len()
            &&& readme::categories_upto(more, n + 1) == readme::categories_upto(lines, n)
            &&& forall|key: CategoryKey| #[trigger]
                readme::last_heading(more, key, n + 1) == if readme::last_heading(lines, key, n)
                    < 0 {
                    -1
                } else {
                    readme::last_heading(lines, key, n) + 1
                }
            &&& n < lines.len() ==> readme::resource_at(more, n + 1) == match readme::resource_at(
                lines,
                n,
            ) {
                Some(r) => Some(one_line_down(r)),
                None => None,
            }
        }),
    decreases n,
{
    let more = seq![line] + lines;
    if n > 0 {
        lemma_earlier_line(lines, line, n - 1);
        assert(more[n] == lines[n - 1]);
        assert(readme::heading_at(more, n) == readme::heading_at(lines, n - 1));
        assert(readme::resources_upto(more, n + 1) =~= all_one_line_down(
            readme::resources_upto(lines, n),
        ));
        assert forall|key: CategoryKey| #[trigger]
            readme::last_heading(more, key, n + 1) == if readme::last_heading(lines, key, n) < 0 {
                -1
            } else {
                readme::last_heading(lines, key, n) + 1
            } by {
            assert(readme::last_heading(more, key, n - 1 + 1) == readme::last_heading(more, key, n));
        }
    } else {
        assert(more[0] == line);
        reveal_with_fuel(readme::section_at, 2);
        reveal_with_fuel(readme::category_at, 2);
        reveal_with_fuel(readme::resources_upto, 2);
        reveal_with_fuel(readme::line_errors_upto, 2);
        reveal_with_fuel(readme::categories_upto, 2);
        reveal_with_fuel(readme::last_heading, 2);
        assert(readme::resources_upto(more, 1) =~= all_one_line_down(
            readme::resources_upto(lines, 0),
        ));
    }
    if n < lines.len() {
        assert(more[n + 1] == lines[n]);
    }
}

proof fn lemma_category_errors_below(lines: Seq<Seq<char>>, line: Seq<char>, k: int)
    requires
        readme::line_kind(line) is Prose,
        0 <= k <= readme::categories_upto(lines, lines.len() as int).len(),
    ensures
        readme::category_errors_upto(seq![line] + lines, k).len() == readme::category_errors_upto(
            lines,
            k,
        ).len(),
    decreases k,
{
    let more = seq![line] + lines;
    let n = lines.len() as int;
    lemma_earlier_line(lines, line, n);
    if k > 0 {
        lemma_category_errors_below(lines, line, k - 1);
        let key = readme::categories_upto(lines, n)[k - 1];
        lemma_category_has_heading(lines, n, key);
        let last = readme::last_heading(lines, key, n);
        assert(readme::last_heading(more, key, n + 1) == last + 1);
        assert(readme::is_populated(more, key, n + 1) == readme::is_populated(lines, key, n)) by {
            if readme::is_populated(lines, key, n) {
                let i = choose|i: int|
                    last < i < n && #[trigger] readme::is_resource_of(lines, i, key);
                lemma_earlier_line(lines, line, i);
                assert(readme::is_resource_of(more, i + 1, key));
            }
            if readme::is_populated(more, key, n + 1) {
                let i = choose|i: int|
                    last + 1 < i < n + 1 && #[trigger] readme::is_resource_of(more, i, key);
                lemma_earlier_line(lines, line, i - 1);
                assert(readme::is_resource_of(lines, i - 1, key));
            }
        }
    }
}

/// Titles and URLs are judged alike wherever their lines stand.
proof fn lemma_resource_errors_below(rs: Seq<ResourceView>, n: int)
    requires
        0 <= n <= rs.len(),
    ensures
        forall|key: Seq<char>| #[trigger]
            readme::first_with_title(all_one_line_down(rs), key, n) == readme::first_with_title(
                rs,
                key,
                n,
            ),
        forall|key: Seq<char>| #[trigger]
            readme::first_with_url(all_one_line_down(rs), key, n) == readme::first_with_url(
                rs,
                key,
                n,
            ),
        readme::resource_errors_upto(all_one_line_down(rs), n).len()
            == readme::resource_errors_upto(rs, n).len(),
    decreases n,
{
    if n > 0 {
        lemma_resource_errors_below(rs, n - 1);
        let below = all_one_line_down(rs);
        assert(below[n - 1] == one_line_down(rs[n - 1]));
        assert forall|key: Seq<char>| #[trigger]
            readme::first_with_title(below, key, n) == readme::first_with_title(rs, key, n) by {
            assert(readme::first_with_title(below, key, n - 1) == readme::first_with_title(
                rs,
                key,
                n - 1,
            ));
        }
        assert forall|key: Seq<char>| #[trigger]
            readme::first_with_url(below, key, n) == readme::first_with_url(rs, key, n) by {
            assert(readme::first_with_url(below, key, n - 1) == readme::first_with_url(
                rs,
                key,
                n - 1,
            ));
        }
    }
}

/// A line of prose in front, an empty one too, moves every resource down by one
/// line and leaves the number of errors.
pub proof fn prose_in_front_moves_lines(readme_text: Seq<char>, line: Seq<char>)
    requires
        !line.contains('\n'),
        readme::line_kind(line) is Prose,
    ensures
        readme::resources_of(line + "\n"@ + readme_text) == all_one_line_down(
            readme::resources_of(readme_text),
        ),
        readme::errors_of(line + "\n"@ + readme_text).len() == readme::errors_of(readme_text).len(),
{
    reveal_strlit("\n");
    let lines = readme::lines_of(readme_text);
    let n = lines.len() as int;
    let rs = readme::resources_of(readme_text);
    text::pieces_after_first(line, readme_text, '\n');
    assert(line + "\n"@ + readme_text =~= line.push('\n') + readme_text);
    assert((seq![line] + lines).len() == n + 1);
    lemma_earlier_line(lines, line, n);
    lemma_category_errors_below(lines, line, readme::categories_of(readme_text).len() as int);
    lemma_resource_errors_below(rs, rs.len() as int);
}

proof fn lemma_trim_keeps_last(s: Seq<char>)
    requires
        s.len() > 0,
        !text::white_space(s.last()),
    ensures
        text::trimmed(s).len() > 0,
        text::trimmed(s).last() == s.last(),
    decreases s.len(),
{
    if text::white_space(s[0]) {
        assert(s.drop_first().len() > 0);
        assert(s.drop_first().last() == s.last());
        lemma_trim_keeps_last(s.drop_first());
    }
}

/// In a README without errors every description ends with a period.
pub proof fn descriptions_end_with_period(readme_text: Seq<char>)
    requires
        readme::errors_of(readme_text).len() == 0,
    ensures
        forall|i: int|
            0 <= i < readme::resources_of(readme_text).len() ==> {
                let r = #[trigger] readme::resources_of(readme_text)[i];
                r.description.len() > 0 && r.description.last() == '.'
            },
{
    let lines = readme::lines_of(readme_text);
    let rs = readme::resources_of(readme_text);
    no_errors_means_well_formed(readme_text);
    resources_are_the_entries(readme_text);
    assert forall|i: int| 0 <= i < rs.len() implies {
        let r = #[trigger] rs[i];
        r.description.len() > 0 && r.description.last() == '.'
    } by {
        let r = rs[i];
        assert(is_listed(r, lines));
        let n = r.line - 1;
        assert(is_good_line(lines, n));
        match readme::line_kind(lines[n]) {
            Line::Entry(parts) => {
                assert(pattern::entry_parts(lines[n]) == Some(parts));
                assert(pattern::is_entry(lines[n], parts.title, parts.url, parts.description));
                lemma_trim_keeps_last(parts.description);
            },
            _ => {},
        }
    }
}

/// What is said of a duplicate points to the first use, on an earlier line.
pub proof fn duplicates_point_back(readme_text: Seq<char>, i: int)
    requires
        0 <= i < readme::resources_of(readme_text).len(),
    ensures
        ({
            let rs = readme::resources_of(readme_text);
            let title = text::lowercase(rs[i].title);
            &&& readme::title_error(rs, i) is Some <==> exists|k: int|
                0 <= k < i && text::lowercase(#[trigger] rs[k].title) == title
            &&& readme::first_with_title(rs, title, i) matches Some(j) ==> 0 <= j < i && rs[j].line
                < rs[i].line && text::lowercase(rs[j].title) == title && forall|k: int|
                0 <= k < j ==> text::lowercase(#[trigger] rs[k].title) != title
        }),
        ({
            let rs = readme::resources_of(readme_text);
            url::normal_form(rs[i].url) matches Ok(key) ==> {
                &&& readme::url_error(rs, i) is Some <==> exists|k: int|
                    0 <= k < i && url::normal_form(#[trigger] rs[k].url) == url::normal_form(
                        rs[i].url,
                    )
                &&& readme::first_with_url(rs, key, i) matches Some(j) ==> 0 <= j < i && rs[j].line
                    < rs[i].line && url::normal_form(rs[j].url) == url::normal_form(rs[i].url)
                    && forall|k: int|
                    0 <= k < j ==> url::normal_form(#[trigger] rs[k].url) != url::normal_form(
                        rs[i].url,
                    )
            }
        }),
{
    let rs = readme::resources_of(readme_text);
    resources_are_the_entries(readme_text);
    lemma_first_with_title(rs, text::lowercase(rs[i].title), i);
    match readme::first_with_title(rs, text::lowercase(rs[i].title), i) {
        Some(j) => {
            assert(text::lowercase(rs[j].title) == text::lowercase(rs[i].title));
        },
        None => {},
    }
    match url::normal_form(rs[i].url) {
        Ok(key) => {
            lemma_first_with_url(rs, key, i);
            match readme::first_with_url(rs, key, i) {
                Some(j) => {
                    assert(url::normal_form(rs[j].url) == url::normal_form(rs[i].url));
                },
                None => {},
            }
        },
        Err(_) => {},
    }
}

}
