//! What the comparison of two revisions promises.
use crate::churn;
use crate::churn::SignatureView;
use crate::readme;
use crate::readme::{Resource, ResourceView};
use crate::readme_laws;
use crate::text;
use vstd::prelude::*;
use vstd::seq_lib::*;
use vstd::utf8::*;

verus! {

/// Nothing is reported exactly where both revisions are valid and no limit is
/// exceeded: at most six entries changed, at most three more than before, at most
/// one of the changed ones foundational.
pub proof fn no_churn_errors_means_within_limits(base: Seq<char>, current: Seq<char>)
    ensures
        churn::churn_errors(base, current).len() == 0 <==> {
            let old_titles = churn::by_title(readme::resources_of(base));
            let new_titles = churn::by_title(readme::resources_of(current));
            &&& readme::errors_of(base).len() == 0
            &&& readme::errors_of(current).len() == 0
            &&& churn::changed_titles(old_titles, new_titles).len() <= 6
            &&& readme::resources_of(current).len() <= readme::resources_of(base).len() + 3
            &&& churn::changed_foundations(old_titles, new_titles).len() <= 1
        },
{
}

/// Where a revision is not valid there is one message, whatever changed.
pub proof fn invalid_revisions_are_not_compared(base: Seq<char>, current: Seq<char>)
    requires
        readme::errors_of(base).len() > 0 || readme::errors_of(current).len() > 0,
    ensures
        churn::churn_errors(base, current) == seq![
            "cannot calculate churn until both README versions are structurally valid"@,
        ],
{
}

/// Revisions that say the same of every title have no changed entries, however
/// their lines are arranged.
pub proof fn same_signatures_are_no_change(
    base: Map<Seq<char>, ResourceView>,
    current: Map<Seq<char>, ResourceView>,
)
    requires
        forall|t: Seq<char>|
            #[trigger] churn::signature_in(base, t) == churn::signature_in(current, t),
    ensures
        churn::changed_titles(base, current) == Set::<Seq<char>>::empty(),
        churn::changed_foundations(base, current) == Set::<Seq<char>>::empty(),
{
    assert(churn::changed_titles(base, current) =~= Set::<Seq<char>>::empty());
    assert(churn::changed_foundations(base, current) =~= Set::<Seq<char>>::empty());
}

/// A valid README may stay as it is.
pub proof fn no_change_is_accepted(readme_text: Seq<char>)
    requires
        readme::errors_of(readme_text).len() == 0,
    ensures
        churn::churn_errors(readme_text, readme_text).len() == 0,
{
    let titles = churn::by_title(readme::resources_of(readme_text));
    same_signatures_are_no_change(titles, titles);
    no_churn_errors_means_within_limits(readme_text, readme_text);
}

/// A change counts the same in both directions.
pub proof fn changes_are_symmetric(
    base: Map<Seq<char>, ResourceView>,
    current: Map<Seq<char>, ResourceView>,
)
    ensures
        churn::changed_titles(base, current) == churn::changed_titles(current, base),
        churn::changed_foundations(base, current) == churn::changed_foundations(current, base),
{
    assert(churn::changed_titles(base, current) =~= churn::changed_titles(current, base));
    assert(churn::changed_foundations(base, current) =~= churn::changed_foundations(current, base));
}

/// What changed over two steps changed in one of them.
pub proof fn changes_add_up(
    first: Map<Seq<char>, ResourceView>,
    second: Map<Seq<char>, ResourceView>,
    third: Map<Seq<char>, ResourceView>,
)
    ensures
        churn::changed_titles(first, third).subset_of(
            churn::changed_titles(first, second).union(churn::changed_titles(second, third)),
        ),
{
}

/// Whether a list of resources has no two titles that fold to the same key.
pub open spec fn has_distinct_keys(rs: Seq<ResourceView>) -> bool {
    churn::title_keys(rs).no_duplicates()
}

/// Keys that are distinct hide nothing.
proof fn lemma_keyed_upto(keys: Seq<Seq<char>>, rs: Seq<ResourceView>, n: int)
    requires
        0 <= n <= rs.len(),
        keys.len() == rs.len(),
    ensures
        churn::keyed_upto(keys, rs, n).dom().finite(),
        churn::keyed_upto(keys, rs, n).dom().len() <= n,
        forall|t: Seq<char>| #[trigger]
            churn::keyed_upto(keys, rs, n).contains_key(t) <==> exists|i: int|
                0 <= i < n && #[trigger] keys[i] == t,
        forall|t: Seq<char>| #[trigger]
            churn::keyed_upto(keys, rs, n).contains_key(t) ==> exists|i: int|
                0 <= i < n && #[trigger] keys[i] == t && churn::keyed_upto(keys, rs, n)[t] == rs[i],
        keys.no_duplicates() ==> churn::keyed_upto(keys, rs, n).dom().len() == n,
        keys.no_duplicates() ==> forall|i: int|
            0 <= i < n ==> churn::keyed_upto(keys, rs, n)[#[trigger] keys[i]] == rs[i],
    decreases n,
{
    if n > 0 {
        lemma_keyed_upto(keys, rs, n - 1);
        let before = churn::keyed_upto(keys, rs, n - 1);
        let now = churn::keyed_upto(keys, rs, n);
        let key = keys[n - 1];
        assert(now.dom() =~= before.dom().insert(key));
        assert forall|t: Seq<char>| #[trigger] now.contains_key(t) <==> exists|i: int|
            0 <= i < n && #[trigger] keys[i] == t by {
            if t == key {
                assert(keys[n - 1] == t);
            } else if before.contains_key(t) {
                let i = choose|i: int| 0 <= i < n - 1 && #[trigger] keys[i] == t;
                assert(keys[i] == t);
            }
        }
        assert forall|t: Seq<char>| #[trigger] now.contains_key(t) implies exists|i: int|
            0 <= i < n && #[trigger] keys[i] == t && now[t] == rs[i] by {
            if t == key {
                assert(keys[n - 1] == t && now[t] == rs[n - 1]);
            } else {
                assert(before.contains_key(t));
                let i = choose|i: int|
                    0 <= i < n - 1 && #[trigger] keys[i] == t && before[t] == rs[i];
                assert(keys[i] == t && now[t] == rs[i]);
            }
        }
    }
}

/// Where no two titles fold to the same key no title hides another: every
/// resource is found by its title, and there are as many titles as resources.
pub proof fn distinct_titles_find_every_resource(rs: Seq<ResourceView>)
    requires
        has_distinct_keys(rs),
    ensures
        ({
            let titles = churn::by_title(rs);
            &&& titles.dom().finite()
            &&& titles.dom().len() == rs.len()
            &&& forall|i: int|
                0 <= i < rs.len() ==> titles.contains_key(text::folded(#[trigger] rs[i].title))
                    && titles[text::folded(rs[i].title)] == rs[i]
        }),
{
    let keys = churn::title_keys(rs);
    lemma_keyed_upto(keys, rs, rs.len() as int);
    assert forall|i: int| 0 <= i < rs.len() implies churn::by_title(rs).contains_key(
        text::folded(#[trigger] rs[i].title),
    ) && churn::by_title(rs)[text::folded(rs[i].title)] == rs[i] by {
        assert(keys[i] == text::folded(rs[i].title));
    }
}

/// In a valid README every resource is found by its title, unless folding makes
/// two titles the same that differ in lower case.
pub proof fn valid_titles_find_every_resource(readme_text: Seq<char>)
    requires
        readme::errors_of(readme_text).len() == 0,
        ({
            let rs = readme::resources_of(readme_text);
            forall|i: int, j: int|
                0 <= i < j < rs.len() && text::folded(#[trigger] rs[i].title) == text::folded(
                    #[trigger] rs[j].title,
                ) ==> text::lowercase(rs[i].title) == text::lowercase(rs[j].title)
        }),
    ensures
        ({
            let rs = readme::resources_of(readme_text);
            let titles = churn::by_title(rs);
            &&& titles.dom().finite()
            &&& titles.dom().len() == rs.len()
            &&& forall|i: int|
                0 <= i < rs.len() ==> titles.contains_key(text::folded(#[trigger] rs[i].title))
                    && titles[text::folded(rs[i].title)] == rs[i]
        }),
        has_distinct_keys(readme::resources_of(readme_text)),
{
    readme_laws::no_errors_means_well_formed(readme_text);
    let rs = readme::resources_of(readme_text);
    let keys = churn::title_keys(rs);
    assert forall|i: int, j: int| 0 <= i < keys.len() && 0 <= j < keys.len() && i
        != j implies keys[i] != keys[j] by {
        assert(keys[i] == text::folded(rs[i].title));
        assert(keys[j] == text::folded(rs[j].title));
        if i < j {
            assert(text::lowercase(rs[i].title) != text::lowercase(rs[j].title));
        } else {
            assert(text::lowercase(rs[j].title) != text::lowercase(rs[i].title));
        }
    }
    distinct_titles_find_every_resource(rs);
}

/// Whether all titles are ASCII.
pub open spec fn has_ascii_titles(rs: Seq<ResourceView>) -> bool {
    forall|i: int| 0 <= i < rs.len() ==> is_ascii_chars(#[trigger] rs[i].title)
}

/// In a valid README whose titles are all ASCII every resource is found by its
/// title.
pub proof fn ascii_titles_find_every_resource(readme_text: Seq<char>)
    requires
        readme::errors_of(readme_text).len() == 0,
        has_ascii_titles(readme::resources_of(readme_text)),
    ensures
        ({
            let rs = readme::resources_of(readme_text);
            let titles = churn::by_title(rs);
            &&& titles.dom().finite()
            &&& titles.dom().len() == rs.len()
            &&& forall|i: int|
                0 <= i < rs.len() ==> titles.contains_key(text::lowercase(#[trigger] rs[i].title))
                    && titles[text::lowercase(rs[i].title)] == rs[i]
        }),
        has_distinct_keys(readme::resources_of(readme_text)),
{
    let rs = readme::resources_of(readme_text);
    assert forall|i: int| 0 <= i < rs.len() implies text::folded(#[trigger] rs[i].title)
        == text::lowercase(rs[i].title) by {
        assert(is_ascii_chars(rs[i].title));
    }
    valid_titles_find_every_resource(readme_text);
}

/// The list grows by no more entries than changed, where no two titles of the
/// later revision fold to the same key.
pub proof fn growth_is_bounded_by_changes(base: Seq<ResourceView>, current: Seq<ResourceView>)
    requires
        has_distinct_keys(current),
    ensures
        current.len() - base.len() <= churn::changed_titles(
            churn::by_title(base),
            churn::by_title(current),
        ).len(),
{
    let b = churn::by_title(base);
    let c = churn::by_title(current);
    lemma_keyed_upto(churn::title_keys(base), base, base.len() as int);
    distinct_titles_find_every_resource(current);
    let changed = churn::changed_titles(b, c);
    assert(changed.subset_of(b.dom().union(c.dom())));
    vstd::set_lib::lemma_len_subset(changed, b.dom().union(c.dom()));
    assert(c.dom().subset_of(b.dom().union(changed))) by {
        assert forall|t: Seq<char>| c.dom().contains(t) implies b.dom().union(changed).contains(
            t,
        ) by {
            if !b.contains_key(t) {
                assert(churn::signature_in(b, t) is None);
                assert(churn::signature_in(c, t) is Some);
            }
        }
    }
    vstd::set_lib::lemma_len_subset(c.dom(), b.dom().union(changed));
    vstd::set_lib::lemma_len_union(b.dom(), changed);
}

/// What is compared of resources, each with its folded title: neither the lines
/// that they stand on nor the case of their titles.
pub open spec fn entries_by_fold(rs: Seq<ResourceView>) -> Seq<(Seq<char>, SignatureView)> {
    rs.map_values(|r: ResourceView| (text::folded(r.title), churn::signature_of(r)))
}

/// What is compared of resources, each with its title in lower case.
pub open spec fn entries_by_lowercase(rs: Seq<ResourceView>) -> Seq<(Seq<char>, SignatureView)> {
    rs.map_values(|r: ResourceView| (text::lowercase(r.title), churn::signature_of(r)))
}

/// Whether two resources are the same entry but for the line and for the case of
/// the title.
pub open spec fn is_same_entry(r: ResourceView, s: ResourceView) -> bool {
    text::folded(r.title) == text::folded(s.title) && churn::signature_of(r)
        == churn::signature_of(s)
}

/// Whether a resource is an entry of a list.
pub open spec fn is_found_in(r: ResourceView, list: Seq<ResourceView>) -> bool {
    exists|j: int| 0 <= j < list.len() && is_same_entry(r, #[trigger] list[j])
}

/// Whether every one of these resources is an entry of that list.
pub open spec fn all_found_in(rs: Seq<ResourceView>, list: Seq<ResourceView>) -> bool {
    forall|i: int| 0 <= i < rs.len() ==> is_found_in(#[trigger] rs[i], list)
}

/// Lists with the same entries say the same of every title.
proof fn lemma_same_entries(a: Seq<ResourceView>, b: Seq<ResourceView>, t: Seq<char>)
    requires
        has_distinct_keys(a),
        all_found_in(a, b),
        all_found_in(b, a),
    ensures
        churn::signature_in(churn::by_title(a), t) == churn::signature_in(churn::by_title(b), t),
{
    let keys_a = churn::title_keys(a);
    let keys_b = churn::title_keys(b);
    lemma_keyed_upto(keys_a, a, a.len() as int);
    lemma_keyed_upto(keys_b, b, b.len() as int);
    if churn::by_title(b).contains_key(t) {
        let i = choose|i: int|
            0 <= i < b.len() && #[trigger] keys_b[i] == t && churn::by_title(b)[t] == b[i];
        assert(is_found_in(b[i], a));
        let j = choose|j: int| 0 <= j < a.len() && is_same_entry(b[i], #[trigger] a[j]);
        assert(keys_a[j] == t);
        assert(churn::by_title(a)[keys_a[j]] == a[j]);
    } else if churn::by_title(a).contains_key(t) {
        let j = choose|j: int| 0 <= j < a.len() && #[trigger] keys_a[j] == t;
        assert(is_found_in(a[j], b));
        let i = choose|i: int| 0 <= i < b.len() && is_same_entry(a[j], #[trigger] b[i]);
        assert(keys_b[i] == t);
    }
}

proof fn lemma_same_entries_are_accepted(base: Seq<char>, current: Seq<char>)
    requires
        readme::errors_of(base).len() == 0,
        readme::errors_of(current).len() == 0,
        readme::resources_of(base).len() == readme::resources_of(current).len(),
        has_distinct_keys(readme::resources_of(base)),
        all_found_in(readme::resources_of(base), readme::resources_of(current)),
        all_found_in(readme::resources_of(current), readme::resources_of(base)),
    ensures
        churn::churn_errors(base, current).len() == 0,
{
    let a = readme::resources_of(base);
    let b = readme::resources_of(current);
    assert forall|t: Seq<char>| #[trigger]
        churn::signature_in(churn::by_title(a), t) == churn::signature_in(
            churn::by_title(b),
            t,
        ) by {
        lemma_same_entries(a, b, t);
    }
    same_signatures_are_no_change(churn::by_title(a), churn::by_title(b));
    no_churn_errors_means_within_limits(base, current);
}

/// What equal multisets of entries have in common.
proof fn lemma_entry_found<A>(from: Seq<A>, to: Seq<A>, i: int) -> (j: int)
    requires
        from.to_multiset() == to.to_multiset(),
        0 <= i < from.len(),
    ensures
        0 <= j < to.len(),
        to[j] == from[i],
{
    assert(from.contains(from[i]));
    to_multiset_contains(from, from[i]);
    to_multiset_contains(to, from[i]);
    to.index_of(from[i])
}

proof fn lemma_found_by_fold(rs: Seq<ResourceView>, list: Seq<ResourceView>)
    requires
        entries_by_fold(rs).to_multiset() == entries_by_fold(list).to_multiset(),
    ensures
        all_found_in(rs, list),
{
    assert forall|i: int| 0 <= i < rs.len() implies is_found_in(#[trigger] rs[i], list) by {
        let j = lemma_entry_found(entries_by_fold(rs), entries_by_fold(list), i);
        assert(entries_by_fold(rs)[i] == (text::folded(rs[i].title), churn::signature_of(rs[i])));
        assert(is_same_entry(rs[i], list[j]));
    }
}

/// Rearranging the entries of a valid README is accepted: where the entries of
/// the later revision are those of the earlier one in any order, on any lines and
/// with their titles in any case, nothing is reported. No two titles may fold to
/// the same key, for of two such entries the order decides which one counts.
pub proof fn rearranged_entries_are_accepted(base: Seq<char>, current: Seq<char>)
    requires
        readme::errors_of(base).len() == 0,
        readme::errors_of(current).len() == 0,
        has_distinct_keys(readme::resources_of(base)),
        entries_by_fold(readme::resources_of(base)).to_multiset() == entries_by_fold(
            readme::resources_of(current),
        ).to_multiset(),
    ensures
        churn::churn_errors(base, current).len() == 0,
{
    let a = readme::resources_of(base);
    let b = readme::resources_of(current);
    to_multiset_len(entries_by_fold(a));
    to_multiset_len(entries_by_fold(b));
    lemma_found_by_fold(a, b);
    lemma_found_by_fold(b, a);
    lemma_same_entries_are_accepted(base, current);
}

/// Whether titles fold to the same key exactly where they are the same in lower
/// case.
pub open spec fn folds_like_lowercase(rs: Seq<ResourceView>) -> bool {
    forall|i: int, j: int|
        0 <= i < rs.len() && 0 <= j < rs.len() ==> (text::folded(#[trigger] rs[i].title)
            == text::folded(#[trigger] rs[j].title) <==> text::lowercase(rs[i].title)
            == text::lowercase(rs[j].title))
}

proof fn lemma_found_by_lowercase(rs: Seq<ResourceView>, list: Seq<ResourceView>)
    requires
        folds_like_lowercase(rs + list) || folds_like_lowercase(list + rs),
        entries_by_lowercase(rs).to_multiset() == entries_by_lowercase(list).to_multiset(),
    ensures
        all_found_in(rs, list),
{
    assert forall|i: int| 0 <= i < rs.len() implies is_found_in(#[trigger] rs[i], list) by {
        let j = lemma_entry_found(entries_by_lowercase(rs), entries_by_lowercase(list), i);
        assert(entries_by_lowercase(rs)[i] == (
            text::lowercase(rs[i].title),
            churn::signature_of(rs[i]),
        ));
        if folds_like_lowercase(rs + list) {
            assert((rs + list)[i].title == rs[i].title);
            assert((rs + list)[rs.len() + j].title == list[j].title);
        } else {
            assert((list + rs)[list.len() + i].title == rs[i].title);
            assert((list + rs)[j].title == list[j].title);
        }
        assert(is_same_entry(rs[i], list[j]));
    }
}

/// Rearranging the entries of a valid README is accepted, with their titles
/// compared in lower case, where folding tells the titles of both revisions apart
/// exactly as lower case does.
pub proof fn rearranged_lowercase_entries_are_accepted(base: Seq<char>, current: Seq<char>)
    requires
        readme::errors_of(base).len() == 0,
        readme::errors_of(current).len() == 0,
        folds_like_lowercase(readme::resources_of(base) + readme::resources_of(current)),
        entries_by_lowercase(readme::resources_of(base)).to_multiset() == entries_by_lowercase(
            readme::resources_of(current),
        ).to_multiset(),
    ensures
        churn::churn_errors(base, current).len() == 0,
{
    let a = readme::resources_of(base);
    let b = readme::resources_of(current);
    to_multiset_len(entries_by_lowercase(a));
    to_multiset_len(entries_by_lowercase(b));
    assert forall|i: int, j: int| 0 <= i < j < a.len() && text::folded(#[trigger] a[i].title)
        == text::folded(#[trigger] a[j].title) implies text::lowercase(a[i].title)
        == text::lowercase(a[j].title) by {
        assert((a + b)[i].title == a[i].title && (a + b)[j].title == a[j].title);
    }
    valid_titles_find_every_resource(base);
    lemma_found_by_lowercase(a, b);
    lemma_found_by_lowercase(b, a);
    lemma_same_entries_are_accepted(base, current);
}

/// Rearranging the entries of a valid README whose titles are all ASCII is
/// accepted, whatever the case of the titles.
pub proof fn rearranged_ascii_entries_are_accepted(base: Seq<char>, current: Seq<char>)
    requires
        readme::errors_of(base).len() == 0,
        readme::errors_of(current).len() == 0,
        has_ascii_titles(readme::resources_of(base)),
        has_ascii_titles(readme::resources_of(current)),
        entries_by_lowercase(readme::resources_of(base)).to_multiset() == entries_by_lowercase(
            readme::resources_of(current),
        ).to_multiset(),
    ensures
        churn::churn_errors(base, current).len() == 0,
{
    let a = readme::resources_of(base);
    let b = readme::resources_of(current);
    assert forall|i: int| 0 <= i < (a + b).len() implies text::folded(
        #[trigger] (a + b)[i].title,
    ) == text::lowercase((a + b)[i].title) by {
        if i < a.len() {
            assert(is_ascii_chars(a[i].title));
        } else {
            assert(is_ascii_chars(b[i - a.len()].title));
        }
    }
    rearranged_lowercase_entries_are_accepted(base, current);
}

/// A title finds the last of the resources that have it as their key, and no other
/// title finds any.
pub proof fn last_resource_counts(keys: Seq<Seq<char>>, rs: Seq<ResourceView>, n: int, t: Seq<char>)
    requires
        0 <= n <= rs.len(),
        keys.len() == rs.len(),
    ensures
        churn::keyed_upto(keys, rs, n).contains_key(t) <==> exists|i: int|
            0 <= i < n && #[trigger] keys[i] == t,
        forall|i: int|
            0 <= i < n && #[trigger] keys[i] == t && (forall|j: int|
                i < j < n ==> #[trigger] keys[j] != t) ==> churn::keyed_upto(keys, rs, n)[t]
                == rs[i],
    decreases n,
{
    lemma_keyed_upto(keys, rs, n);
    if n > 0 {
        last_resource_counts(keys, rs, n - 1, t);
        assert forall|i: int|
            0 <= i < n && #[trigger] keys[i] == t && (forall|j: int|
                i < j < n ==> #[trigger] keys[j] != t) implies churn::keyed_upto(keys, rs, n)[t]
            == rs[i] by {
            if i < n - 1 {
                assert(keys[n - 1] != t);
            }
        }
    }
}

/// The resources of a revision are found by their titles, folded.
pub proof fn titles_are_keys(rs: Seq<ResourceView>, i: int)
    requires
        0 <= i < rs.len(),
    ensures
        churn::title_keys(rs).len() == rs.len(),
        churn::title_keys(rs)[i] == text::folded(rs[i].title),
        churn::by_title(rs) == churn::keyed_upto(churn::title_keys(rs), rs, rs.len() as int),
{
}

/// A title changed exactly where only one of the revisions has it, or where its
/// section, its category, its URL or its description differs between the two,
/// whatever the section is.
pub proof fn every_difference_is_a_change(
    base: Map<Seq<char>, ResourceView>,
    current: Map<Seq<char>, ResourceView>,
    t: Seq<char>,
)
    ensures
        churn::changed_titles(base, current).contains(t) <==> {
            ||| base.contains_key(t) != current.contains_key(t)
            ||| base.contains_key(t) && current.contains_key(t) && {
                ||| base[t].section != current[t].section
                ||| base[t].category != current[t].category
                ||| base[t].url != current[t].url
                ||| base[t].description != current[t].description
            }
        },
{
}

/// A changed title is foundational exactly where it stands in the section `Learn`,
/// in any case, before or after the change.
pub proof fn learn_is_foundational(
    base: Map<Seq<char>, ResourceView>,
    current: Map<Seq<char>, ResourceView>,
    t: Seq<char>,
)
    ensures
        churn::changed_foundations(base, current).contains(t) <==> {
            &&& churn::changed_titles(base, current).contains(t)
            &&& {
                ||| base.contains_key(t) && text::lowercase(base[t].section) == "learn"@
                ||| current.contains_key(t) && text::lowercase(current[t].section) == "learn"@
            }
        },
{
}

proof fn lemma_limit_message(count: nat, what: Seq<char>, limit: nat, digit: char)
    requires
        limit < 10,
        digit as nat == 48 + limit,
    ensures
        churn::limit_message(count, what, limit) == "churn limit exceeded: "@ + text::decimal(count)
            + (" "@ + what + " (maximum "@ + seq![digit] + ")"@),
{
    assert(text::decimal(limit) =~= seq![digit]);
    assert(churn::limit_message(count, what, limit) =~= "churn limit exceeded: "@ + text::decimal(
        count,
    ) + (" "@ + what + " (maximum "@ + seq![digit] + ")"@));
}

/// Between valid revisions every exceeded limit is told with the number that
/// exceeds it, and nothing else is: more than six changed entries, more than three
/// entries added on balance, more than one changed foundational entry, in this
/// order.
pub proof fn exceeded_limits_are_told(base: Seq<char>, current: Seq<char>)
    requires
        readme::errors_of(base).len() == 0,
        readme::errors_of(current).len() == 0,
    ensures
        ({
            let b = readme::resources_of(base);
            let c = readme::resources_of(current);
            let changed = churn::changed_titles(churn::by_title(b), churn::by_title(c)).len();
            let foundational = churn::changed_foundations(
                churn::by_title(b),
                churn::by_title(c),
            ).len();
            let none = Seq::<Seq<char>>::empty();
            let start = "churn limit exceeded: "@;
            churn::churn_errors(base, current) == (if changed > 6 {
                seq![start + text::decimal(changed) + " resource entries changed (maximum 6)"@]
            } else {
                none
            }) + (if c.len() > b.len() + 3 {
                seq![
                    start + text::decimal((c.len() - b.len()) as nat)
                        + " net entries added (maximum 3)"@,
                ]
            } else {
                none
            }) + (if foundational > 1 {
                seq![
                    start + text::decimal(foundational)
                        + " foundational entries changed (maximum 1)"@,
                ]
            } else {
                none
            })
        }),
{
    let b = readme::resources_of(base);
    let c = readme::resources_of(current);
    let changed = churn::changed_titles(churn::by_title(b), churn::by_title(c)).len();
    let foundational = churn::changed_foundations(churn::by_title(b), churn::by_title(c)).len();
    reveal_strlit(" ");
    reveal_strlit(" (maximum ");
    reveal_strlit(")");
    reveal_strlit("resource entries changed");
    reveal_strlit("net entries added");
    reveal_strlit("foundational entries changed");
    reveal_strlit(" resource entries changed (maximum 6)");
    reveal_strlit(" net entries added (maximum 3)");
    reveal_strlit(" foundational entries changed (maximum 1)");
    lemma_limit_message(changed, "resource entries changed"@, 6, '6');
    lemma_limit_message(foundational, "foundational entries changed"@, 1, '1');
    assert(" "@ + "resource entries changed"@ + " (maximum "@ + seq!['6'] + ")"@
        =~= " resource entries changed (maximum 6)"@);
    assert(" "@ + "net entries added"@ + " (maximum "@ + seq!['3'] + ")"@
        =~= " net entries added (maximum 3)"@);
    assert(" "@ + "foundational entries changed"@ + " (maximum "@ + seq!['1'] + ")"@
        =~= " foundational entries changed (maximum 1)"@);
    if c.len() > b.len() + 3 {
        lemma_limit_message((c.len() - b.len()) as nat, "net entries added"@, 3, '3');
    }
}

/// The model of a map of resources has every resource under its key.
pub proof fn map_models_keep_all_resources(m: Map<Seq<char>, Resource>, t: Seq<char>)
    ensures
        churn::map_view(m).contains_key(t) <==> m.contains_key(t),
        m.contains_key(t) ==> churn::map_view(m)[t] == m[t]@,
{
}

}
