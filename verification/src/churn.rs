//! How much changed from one revision of a README to the next, and the limits
//! to that.
use crate::readme;
use crate::readme::{Resource, ResourceView};
use crate::text;
use crate::text::{fold_case, same_text, to_decimal, to_lower};
use crate::validate::validate_text;
use vstd::hash_map::StringHashMap;
use vstd::prelude::*;

verus! {

/// How many entries may change.
pub const MAX_CHANGED: usize = 6;

/// By how many entries the list may grow.
pub const MAX_ADDED: usize = 3;

/// How many of the changed entries may be foundational.
pub const MAX_FOUNDATIONAL: usize = 1;

/// What is compared of a resource.
pub struct SignatureView {
    pub section: Seq<char>,
    pub category: Seq<char>,
    pub url: Seq<char>,
    pub description: Seq<char>,
}

/// What is compared of a resource.
pub open spec fn signature_of(r: ResourceView) -> SignatureView {
    SignatureView {
        section: r.section,
        category: r.category,
        url: r.url,
        description: r.description,
    }
}

/// The first `n` resources by their keys; of two with the same key the later one
/// counts.
pub open spec fn keyed_upto(keys: Seq<Seq<char>>, rs: Seq<ResourceView>, n: int) -> Map<
    Seq<char>,
    ResourceView,
>
    decreases n,
{
    if n <= 0 {
        Map::empty()
    } else {
        keyed_upto(keys, rs, n - 1).insert(keys[n - 1], rs[n - 1])
    }
}

/// The titles of resources, folded.
pub open spec fn title_keys(rs: Seq<ResourceView>) -> Seq<Seq<char>> {
    rs.map_values(|r: ResourceView| text::folded(r.title))
}

/// All resources by their folded titles.
pub open spec fn by_title(rs: Seq<ResourceView>) -> Map<Seq<char>, ResourceView> {
    keyed_upto(title_keys(rs), rs, rs.len() as int)
}

/// What is compared of the resource with this title, where there is one.
pub open spec fn signature_in(m: Map<Seq<char>, ResourceView>, title: Seq<char>) -> Option<
    SignatureView,
> {
    if m.contains_key(title) {
        Some(signature_of(m[title]))
    } else {
        None
    }
}

/// Whether the title stands in the section `Learn`.
pub open spec fn is_foundational(m: Map<Seq<char>, ResourceView>, title: Seq<char>) -> bool {
    m.contains_key(title) && text::lowercase(m[title].section) == "learn"@
}

/// The titles that were added, removed, or given another section, category,
/// URL or description.
pub open spec fn changed_titles(
    base: Map<Seq<char>, ResourceView>,
    current: Map<Seq<char>, ResourceView>,
) -> Set<Seq<char>> {
    base.dom().union(current.dom()).filter(
        |t: Seq<char>| signature_in(base, t) != signature_in(current, t),
    )
}

/// The changed titles that are foundational before or after the change.
pub open spec fn changed_foundations(
    base: Map<Seq<char>, ResourceView>,
    current: Map<Seq<char>, ResourceView>,
) -> Set<Seq<char>> {
    changed_titles(base, current).filter(
        |t: Seq<char>| is_foundational(base, t) || is_foundational(current, t),
    )
}

/// What is said of a limit that is exceeded.
pub open spec fn limit_message(count: nat, what: Seq<char>, limit: nat) -> Seq<char> {
    "churn limit exceeded: "@ + text::decimal(count) + " "@ + what + " (maximum "@ + text::decimal(
        limit,
    ) + ")"@
}

/// The message, where the count is over the limit.
pub open spec fn over_limit(count: int, what: Seq<char>, limit: usize) -> Option<Seq<char>> {
    if count > limit {
        Some(limit_message(count as nat, what, limit as nat))
    } else {
        None
    }
}

/// The limits that the step from one list of resources to the next exceeds.
pub open spec fn exceeded_limits(base: Seq<ResourceView>, current: Seq<ResourceView>) -> Seq<
    Seq<char>,
> {
    let changed = changed_titles(by_title(base), by_title(current)).len() as int;
    let added = current.len() - base.len();
    let foundational = changed_foundations(by_title(base), by_title(current)).len() as int;
    let first = readme::push_some(
        Seq::empty(),
        over_limit(changed, "resource entries changed"@, MAX_CHANGED),
    );
    let second = readme::push_some(first, over_limit(added, "net entries added"@, MAX_ADDED));
    readme::push_some(
        second,
        over_limit(foundational, "foundational entries changed"@, MAX_FOUNDATIONAL),
    )
}

/// What is wrong with the step from one revision of a README to the next.
pub open spec fn churn_errors(base: Seq<char>, current: Seq<char>) -> Seq<Seq<char>> {
    if readme::errors_of(base).len() > 0 || readme::errors_of(current).len() > 0 {
        seq!["cannot calculate churn until both README versions are structurally valid"@]
    } else {
        exceeded_limits(readme::resources_of(base), readme::resources_of(current))
    }
}

/// The model of a map of resources.
pub open spec fn map_view(m: Map<Seq<char>, Resource>) -> Map<Seq<char>, ResourceView> {
    m.map_values(|r: Resource| r@)
}

/// What is compared of a resource: its section, category, URL and description.
pub fn signature(resource: Option<&Resource>) -> (s: Option<(String, String, String, String)>)
    ensures
        match (resource, s) {
            (Some(r), Some(t)) => t.0@ == r@.section && t.1@ == r@.category && t.2@ == r@.url
                && t.3@ == r@.description,
            (None, None) => true,
            _ => false,
        },
{
    match resource {
        Some(r) => Some(
            (r.section.clone(), r.category.clone(), r.url.clone(), r.description.clone()),
        ),
        None => None,
    }
}

/// The titles of resources, folded.
fn fold_titles(resources: &Vec<Resource>) -> (keys: Vec<String>)
    ensures
        text::views(keys@) == title_keys(readme::resource_views(resources@)),
{
    let ghost all = title_keys(readme::resource_views(resources@));
    let mut keys: Vec<String> = Vec::new();
    let mut i: usize = 0;
    assert(text::views(keys@) =~= all.take(0));
    while i < resources.len()
        invariant
            i <= resources.len(),
            all == title_keys(readme::resource_views(resources@)),
            text::views(keys@) == all.take(i as int),
        decreases resources.len() - i,
    {
        let ghost before = text::views(keys@);
        keys.push(fold_case(resources[i].title.as_str()));
        proof {
            assert(readme::resource_views(resources@)[i as int] == resources@[i as int]@);
            assert(text::views(keys@) =~= before.push(all[i as int]));
            assert(before.push(all[i as int]) =~= all.take(i + 1));
        }
        i += 1;
    }
    assert(all.take(i as int) =~= all);
    keys
}

/// The resources by the keys that are given for them, one for each; of two with
/// the same key the later one counts.
pub fn map_by_keys(keys: &Vec<String>, resources: &Vec<Resource>) -> (m: StringHashMap<Resource>)
    requires
        keys@.len() == resources@.len(),
    ensures
        map_view(m@) == keyed_upto(
            text::views(keys@),
            readme::resource_views(resources@),
            resources@.len() as int,
        ),
{
    let ghost ks = text::views(keys@);
    let ghost rs = readme::resource_views(resources@);
    let mut m: StringHashMap<Resource> = StringHashMap::new();
    let mut i: usize = 0;
    assert(map_view(m@) =~= keyed_upto(ks, rs, 0));
    while i < resources.len()
        invariant
            i <= resources.len(),
            keys@.len() == resources@.len(),
            ks == text::views(keys@),
            rs == readme::resource_views(resources@),
            map_view(m@) == keyed_upto(ks, rs, i as int),
        decreases resources.len() - i,
    {
        m.insert(keys[i].clone(), resources[i].clone());
        assert(map_view(m@) =~= keyed_upto(ks, rs, i + 1));
        i += 1;
    }
    m
}

/// The resources by their folded titles; of two with the same key the later one
/// counts.
pub fn resource_map(resources: &Vec<Resource>) -> (m: StringHashMap<Resource>)
    ensures
        map_view(m@) == by_title(readme::resource_views(resources@)),
{
    let keys = fold_titles(resources);
    assert(text::views(keys@).len() == resources@.len());
    map_by_keys(&keys, resources)
}

/// Adds the folded titles of the resources that are not listed yet.
fn add_titles(
    resources: &Vec<Resource>,
    seen: &mut StringHashMap<bool>,
    titles: &mut Vec<String>,
)
    requires
        old(seen)@.dom() == text::views(old(titles)@).to_set(),
        text::views(old(titles)@).no_duplicates(),
    ensures
        final(seen)@.dom() == text::views(final(titles)@).to_set(),
        text::views(final(titles)@).no_duplicates(),
        text::views(final(titles)@).to_set() == text::views(old(titles)@).to_set().union(
            by_title(readme::resource_views(resources@)).dom(),
        ),
{
    let ghost rs = readme::resource_views(resources@);
    let ghost ks = title_keys(rs);
    let ghost first = text::views(titles@).to_set();
    let mut i: usize = 0;
    assert(first.union(keyed_upto(ks, rs, 0).dom()) =~= first);
    while i < resources.len()
        invariant
            i <= resources.len(),
            rs == readme::resource_views(resources@),
            ks == title_keys(rs),
            seen@.dom() == text::views(titles@).to_set(),
            text::views(titles@).no_duplicates(),
            text::views(titles@).to_set() == first.union(keyed_upto(ks, rs, i as int).dom()),
        decreases resources.len() - i,
    {
        let key = fold_case(resources[i].title.as_str());
        let ghost before = text::views(titles@);
        if !seen.contains_key(key.as_str()) {
            assert(!before.contains(key@));
            seen.insert(key.clone(), true);
            titles.push(key);
            proof {
                assert(text::views(titles@) =~= before.push(key@));
                before.lemma_push_to_set_commute(key@);
                assert(seen@.dom() =~= before.to_set().insert(key@));
            }
        } else {
            assert(before.to_set().insert(key@) =~= before.to_set());
        }
        assert(text::views(titles@).to_set() =~= first.union(keyed_upto(ks, rs, i + 1).dom()));
        i += 1;
    }
}

/// Whether two signatures are the same.
fn same_signature(
    a: &Option<(String, String, String, String)>,
    b: &Option<(String, String, String, String)>,
) -> (same: bool)
    ensures
        same == match (*a, *b) {
            (Some(x), Some(y)) => x.0@ == y.0@ && x.1@ == y.1@ && x.2@ == y.2@ && x.3@ == y.3@,
            (None, None) => true,
            _ => false,
        },
{
    match (a, b) {
        (Some(x), Some(y)) => same_text(x.0.as_str(), y.0.as_str()) && same_text(
            x.1.as_str(),
            y.1.as_str(),
        ) && same_text(x.2.as_str(), y.2.as_str()) && same_text(x.3.as_str(), y.3.as_str()),
        (None, None) => true,
        _ => false,
    }
}

/// Whether the title stands in the section `Learn`.
fn in_learn(m: &StringHashMap<Resource>, title: &str) -> (b: bool)
    ensures
        b == is_foundational(map_view(m@), title@),
{
    match m.get(title) {
        Some(r) => same_text(to_lower(r.section.as_str()).as_str(), "learn"),
        None => false,
    }
}

/// Counts the changed titles, and those of them that are foundational.
fn count_changes(
    titles: &Vec<String>,
    base: &StringHashMap<Resource>,
    current: &StringHashMap<Resource>,
) -> (counts: (usize, usize))
    requires
        text::views(titles@).no_duplicates(),
        text::views(titles@).to_set() == map_view(base@).dom().union(map_view(current@).dom()),
    ensures
        counts.0 == changed_titles(map_view(base@), map_view(current@)).len(),
        counts.1 == changed_foundations(map_view(base@), map_view(current@)).len(),
{
    let ghost b = map_view(base@);
    let ghost c = map_view(current@);
    let ghost all = text::views(titles@);
    let ghost mut changed: Seq<Seq<char>> = Seq::empty();
    let ghost mut foundations: Seq<Seq<char>> = Seq::empty();
    let mut changed_count: usize = 0;
    let mut foundation_count: usize = 0;
    let mut i: usize = 0;
    while i < titles.len()
        invariant
            i <= titles.len(),
            b == map_view(base@),
            c == map_view(current@),
            all == text::views(titles@),
            all.no_duplicates(),
            changed_count == changed.len() <= i,
            foundation_count == foundations.len() <= i,
            changed.no_duplicates(),
            foundations.no_duplicates(),
            forall|t: Seq<char>| #[trigger]
                changed.contains(t) <==> all.take(i as int).contains(t) && signature_in(b, t)
                    != signature_in(c, t),
            forall|t: Seq<char>| #[trigger]
                foundations.contains(t) <==> changed.contains(t) && (is_foundational(b, t)
                    || is_foundational(c, t)),
        decreases titles.len() - i,
    {
        let title = titles[i].as_str();
        let old_signature = signature(base.get(title));
        let new_signature = signature(current.get(title));
        let ghost k = i as int;
        proof {
            assert(all[k] == title@);
            assert(!all.take(k).contains(title@));
            assert(all.take(k + 1) =~= all.take(k).push(title@));
            assert forall|t: Seq<char>|
                all.take(k + 1).contains(t) <==> all.take(k).contains(t) || t == title@ by {
                if all.take(k).contains(t) {
                    let j = all.take(k).index_of(t);
                    assert(all.take(k + 1)[j] == t);
                }
                assert(all.take(k + 1)[k] == title@);
            }
        }
        if !same_signature(&old_signature, &new_signature) {
            changed_count += 1;
            let ghost changed_before = changed;
            proof {
                changed = changed.push(title@);
                assert forall|t: Seq<char>|
                    changed.contains(t) <==> changed_before.contains(t) || t == title@ by {
                    if changed_before.contains(t) {
                        let j = changed_before.index_of(t);
                        assert(changed[j] == t);
                    }
                    assert(changed[changed_before.len() as int] == title@);
                }
            }
            if in_learn(base, title) || in_learn(current, title) {
                foundation_count += 1;
                proof {
                    let before = foundations;
                    assert(!before.contains(title@));
                    foundations = foundations.push(title@);
                    assert forall|t: Seq<char>|
                        foundations.contains(t) <==> before.contains(t) || t == title@ by {
                        if before.contains(t) {
                            let j = before.index_of(t);
                            assert(foundations[j] == t);
                        }
                        assert(foundations[before.len() as int] == title@);
                    }
                }
            }
        }
        i += 1;
    }
    proof {
        assert(all.take(i as int) =~= all);
        changed.unique_seq_to_set();
        foundations.unique_seq_to_set();
        assert forall|t: Seq<char>| changed.to_set().contains(t) == changed_titles(b, c).contains(
            t,
        ) by {
            assert(all.to_set().contains(t) == all.contains(t));
        }
        assert(changed.to_set() =~= changed_titles(b, c));
        assert(foundations.to_set() =~= changed_foundations(b, c));
    }
    (changed_count, foundation_count)
}

/// Reports a count that is over its limit.
fn report_limit(errors: &mut Vec<String>, count: usize, what: &str, limit: usize)
    ensures
        text::views(final(errors)@) == readme::push_some(
            text::views(old(errors)@),
            over_limit(count as int, what@, limit),
        ),
{
    if count > limit {
        let mut m = String::from_str("churn limit exceeded: ");
        m.append(to_decimal(count).as_str());
        m.append(" ");
        m.append(what);
        m.append(" (maximum ");
        m.append(to_decimal(limit).as_str());
        m.append(")");
        errors.push(m);
        assert(text::views(errors@) =~= text::views(old(errors)@).push(m@));
    }
}

/// Compares two revisions of a README and reports the limits that the changes
/// exceed. Nothing can be said where one of the revisions is not valid.
pub fn validate_churn(base_text: &str, current_text: &str) -> (errors: Vec<String>)
    ensures
        text::views(errors@) == churn_errors(base_text@, current_text@),
{
    let base = validate_text(base_text);
    let current = validate_text(current_text);
    let mut errors: Vec<String> = Vec::new();
    proof {
        assert(text::views(base.errors@).len() == base.errors@.len());
        assert(text::views(current.errors@).len() == current.errors@.len());
    }
    if base.errors.len() > 0 || current.errors.len() > 0 {
        errors.push(
            String::from_str(
                "cannot calculate churn until both README versions are structurally valid",
            ),
        );
        assert(text::views(errors@) =~= churn_errors(base_text@, current_text@));
        return errors;
    }
    let base_map = resource_map(&base.resources);
    let current_map = resource_map(&current.resources);
    let mut seen: StringHashMap<bool> = StringHashMap::new();
    let mut titles: Vec<String> = Vec::new();
    proof {
        assert(text::views(titles@) =~= Seq::<Seq<char>>::empty());
        assert(seen@.dom() =~= text::views(titles@).to_set());
    }
    add_titles(&base.resources, &mut seen, &mut titles);
    add_titles(&current.resources, &mut seen, &mut titles);
    assert(text::views(titles@).to_set() =~= map_view(base_map@).dom().union(
        map_view(current_map@).dom(),
    ));
    let (changed, foundational) = count_changes(&titles, &base_map, &current_map);
    let added: usize = if current.resources.len() > base.resources.len() {
        current.resources.len() - base.resources.len()
    } else {
        0
    };
    assert(text::views(errors@) =~= Seq::<Seq<char>>::empty());
    report_limit(&mut errors, changed, "resource entries changed", MAX_CHANGED);
    report_limit(&mut errors, added, "net entries added", MAX_ADDED);
    report_limit(&mut errors, foundational, "foundational entries changed", MAX_FOUNDATIONAL);
    errors
}

}
