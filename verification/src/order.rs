//! Texts in order.
use crate::text;
use crate::text::chars_of;
use vstd::prelude::*;
use vstd::relations::*;
use vstd::seq_lib::*;

verus! {

/// Whether `a` comes before `b` or is the same: character by character, the
/// shorter one first where it is the beginning of the other.
pub open spec fn text_le(a: Seq<char>, b: Seq<char>) -> bool
    decreases a.len(),
{
    if a.len() == 0 {
        true
    } else if b.len() == 0 {
        false
    } else if a[0] == b[0] {
        text_le(a.drop_first(), b.drop_first())
    } else {
        a[0] < b[0]
    }
}

/// `text_le` as a relation.
pub open spec fn text_order() -> spec_fn(Seq<char>, Seq<char>) -> bool {
    |a: Seq<char>, b: Seq<char>| text_le(a, b)
}

/// `sorted` holds the same texts as `texts`, each as often, in their order.
pub open spec fn is_sorted_form(sorted: Seq<Seq<char>>, texts: Seq<Seq<char>>) -> bool {
    &&& sorted_by(sorted, text_order())
    &&& sorted.to_multiset() == texts.to_multiset()
}

proof fn lemma_le_reflexive(a: Seq<char>)
    ensures
        text_le(a, a),
    decreases a.len(),
{
    if a.len() > 0 {
        lemma_le_reflexive(a.drop_first());
    }
}

proof fn lemma_le_antisymmetric(a: Seq<char>, b: Seq<char>)
    requires
        text_le(a, b),
        text_le(b, a),
    ensures
        a == b,
    decreases a.len(),
{
    if a.len() > 0 && b.len() > 0 {
        lemma_le_antisymmetric(a.drop_first(), b.drop_first());
        assert(a =~= seq![a[0]] + a.drop_first());
        assert(b =~= seq![b[0]] + b.drop_first());
    } else {
        assert(a =~= b);
    }
}

proof fn lemma_le_transitive(a: Seq<char>, b: Seq<char>, c: Seq<char>)
    requires
        text_le(a, b),
        text_le(b, c),
    ensures
        text_le(a, c),
    decreases a.len(),
{
    if a.len() > 0 && a[0] == b[0] && b[0] == c[0] {
        lemma_le_transitive(a.drop_first(), b.drop_first(), c.drop_first());
    }
}

proof fn lemma_le_total(a: Seq<char>, b: Seq<char>)
    ensures
        text_le(a, b) || text_le(b, a),
    decreases a.len(),
{
    if a.len() > 0 && b.len() > 0 && a[0] == b[0] {
        lemma_le_total(a.drop_first(), b.drop_first());
    }
}

/// `text_le` is a total order.
pub proof fn text_order_is_total()
    ensures
        total_ordering(text_order()),
{
    let r = text_order();
    assert forall|x: Seq<char>| #[trigger] r(x, x) by {
        lemma_le_reflexive(x);
    }
    assert forall|x: Seq<char>, y: Seq<char>| #[trigger] r(x, y) && #[trigger] r(y, x) implies x
        == y by {
        lemma_le_antisymmetric(x, y);
    }
    assert forall|x: Seq<char>, y: Seq<char>, z: Seq<char>| #[trigger]
        r(x, y) && #[trigger] r(y, z) implies r(x, z) by {
        lemma_le_transitive(x, y, z);
    }
    assert forall|x: Seq<char>, y: Seq<char>| #[trigger] r(x, y) || #[trigger] r(y, x) by {
        lemma_le_total(x, y);
    }
}

/// The sorted form of texts does not depend on the order that they come in.
pub proof fn sorted_form_is_unique(
    sorted1: Seq<Seq<char>>,
    texts1: Seq<Seq<char>>,
    sorted2: Seq<Seq<char>>,
    texts2: Seq<Seq<char>>,
)
    requires
        is_sorted_form(sorted1, texts1),
        is_sorted_form(sorted2, texts2),
        texts1.to_multiset() == texts2.to_multiset(),
    ensures
        sorted1 == sorted2,
{
    text_order_is_total();
    lemma_sorted_unique(sorted1, sorted2, text_order());
}

/// Whether `a` comes before `b` or is the same.
fn comes_first(a: &str, b: &str) -> (first: bool)
    ensures
        first == text_le(a@, b@),
{
    let x = chars_of(a);
    let y = chars_of(b);
    let mut i: usize = 0;
    assert(x@.skip(0) =~= x@);
    assert(y@.skip(0) =~= y@);
    while i < x.len() && i < y.len()
        invariant
            i <= x.len(),
            i <= y.len(),
            x@ == a@,
            y@ == b@,
            text_le(x@, y@) == text_le(x@.skip(i as int), y@.skip(i as int)),
        decreases x.len() - i,
    {
        if x[i] != y[i] {
            return x[i] < y[i];
        }
        assert(x@.skip(i as int).drop_first() =~= x@.skip(i + 1));
        assert(y@.skip(i as int).drop_first() =~= y@.skip(i + 1));
        i += 1;
    }
    i == x.len()
}

/// Puts a text into its place among sorted ones.
fn insert_sorted(sorted: &mut Vec<String>, s: String)
    requires
        sorted_by(text::views(old(sorted)@), text_order()),
    ensures
        sorted_by(text::views(final(sorted)@), text_order()),
        text::views(final(sorted)@).to_multiset() == text::views(old(sorted)@).to_multiset().insert(
            s@,
        ),
{
    let ghost before = text::views(sorted@);
    let mut i: usize = sorted.len();
    while i > 0 && !comes_first(sorted[i - 1].as_str(), s.as_str())
        invariant
            i <= sorted.len(),
            before == text::views(sorted@),
            forall|k: int| i <= k < before.len() ==> !text_le(#[trigger] before[k], s@),
        decreases i,
    {
        i -= 1;
    }
    proof {
        text_order_is_total();
        let r = text_order();
        assert(i > 0 ==> text_le(before[i - 1], s@));
        let after = before.insert(i as int, s@);
        assert forall|j: int, k: int| 0 <= j < k < after.len() implies #[trigger] r(
            after[j],
            after[k],
        ) by {
            if k == i {
                if j < i - 1 {
                    assert(r(before[j], before[i - 1]));
                    assert(r(before[i - 1], s@));
                }
            } else if j == i {
                assert(!r(before[k - 1], s@));
                assert(r(s@, before[k - 1]));
            } else if k < i {
                assert(r(before[j], before[k]));
            } else if j > i {
                assert(r(before[j - 1], before[k - 1]));
            } else {
                assert(r(before[j], before[k - 1]));
            }
        }
        to_multiset_insert(before, i as int, s@);
    }
    sorted.insert(i, s);
    assert(text::views(sorted@) =~= before.insert(i as int, s@));
}

/// Sorts texts.
pub fn sort(texts: Vec<String>) -> (sorted: Vec<String>)
    ensures
        is_sorted_form(text::views(sorted@), text::views(texts@)),
{
    let mut sorted: Vec<String> = Vec::new();
    let mut i: usize = 0;
    assert(text::views(sorted@) =~= text::views(texts@).take(0));
    while i < texts.len()
        invariant
            i <= texts.len(),
            sorted_by(text::views(sorted@), text_order()),
            text::views(sorted@).to_multiset() == text::views(texts@).take(i as int).to_multiset(),
        decreases texts.len() - i,
    {
        insert_sorted(&mut sorted, texts[i].clone());
        proof {
            let all = text::views(texts@);
            assert(all.take(i + 1) =~= all.take(i as int).push(all[i as int]));
            to_multiset_build(all.take(i as int), all[i as int]);
        }
        i += 1;
    }
    assert(text::views(texts@).take(i as int) =~= text::views(texts@));
    sorted
}

}
