//! What the functions on texts promise, told by the texts themselves.
use crate::order;
use crate::text;
use vstd::prelude::*;
use vstd::relations::*;
use vstd::utf8::*;

verus! {

/// The same character over and over.
pub open spec fn repeated(c: char, count: nat) -> Seq<char> {
    Seq::new(count, |i: int| c)
}

/// Decimal writes one digit for each place: a number below ten is its digit, and
/// ten times a number plus a digit is that number with the digit behind it.
pub proof fn decimal_goes_place_by_place(n: nat, d: nat)
    requires
        d < 10,
    ensures
        text::decimal(d).len() == 1,
        text::decimal(d)[0] as nat == '0' as nat + d,
        n > 0 ==> text::decimal(10 * n + d).len() == text::decimal(n).len() + 1,
        n > 0 ==> text::decimal(10 * n + d).drop_last() == text::decimal(n),
        n > 0 ==> text::decimal(10 * n + d).last() as nat == '0' as nat + d,
{
    if n > 0 {
        assert((10 * n + d) / 10 == n && (10 * n + d) % 10 == d);
        assert(text::decimal(10 * n + d) == text::decimal(n).push(text::digit(d)));
        assert(text::decimal(10 * n + d).drop_last() =~= text::decimal(n));
    }
}

/// Different numbers are written differently.
pub proof fn decimals_differ(m: nat, n: nat)
    requires
        text::decimal(m) == text::decimal(n),
    ensures
        m == n,
{
    text::decimal_is_read_back(m, m + n);
    text::decimal_is_read_back(n, m + n);
}

proof fn lemma_leading_zeros(count: nat, s: Seq<char>)
    ensures
        text::digits_value(repeated('0', count) + s) == text::digits_value(s),
    decreases s.len(), count,
{
    let all = repeated('0', count) + s;
    if s.len() > 0 {
        lemma_leading_zeros(count, s.drop_last());
        assert(all.drop_last() =~= repeated('0', count) + s.drop_last());
    } else if count > 0 {
        lemma_leading_zeros((count - 1) as nat, s);
        assert(all.drop_last() =~= repeated('0', (count - 1) as nat) + s);
        assert(all.last() == '0');
        assert(s =~= Seq::<char>::empty());
    } else {
        assert(all =~= s);
    }
}

/// A number is read whatever zeros stand before it and whether or not a `+` does,
/// unless it is greater than the bound.
pub proof fn numbers_are_read(n: nat, zeros: nat, max: nat)
    ensures
        text::parsed_number(repeated('0', zeros) + text::decimal(n), max) == (if n <= max {
            Some(n)
        } else {
            None
        }),
        text::parsed_number(seq!['+'] + (repeated('0', zeros) + text::decimal(n)), max) == (if n
            <= max {
            Some(n)
        } else {
            None
        }),
{
    let digits = repeated('0', zeros) + text::decimal(n);
    text::decimal_is_digits(n);
    text::decimal_is_read_back(n, n);
    assert(text::is_digit(text::decimal(n)[0]));
    assert(text::unsigned(text::decimal(n)) == text::decimal(n));
    lemma_leading_zeros(zeros, text::decimal(n));
    assert forall|i: int| 0 <= i < digits.len() implies text::is_digit(#[trigger] digits[i]) by {
        if i >= zeros {
            assert(text::is_digit(text::decimal(n)[i - zeros]));
        }
    }
    assert(text::is_digit(digits[0]));
    assert(text::unsigned(digits) == digits);
    let signed = seq!['+'] + digits;
    assert(signed.skip(1) =~= digits);
}

/// Nothing is read as a number but digits, at least one, with at most one `+` in
/// front of them.
pub proof fn only_digits_are_numbers(s: Seq<char>, max: nat)
    ensures
        text::parsed_number(s, max) is Some ==> {
            let digits = if s.len() > 0 && s[0] == '+' {
                s.skip(1)
            } else {
                s
            };
            &&& digits.len() > 0
            &&& forall|i: int| 0 <= i < digits.len() ==> '0' <= #[trigger] digits[i] <= '9'
        },
        text::parsed_number(s, max) matches Some(n) ==> n <= max,
{
    if text::parsed_number(s, max) is Some {
        let digits = text::unsigned(s);
        assert forall|i: int| 0 <= i < digits.len() implies '0' <= #[trigger] digits[i] <= '9' by {
            assert(text::is_digit(digits[i]));
        }
    }
}

/// Lower case changes the letters from `A` to `Z` of an ASCII text and nothing
/// else, and so does folding; other texts go by the rules of Unicode.
pub proof fn lowercase_goes_letter_by_letter(s: Seq<char>)
    ensures
        is_ascii_chars(s) ==> {
            &&& text::lowercase(s).len() == s.len()
            &&& forall|i: int|
                0 <= i < s.len() ==> (#[trigger] text::lowercase(s)[i]) as nat == if 'A' <= s[i]
                    <= 'Z' {
                    s[i] as nat + ('a' as nat - 'A' as nat)
                } else {
                    s[i] as int
                }
            &&& text::folded(s) == text::lowercase(s)
        },
        !is_ascii_chars(s) ==> text::lowercase(s) == text::unicode_lowercase(s),
        !is_ascii_chars(s) ==> text::folded(s) == text::unicode_fold(s),
{
}

/// White space is what Unicode gives the property `White_Space`.
pub proof fn white_space_by_code_point(c: char)
    ensures
        text::white_space(c) <==> {
            let n = c as nat;
            9 <= n <= 13 || n == 0x20 || n == 0x85 || n == 0xa0 || n == 0x1680 || 0x2000 <= n
                <= 0x200a || n == 0x2028 || n == 0x2029 || n == 0x202f || n == 0x205f || n == 0x3000
        },
{
}

/// Whether a text is nothing but white space.
pub open spec fn is_blank(s: Seq<char>) -> bool {
    forall|i: int| 0 <= i < s.len() ==> text::white_space(#[trigger] s[i])
}

/// Whether a text has no white space in it.
pub open spec fn is_solid(s: Seq<char>) -> bool {
    forall|i: int| 0 <= i < s.len() ==> !text::white_space(#[trigger] s[i])
}

/// Whether a text neither begins nor ends with white space.
pub open spec fn is_tight(s: Seq<char>) -> bool {
    s.len() > 0 ==> !text::white_space(s[0]) && !text::white_space(s.last())
}

proof fn lemma_trim_front(blank: Seq<char>, s: Seq<char>)
    requires
        is_blank(blank),
        s.len() > 0 ==> !text::white_space(s[0]),
    ensures
        text::trimmed_start(blank + s) == s,
    decreases blank.len(),
{
    let all = blank + s;
    if blank.len() > 0 {
        assert(text::white_space(blank[0]));
        assert(all.drop_first() =~= blank.drop_first() + s);
        assert forall|i: int| 0 <= i < blank.drop_first().len() implies text::white_space(
            #[trigger] blank.drop_first()[i],
        ) by {
            assert(text::white_space(blank[i + 1]));
        }
        lemma_trim_front(blank.drop_first(), s);
    } else {
        assert(all =~= s);
    }
}

proof fn lemma_trim_back(s: Seq<char>, blank: Seq<char>)
    requires
        is_blank(blank),
        s.len() > 0 ==> !text::white_space(s.last()),
    ensures
        text::trimmed_end(s + blank) == s,
    decreases blank.len(),
{
    let all = s + blank;
    if blank.len() > 0 {
        assert(text::white_space(blank[blank.len() - 1]));
        assert(all.drop_last() =~= s + blank.drop_last());
        assert forall|i: int| 0 <= i < blank.drop_last().len() implies text::white_space(
            #[trigger] blank.drop_last()[i],
        ) by {
            assert(text::white_space(blank[i]));
        }
        lemma_trim_back(s, blank.drop_last());
    } else {
        assert(all =~= s);
    }
}

/// Trimming takes off the white space around a text and leaves all that stands
/// between.
pub proof fn trimming_takes_off_white_space(front: Seq<char>, middle: Seq<char>, back: Seq<char>)
    requires
        is_blank(front),
        is_tight(middle),
        is_blank(back),
    ensures
        text::trimmed(front + middle + back) == middle,
{
    if middle.len() > 0 {
        assert(front + middle + back =~= front + (middle + back));
        lemma_trim_front(front, middle + back);
        lemma_trim_back(middle, back);
    } else {
        let all = front + back;
        assert(front + middle + back =~= all + middle);
        assert forall|i: int| 0 <= i < all.len() implies text::white_space(#[trigger] all[i]) by {
            if i < front.len() {
                assert(text::white_space(front[i]));
            } else {
                assert(text::white_space(back[i - front.len()]));
            }
        }
        lemma_trim_front(all, middle);
        assert(middle =~= middle + Seq::<char>::empty());
        lemma_trim_back(middle, Seq::empty());
    }
}

/// Stripping takes off the given character at the end and nothing else.
pub proof fn stripping_takes_off_the_end(s: Seq<char>, c: char, count: nat)
    requires
        s.len() > 0 ==> s.last() != c,
    ensures
        text::stripped_end(s + repeated(c, count), c) == s,
    decreases count,
{
    let all = s + repeated(c, count);
    if count > 0 {
        assert(all.drop_last() =~= s + repeated(c, (count - 1) as nat));
        stripping_takes_off_the_end(s, c, (count - 1) as nat);
    } else {
        assert(all =~= s);
    }
}

/// Every text is what stripping leaves of it and the character some times more.
pub proof fn stripped_text_is_the_beginning(s: Seq<char>, c: char)
    ensures
        text::stripped_end(s, c).len() <= s.len(),
        s == text::stripped_end(s, c) + repeated(
            c,
            (s.len() - text::stripped_end(s, c).len()) as nat,
        ),
        text::stripped_end(s, c).len() > 0 ==> text::stripped_end(s, c).last() != c,
    decreases s.len(),
{
    let r = text::stripped_end(s, c);
    if s.len() > 0 && s.last() == c {
        stripped_text_is_the_beginning(s.drop_last(), c);
        assert(s =~= s.drop_last().push(c));
        assert(s =~= r + repeated(c, (s.len() - r.len()) as nat));
    } else {
        assert(s =~= r + repeated(c, 0));
    }
}

proof fn lemma_word_ends(word: Seq<char>, tail: Seq<char>)
    requires
        is_solid(word),
        tail.len() > 0 ==> text::white_space(tail[0]),
    ensures
        text::leading_word(word + tail) == word,
    decreases word.len(),
{
    let all = word + tail;
    if word.len() > 0 {
        assert(!text::white_space(word[0]));
        let rest = word.drop_first();
        assert forall|i: int| 0 <= i < rest.len() implies !text::white_space(
            #[trigger] rest[i],
        ) by {
            assert(!text::white_space(word[i + 1]));
        }
        lemma_word_ends(rest, tail);
        assert(all.drop_first() =~= rest + tail);
        assert(seq![word[0]] + rest =~= word);
    } else {
        assert(all =~= tail);
        assert(text::leading_word(tail) =~= word);
    }
}

/// The second word is what stands between the second and the third stretch of
/// white space, where the first may be empty.
pub proof fn second_word_is_found(
    front: Seq<char>,
    first: Seq<char>,
    between: Seq<char>,
    second: Seq<char>,
    tail: Seq<char>,
)
    requires
        is_blank(front),
        is_solid(first),
        first.len() > 0,
        is_blank(between),
        between.len() > 0,
        is_solid(second),
        second.len() > 0,
        tail.len() > 0 ==> text::white_space(tail[0]),
    ensures
        text::second_word(front + first + between + second + tail) == Some(second),
{
    let rest = second + tail;
    let after = between + rest;
    let words = first + after;
    assert(front + first + between + second + tail =~= front + words);
    assert(!text::white_space(first[0]));
    lemma_trim_front(front, words);
    assert(text::white_space(between[0]));
    lemma_word_ends(first, after);
    assert(words.skip(first.len() as int) =~= after);
    assert(!text::white_space(second[0]));
    lemma_trim_front(between, rest);
    lemma_word_ends(second, tail);
}

/// There is no second word behind a single one, nor where there is none at all.
pub proof fn single_word_has_no_second(front: Seq<char>, word: Seq<char>, back: Seq<char>)
    requires
        is_blank(front),
        is_solid(word),
        is_blank(back),
    ensures
        text::second_word(front + word + back) is None,
{
    let empty = Seq::<char>::empty();
    if word.len() > 0 {
        assert(front + word + back =~= front + (word + back));
        assert(!text::white_space(word[0]));
        lemma_trim_front(front, word + back);
        assert(back.len() > 0 ==> text::white_space(back[0]));
        lemma_word_ends(word, back);
        assert((word + back).skip(word.len() as int) =~= back + empty);
        lemma_trim_front(back, empty);
    } else {
        let all = front + back;
        assert(front + word + back =~= all + empty);
        assert forall|i: int| 0 <= i < all.len() implies text::white_space(#[trigger] all[i]) by {
            if i < front.len() {
                assert(text::white_space(front[i]));
            } else {
                assert(text::white_space(back[i - front.len()]));
            }
        }
        lemma_trim_front(all, empty);
        assert(empty.skip(0) =~= empty);
    }
}

/// Texts are ordered by the first place where they differ; one that ends there
/// comes first.
pub proof fn first_difference_decides(same: Seq<char>, a: Seq<char>, b: Seq<char>)
    requires
        a.len() > 0 && b.len() > 0 ==> a[0] != b[0],
    ensures
        order::text_le(same + a, same + b) <==> a.len() == 0 || (b.len() > 0 && a[0] < b[0]),
    decreases same.len(),
{
    let x = same + a;
    let y = same + b;
    if same.len() > 0 {
        assert(x.drop_first() =~= same.drop_first() + a);
        assert(y.drop_first() =~= same.drop_first() + b);
        first_difference_decides(same.drop_first(), a, b);
    } else {
        assert(x =~= a);
        assert(y =~= b);
    }
}

/// A sorted form holds every text as often as it is given, and none before one
/// that it comes after.
pub proof fn sorted_form_is_in_order(sorted: Seq<Seq<char>>, texts: Seq<Seq<char>>)
    ensures
        order::is_sorted_form(sorted, texts) <==> {
            &&& sorted.to_multiset() == texts.to_multiset()
            &&& forall|i: int, j: int|
                0 <= i < j < sorted.len() ==> order::text_le(#[trigger] sorted[i], #[trigger] sorted[j])
        },
{
    let r = order::text_order();
    assert(forall|a: Seq<char>, b: Seq<char>| #[trigger] r(a, b) == order::text_le(a, b));
    if forall|i: int, j: int|
        0 <= i < j < sorted.len() ==> order::text_le(#[trigger] sorted[i], #[trigger] sorted[j]) {
        assert forall|i: int, j: int| 0 <= i < j < sorted.len() implies #[trigger] r(
            sorted[i],
            sorted[j],
        ) by {
            assert(order::text_le(sorted[i], sorted[j]));
        }
        assert(sorted_by(sorted, r));
    }
    if order::is_sorted_form(sorted, texts) {
        assert forall|i: int, j: int| 0 <= i < j < sorted.len() implies order::text_le(
            #[trigger] sorted[i],
            #[trigger] sorted[j],
        ) by {
            assert(r(sorted[i], sorted[j]));
        }
    }
}

/// Bytes that are UTF-8 stand for what they encode; others for their repair.
pub proof fn bytes_stand_for_text(bytes: Seq<u8>)
    ensures
        valid_utf8(bytes) ==> text::text_of_bytes(bytes) == decode_utf8(bytes),
        !valid_utf8(bytes) ==> text::text_of_bytes(bytes) == text::repaired_utf8(bytes),
{
}

/// The views of strings are theirs, one by one.
pub proof fn views_are_one_by_one(v: Seq<String>, i: int)
    requires
        0 <= i < v.len(),
    ensures
        text::views(v).len() == v.len(),
        text::views(v)[i] == v[i]@,
{
}

/// A text without a separator is one piece.
pub proof fn single_piece_is_the_text(s: Seq<char>, sep: char)
    requires
        !s.contains(sep),
    ensures
        text::pieces(s, sep) == seq![s],
{
    text::pieces_make_the_text(s, sep);
    let empty = Seq::<char>::empty();
    text::pieces_after_first(s, empty, sep);
    let all = s.push(sep) + empty;
    assert(all =~= s.push(sep));
    assert(all.drop_last() =~= s);
    assert(text::pieces(all, sep).drop_last() =~= text::pieces(s, sep));
    assert(text::pieces(empty, sep) =~= seq![empty]);
    assert((seq![s] + seq![empty]).drop_last() =~= seq![s]);
}

}
