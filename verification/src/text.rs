//! Text as sequences of characters: searching, trimming, splitting, numbers
//! and case, each with the mathematical function that it computes.
use vstd::prelude::*;
use vstd::utf8::*;

verus! {

/// `String::push` appends one character: afterwards the string holds what it
/// held before, followed by that character.
pub assume_specification [ String::push ](s: &mut String, c: char)
    ensures
        final(s)@ == old(s)@.push(c),
;

/// The characters of a string, for access by position.
pub fn chars_of(s: &str) -> (v: Vec<char>)
    ensures
        v@ == s@,
{
    let mut v: Vec<char> = Vec::new();
    for c in it: s.chars()
        invariant
            it.seq() == s@,
            v@ == s@.take(it.index() as int),
    {
        v.push(c);
    }
    v
}

/// The string made of the given characters.
pub fn string_of(cs: &[char]) -> (s: String)
    ensures
        s@ == cs@,
{
    let mut s = String::new();
    let mut i: usize = 0;
    while i < cs.len()
        invariant
            i <= cs.len(),
            s@ == cs@.take(i as int),
        decreases cs.len() - i,
    {
        s.push(cs[i]);
        i += 1;
    }
    s
}

/// Whether two strings hold the same characters.
pub fn same_text(a: &str, b: &str) -> (same: bool)
    ensures
        same == (a@ == b@),
{
    let x = chars_of(a);
    let y = chars_of(b);
    if x.len() != y.len() {
        return false;
    }
    let mut i: usize = 0;
    while i < x.len()
        invariant
            i <= x.len(),
            x.len() == y.len(),
            x@ == a@,
            y@ == b@,
            x@.take(i as int) == y@.take(i as int),
        decreases x.len() - i,
    {
        if x[i] != y[i] {
            assert(a@[i as int] != b@[i as int]);
            return false;
        }
        i += 1;
        assert(x@.take(i as int) =~= y@.take(i as int));
    }
    assert(x@.take(i as int) =~= x@);
    assert(y@.take(i as int) =~= y@);
    true
}

/// Whether `cs` begins with `prefix`.
pub fn starts_with(cs: &[char], prefix: &str) -> (found: bool)
    ensures
        found == prefix@.is_prefix_of(cs@),
{
    let p = chars_of(prefix);
    if p.len() > cs.len() {
        return false;
    }
    let mut i: usize = 0;
    while i < p.len()
        invariant
            i <= p.len() <= cs.len(),
            p@ == prefix@,
            forall|k: int| 0 <= k < i ==> cs@[k] == p@[k],
        decreases p.len() - i,
    {
        if cs[i] != p[i] {
            assert(cs@.subrange(0, p@.len() as int)[i as int] != p@[i as int]);
            return false;
        }
        i += 1;
    }
    assert(cs@.subrange(0, p@.len() as int) =~= p@);
    true
}

/// The place of the first `c` in `s` at or after `from`.
pub open spec fn find_char(s: Seq<char>, c: char, from: int) -> Option<int>
    decreases s.len() - from,
{
    if from < 0 || from >= s.len() {
        None
    } else if s[from] == c {
        Some(from)
    } else {
        find_char(s, c, from + 1)
    }
}

/// The place of the last `c` in `s` before `to`.
pub open spec fn rfind_char(s: Seq<char>, c: char, to: int) -> Option<int>
    decreases to,
{
    if to <= 0 || to > s.len() {
        None
    } else if s[to - 1] == c {
        Some(to - 1)
    } else {
        rfind_char(s, c, to - 1)
    }
}

/// What stands before the first `c`: all of `s` where there is none.
pub open spec fn before(s: Seq<char>, c: char) -> Seq<char> {
    match find_char(s, c, 0) {
        Some(i) => s.take(i),
        None => s,
    }
}

/// What stands after the first `c`: nothing where there is none.
pub open spec fn after(s: Seq<char>, c: char) -> Seq<char> {
    match find_char(s, c, 0) {
        Some(i) => s.skip(i + 1),
        None => Seq::empty(),
    }
}

/// The first `c` and what follows it: nothing where there is none.
pub open spec fn starting_at(s: Seq<char>, c: char) -> Seq<char> {
    match find_char(s, c, 0) {
        Some(i) => s.skip(i),
        None => Seq::empty(),
    }
}

/// What stands before the last `c`: all of `s` where there is none.
pub open spec fn before_last(s: Seq<char>, c: char) -> Seq<char> {
    match rfind_char(s, c, s.len() as int) {
        Some(i) => s.take(i),
        None => s,
    }
}

/// What stands after the last `c`, where there is one.
pub open spec fn after_last(s: Seq<char>, c: char) -> Option<Seq<char>> {
    match rfind_char(s, c, s.len() as int) {
        Some(i) => Some(s.skip(i + 1)),
        None => None,
    }
}

/// The place of the first occurrence of `pat` in `s` at or after `from`.
pub open spec fn find_text(s: Seq<char>, pat: Seq<char>, from: int) -> Option<int>
    decreases s.len() + 1 - from,
{
    if from < 0 || from + pat.len() > s.len() {
        None
    } else if s.subrange(from, from + pat.len()) == pat {
        Some(from)
    } else {
        find_text(s, pat, from + 1)
    }
}

/// Finds the first `c`.
pub fn find(cs: &[char], c: char) -> (r: Option<usize>)
    ensures
        match r {
            Some(i) => find_char(cs@, c, 0) == Some(i as int) && i < cs.len(),
            None => find_char(cs@, c, 0) is None,
        },
{
    let mut i: usize = 0;
    while i < cs.len()
        invariant
            i <= cs.len(),
            find_char(cs@, c, 0) == find_char(cs@, c, i as int),
        decreases cs.len() - i,
    {
        if cs[i] == c {
            return Some(i);
        }
        i += 1;
    }
    None
}

/// Finds the last `c`.
pub fn rfind(cs: &[char], c: char) -> (r: Option<usize>)
    ensures
        match r {
            Some(i) => rfind_char(cs@, c, cs@.len() as int) == Some(i as int) && i < cs.len(),
            None => rfind_char(cs@, c, cs@.len() as int) is None,
        },
{
    let mut i: usize = cs.len();
    while i > 0
        invariant
            i <= cs.len(),
            rfind_char(cs@, c, cs@.len() as int) == rfind_char(cs@, c, i as int),
        decreases i,
    {
        if cs[i - 1] == c {
            return Some(i - 1);
        }
        i -= 1;
    }
    None
}

/// Finds the first occurrence of a text.
pub fn find_str(cs: &[char], pat: &str) -> (r: Option<usize>)
    ensures
        match r {
            Some(i) => find_text(cs@, pat@, 0) == Some(i as int) && i + pat@.len() <= cs.len(),
            None => find_text(cs@, pat@, 0) is None,
        },
{
    let m: usize = pat.unicode_len();
    if m > cs.len() {
        return None;
    }
    let mut i: usize = 0;
    while i <= cs.len() - m
        invariant
            m == pat@.len(),
            m <= cs.len(),
            i <= cs.len() - m + 1,
            i == cs.len() - m + 1 ==> m > 0,
            find_text(cs@, pat@, 0) == find_text(cs@, pat@, i as int),
        decreases cs.len() + 1 - i,
    {
        let window = vstd::slice::slice_subrange(cs, i, i + m);
        if starts_with(window, pat) {
            assert(window@.subrange(0, pat@.len() as int) =~= window@);
            return Some(i);
        }
        assert(window@ != pat@) by {
            assert(window@.subrange(0, pat@.len() as int) =~= window@);
        }
        i += 1;
    }
    None
}

/// The characters with the Unicode property `White_Space`.
pub open spec fn white_space(c: char) -> bool {
    ||| '\t' <= c && c <= '\r'
    ||| c == ' '
    ||| c == '\u{85}'
    ||| c == '\u{a0}'
    ||| c == '\u{1680}'
    ||| '\u{2000}' <= c && c <= '\u{200a}'
    ||| c == '\u{2028}'
    ||| c == '\u{2029}'
    ||| c == '\u{202f}'
    ||| c == '\u{205f}'
    ||| c == '\u{3000}'
}

/// Whether a character has the property `White_Space`.
pub fn is_white_space(c: char) -> (b: bool)
    ensures
        b == white_space(c),
{
    ('\t' <= c && c <= '\r') || c == ' ' || c == '\u{85}' || c == '\u{a0}' || c == '\u{1680}' || (
    '\u{2000}' <= c && c <= '\u{200a}') || c == '\u{2028}' || c == '\u{2029}' || c == '\u{202f}'
        || c == '\u{205f}' || c == '\u{3000}'
}

/// `s` without its leading white space.
pub open spec fn trimmed_start(s: Seq<char>) -> Seq<char>
    decreases s.len(),
{
    if s.len() > 0 && white_space(s[0]) {
        trimmed_start(s.drop_first())
    } else {
        s
    }
}

/// `s` without its trailing white space.
pub open spec fn trimmed_end(s: Seq<char>) -> Seq<char>
    decreases s.len(),
{
    if s.len() > 0 && white_space(s.last()) {
        trimmed_end(s.drop_last())
    } else {
        s
    }
}

/// `s` without the white space around it.
pub open spec fn trimmed(s: Seq<char>) -> Seq<char> {
    trimmed_end(trimmed_start(s))
}

/// `s` without the `c`s at its end.
pub open spec fn stripped_end(s: Seq<char>, c: char) -> Seq<char>
    decreases s.len(),
{
    if s.len() > 0 && s.last() == c {
        stripped_end(s.drop_last(), c)
    } else {
        s
    }
}

/// Drops the leading white space.
pub fn trim_start(cs: &[char]) -> (r: &[char])
    ensures
        r@ == trimmed_start(cs@),
{
    let mut i: usize = 0;
    assert(cs@.skip(0) =~= cs@);
    while i < cs.len() && is_white_space(cs[i])
        invariant
            i <= cs.len(),
            trimmed_start(cs@) == trimmed_start(cs@.skip(i as int)),
        decreases cs.len() - i,
    {
        assert(cs@.skip(i as int).drop_first() =~= cs@.skip(i + 1));
        i += 1;
    }
    assert(cs@.subrange(i as int, cs@.len() as int) =~= cs@.skip(i as int));
    vstd::slice::slice_subrange(cs, i, cs.len())
}

/// Drops the white space on both sides.
pub fn trim(cs: &[char]) -> (r: &[char])
    ensures
        r@ == trimmed(cs@),
{
    let t = trim_start(cs);
    let mut j: usize = t.len();
    assert(t@.take(j as int) =~= t@);
    while j > 0 && is_white_space(t[j - 1])
        invariant
            j <= t.len(),
            trimmed_end(t@) == trimmed_end(t@.take(j as int)),
        decreases j,
    {
        assert(t@.take(j as int).drop_last() =~= t@.take(j - 1));
        j -= 1;
    }
    assert(t@.subrange(0, j as int) =~= t@.take(j as int));
    vstd::slice::slice_subrange(t, 0, j)
}

/// Drops every `c` at the end.
pub fn strip_end(cs: &[char], c: char) -> (r: &[char])
    ensures
        r@ == stripped_end(cs@, c),
{
    let mut j: usize = cs.len();
    assert(cs@.take(j as int) =~= cs@);
    while j > 0 && cs[j - 1] == c
        invariant
            j <= cs.len(),
            stripped_end(cs@, c) == stripped_end(cs@.take(j as int), c),
        decreases j,
    {
        assert(cs@.take(j as int).drop_last() =~= cs@.take(j - 1));
        j -= 1;
    }
    assert(cs@.subrange(0, j as int) =~= cs@.take(j as int));
    vstd::slice::slice_subrange(cs, 0, j)
}

/// The pieces of `s` between its `sep`s, one more than there are `sep`s.
pub open spec fn pieces(s: Seq<char>, sep: char) -> Seq<Seq<char>>
    decreases s.len(),
{
    if s.len() == 0 {
        seq![Seq::<char>::empty()]
    } else {
        let before = pieces(s.drop_last(), sep);
        if s.last() == sep {
            before.push(Seq::<char>::empty())
        } else {
            before.drop_last().push(before.last().push(s.last()))
        }
    }
}

/// The views of strings.
pub open spec fn views(v: Seq<String>) -> Seq<Seq<char>> {
    v.map_values(|s: String| s@)
}

/// Splits a text at every `sep`.
pub fn split(s: &str, sep: char) -> (v: Vec<String>)
    ensures
        views(v@) == pieces(s@, sep),
        v@.len() > 0,
{
    let mut done: Vec<String> = Vec::new();
    let mut current = String::new();
    assert(views(done@).push(current@) =~= seq![Seq::<char>::empty()]);
    for c in it: s.chars()
        invariant
            it.seq() == s@,
            views(done@).push(current@) == pieces(s@.take(it.index() as int), sep),
    {
        let ghost k = it.index() as int;
        proof {
            assert(s@.take(k + 1).drop_last() =~= s@.take(k));
            assert(views(done@).push(current@).drop_last() =~= views(done@));
        }
        if c == sep {
            let ghost before = views(done@).push(current@);
            done.push(current);
            current = String::new();
            assert(views(done@) =~= before);
        } else {
            current.push(c);
        }
    }
    assert(s@.take(s@.len() as int) =~= s@);
    let ghost before = views(done@).push(current@);
    done.push(current);
    assert(views(done@) =~= before);
    done
}

/// The lower-case form of an ASCII letter; any other character is kept.
pub open spec fn ascii_lower(c: char) -> char {
    if 'A' <= c && c <= 'Z' {
        ((c as u8) + 32) as char
    } else {
        c
    }
}

/// What `str::to_lowercase` gives for a text.
pub uninterp spec fn unicode_lowercase(s: Seq<char>) -> Seq<char>;

/// `s` in lower case: letter by letter where `s` is all ASCII, by the Unicode
/// rules otherwise.
pub open spec fn lowercase(s: Seq<char>) -> Seq<char> {
    if is_ascii_chars(s) {
        s.map_values(|c: char| ascii_lower(c))
    } else {
        unicode_lowercase(s)
    }
}

/// Calls `str::to_lowercase`. Its result depends on the text alone; of what it
/// is, only this is claimed: as every character becomes one or more, a text that
/// is not empty does not become empty.
#[verifier::external_body]
fn lowercase_by_unicode(s: &str) -> (r: String)
    ensures
        r@ == unicode_lowercase(s@),
        s@.len() > 0 ==> r@.len() > 0,
{
    s.to_lowercase()
}

/// Puts a text into lower case.
pub fn to_lower(s: &str) -> (r: String)
    ensures
        r@ == lowercase(s@),
        r@.len() == 0 <==> s@.len() == 0,
{
    if !s.is_ascii() {
        return lowercase_by_unicode(s);
    }
    let mut r = String::new();
    for c in it: s.chars()
        invariant
            it.seq() == s@,
            is_ascii_chars(s@),
            r@ == s@.take(it.index() as int).map_values(|c: char| ascii_lower(c)),
    {
        let ghost k = it.index() as int;
        if 'A' <= c && c <= 'Z' {
            r.push((c as u8 + 32) as char);
        } else {
            r.push(c);
        }
        assert(r@ =~= s@.take(k + 1).map_values(|c: char| ascii_lower(c)));
    }
    assert(s@.take(s@.len() as int) =~= s@);
    r
}

/// What `caseless::default_case_fold_str` gives for a text.
pub uninterp spec fn unicode_fold(s: Seq<char>) -> Seq<char>;

/// `s` folded, so that texts which differ in case alone become the same: letter
/// by letter where `s` is all ASCII, by the full case folding of Unicode
/// otherwise.
pub open spec fn folded(s: Seq<char>) -> Seq<char> {
    if is_ascii_chars(s) {
        s.map_values(|c: char| ascii_lower(c))
    } else {
        unicode_fold(s)
    }
}

/// Calls `caseless::default_case_fold_str`. Its result depends on the text
/// alone, by a table that is part of the crate; nothing is claimed of what it is.
#[verifier::external_body]
fn fold_by_unicode(s: &str) -> (r: String)
    ensures
        r@ == unicode_fold(s@),
{
    caseless::default_case_fold_str(s)
}

/// Folds the case of a text.
pub fn fold_case(s: &str) -> (r: String)
    ensures
        r@ == folded(s@),
{
    if s.is_ascii() {
        to_lower(s)
    } else {
        fold_by_unicode(s)
    }
}

/// What `String::from_utf8_lossy` gives for bytes that are not UTF-8: a text in
/// which replacement characters stand for the faulty ones.
pub uninterp spec fn repaired_utf8(bytes: Seq<u8>) -> Seq<char>;

/// The text that bytes stand for, whatever they are.
pub open spec fn text_of_bytes(bytes: Seq<u8>) -> Seq<char> {
    if valid_utf8(bytes) {
        decode_utf8(bytes)
    } else {
        repaired_utf8(bytes)
    }
}

/// Calls `String::from_utf8_lossy`. Bytes that are UTF-8 give the characters
/// that they encode; of other bytes it is claimed only that the text depends on
/// them alone.
#[verifier::external_body]
pub(crate) fn text_from_bytes(bytes: &Vec<u8>) -> (s: String)
    ensures
        valid_utf8(bytes@) ==> s@ == decode_utf8(bytes@),
        !valid_utf8(bytes@) ==> s@ == repaired_utf8(bytes@),
{
    String::from_utf8_lossy(bytes).into_owned()
}

/// The character of a decimal digit.
pub open spec fn digit(d: nat) -> char {
    (48 + d) as char
}

/// Whether a character is an ASCII decimal digit.
pub open spec fn is_digit(c: char) -> bool {
    '0' <= c && c <= '9'
}

/// `n` in decimal, without leading zeros.
pub open spec fn decimal(n: nat) -> Seq<char>
    decreases n,
{
    if n < 10 {
        seq![digit(n)]
    } else {
        decimal(n / 10).push(digit(n % 10))
    }
}

/// Writes a number in decimal.
pub fn to_decimal(n: usize) -> (s: String)
    ensures
        s@ == decimal(n as nat),
    decreases n,
{
    let mut s = if n < 10 {
        String::new()
    } else {
        to_decimal(n / 10)
    };
    let d: u8 = (n % 10) as u8;
    s.push((48 + d) as char);
    assert(s@ =~= decimal(n as nat));
    s
}

/// The number that a row of digits stands for.
pub open spec fn digits_value(s: Seq<char>) -> nat
    decreases s.len(),
{
    if s.len() == 0 {
        0
    } else {
        10 * digits_value(s.drop_last()) + (s.last() as nat - 48) as nat
    }
}

/// Whether every character of `s` is a digit.
pub open spec fn all_digits(s: Seq<char>) -> bool {
    forall|i: int| 0 <= i < s.len() ==> is_digit(#[trigger] s[i])
}

/// `s` without a `+` in front.
pub open spec fn unsigned(s: Seq<char>) -> Seq<char> {
    if s.len() > 0 && s[0] == '+' {
        s.skip(1)
    } else {
        s
    }
}

/// The number written as an optional `+` and one or more digits, where it is
/// no greater than `max`.
pub open spec fn parsed_number(s: Seq<char>, max: nat) -> Option<nat> {
    let digits = unsigned(s);
    if digits.len() > 0 && all_digits(digits) && digits_value(digits) <= max {
        Some(digits_value(digits))
    } else {
        None
    }
}

proof fn lemma_value_grows(s: Seq<char>, i: int)
    requires
        0 <= i <= s.len(),
    ensures
        digits_value(s.take(i)) <= digits_value(s),
    decreases s.len() - i,
{
    if i < s.len() {
        lemma_value_grows(s, i + 1);
        assert(s.take(i + 1).drop_last() =~= s.take(i));
    } else {
        assert(s.take(i) =~= s);
    }
}

/// Reads a number no greater than `max`.
pub fn parse_number(cs: &[char], max: u32) -> (r: Option<u32>)
    ensures
        match r {
            Some(n) => parsed_number(cs@, max as nat) == Some(n as nat),
            None => parsed_number(cs@, max as nat) is None,
        },
{
    let digits = if cs.len() > 0 && cs[0] == '+' {
        assert(cs@.subrange(1, cs@.len() as int) =~= cs@.skip(1));
        vstd::slice::slice_subrange(cs, 1, cs.len())
    } else {
        cs
    };
    if digits.len() == 0 {
        return None;
    }
    let mut n: u32 = 0;
    let mut i: usize = 0;
    while i < digits.len()
        invariant
            i <= digits.len(),
            n <= max,
            n as nat == digits_value(digits@.take(i as int)),
            digits@ == unsigned(cs@),
            forall|k: int| 0 <= k < i ==> is_digit(#[trigger] digits@[k]),
        decreases digits.len() - i,
    {
        let c = digits[i];
        if !('0' <= c && c <= '9') {
            assert(!is_digit(digits@[i as int]));
            return None;
        }
        assert(digits@.take(i + 1).drop_last() =~= digits@.take(i as int));
        let next: u64 = 10 * (n as u64) + (c as u64 - 48);
        assert(next as nat == digits_value(digits@.take(i + 1)));
        if next > max as u64 {
            proof {
                lemma_value_grows(digits@, i + 1);
            }
            return None;
        }
        n = next as u32;
        i += 1;
    }
    assert(digits@.take(i as int) =~= digits@);
    Some(n)
}

/// The characters of `s` before its first white space.
pub open spec fn leading_word(s: Seq<char>) -> Seq<char>
    decreases s.len(),
{
    if s.len() == 0 || white_space(s[0]) {
        Seq::empty()
    } else {
        seq![s[0]] + leading_word(s.drop_first())
    }
}

/// The second of the words of `s`, which white space separates.
pub open spec fn second_word(s: Seq<char>) -> Option<Seq<char>> {
    let first = trimmed_start(s);
    let rest = trimmed_start(first.skip(leading_word(first).len() as int));
    if rest.len() == 0 {
        None
    } else {
        Some(leading_word(rest))
    }
}

/// The number of characters before the first white space.
fn word_len(cs: &[char]) -> (n: usize)
    ensures
        n <= cs.len(),
        leading_word(cs@) == cs@.take(n as int),
{
    let mut n: usize = 0;
    assert(cs@.skip(0) =~= cs@);
    assert(cs@.take(0) + leading_word(cs@) =~= leading_word(cs@));
    while n < cs.len() && !is_white_space(cs[n])
        invariant
            n <= cs.len(),
            leading_word(cs@) == cs@.take(n as int) + leading_word(cs@.skip(n as int)),
        decreases cs.len() - n,
    {
        assert(cs@.skip(n as int).drop_first() =~= cs@.skip(n + 1));
        assert(cs@.take(n as int) + (seq![cs@[n as int]] + leading_word(cs@.skip(n + 1)))
            =~= cs@.take(n + 1) + leading_word(cs@.skip(n + 1)));
        n += 1;
    }
    assert(cs@.take(n as int) + Seq::<char>::empty() =~= cs@.take(n as int));
    n
}

/// Finds the second word.
pub fn find_second_word(cs: &[char]) -> (r: Option<&[char]>)
    ensures
        match r {
            Some(w) => second_word(cs@) == Some(w@),
            None => second_word(cs@) is None,
        },
{
    let first = trim_start(cs);
    let n: usize = word_len(first);
    assert(first@.subrange(n as int, first@.len() as int) =~= first@.skip(n as int));
    let rest = trim_start(vstd::slice::slice_subrange(first, n, first.len()));
    if rest.len() == 0 {
        return None;
    }
    let m: usize = word_len(rest);
    assert(rest@.subrange(0, m as int) =~= rest@.take(m as int));
    Some(vstd::slice::slice_subrange(rest, 0, m))
}

/// A number written in decimal is made of digits, at least one.
pub proof fn decimal_is_digits(n: nat)
    ensures
        decimal(n).len() > 0,
        all_digits(decimal(n)),
    decreases n,
{
    if n >= 10 {
        decimal_is_digits(n / 10);
    }
}

proof fn lemma_decimal_value(n: nat)
    ensures
        digits_value(decimal(n)) == n,
    decreases n,
{
    if n >= 10 {
        lemma_decimal_value(n / 10);
        assert(decimal(n).drop_last() =~= decimal(n / 10));
    } else {
        assert(decimal(n).drop_last() =~= Seq::<char>::empty());
        assert(digits_value(Seq::<char>::empty()) == 0);
    }
}

/// A number written in decimal is read back.
pub proof fn decimal_is_read_back(n: nat, max: nat)
    requires
        n <= max,
    ensures
        parsed_number(decimal(n), max) == Some(n),
{
    decimal_is_digits(n);
    lemma_decimal_value(n);
    assert(is_digit(decimal(n)[0]));
    assert(unsigned(decimal(n)) == decimal(n));
}

/// What the search for a character finds: the first place that has it.
pub proof fn find_char_is_first(s: Seq<char>, c: char, from: int)
    requires
        0 <= from,
    ensures
        match find_char(s, c, from) {
            Some(i) => from <= i < s.len() && s[i] == c && forall|j: int|
                from <= j < i ==> s[j] != c,
            None => forall|j: int| from <= j < s.len() ==> s[j] != c,
        },
    decreases s.len() - from,
{
    if from < s.len() && s[from] != c {
        find_char_is_first(s, c, from + 1);
    }
}

/// What the search from the end finds: the last place that has the character.
pub proof fn rfind_char_is_last(s: Seq<char>, c: char, to: int)
    requires
        0 <= to <= s.len(),
    ensures
        match rfind_char(s, c, to) {
            Some(i) => 0 <= i < to && s[i] == c && forall|j: int| i < j < to ==> s[j] != c,
            None => forall|j: int| 0 <= j < to ==> s[j] != c,
        },
    decreases to,
{
    if to > 0 && s[to - 1] != c {
        rfind_char_is_last(s, c, to - 1);
    }
}

/// What the search for a text finds: the first place where it stands.
pub proof fn find_text_is_first(s: Seq<char>, pat: Seq<char>, from: int)
    requires
        0 <= from,
    ensures
        match find_text(s, pat, from) {
            Some(i) => from <= i && i + pat.len() <= s.len() && s.subrange(i, i + pat.len()) == pat
                && forall|j: int|
                from <= j < i ==> #[trigger] s.subrange(j, j + pat.len()) != pat,
            None => forall|j: int|
                from <= j && j + pat.len() <= s.len() ==> #[trigger] s.subrange(j, j + pat.len())
                    != pat,
        },
    decreases s.len() + 1 - from,
{
    if from + pat.len() <= s.len() && s.subrange(from, from + pat.len()) != pat {
        find_text_is_first(s, pat, from + 1);
    }
}

/// The first place of a character is found.
pub proof fn first_place_is_found(s: Seq<char>, c: char, i: int)
    requires
        0 <= i < s.len(),
        s[i] == c,
        forall|j: int| 0 <= j < i ==> s[j] != c,
    ensures
        find_char(s, c, 0) == Some(i),
{
    find_char_is_first(s, c, 0);
}

/// A character that is not there is not found.
pub proof fn missing_char_is_not_found(s: Seq<char>, c: char)
    requires
        !s.contains(c),
    ensures
        find_char(s, c, 0) is None,
        rfind_char(s, c, s.len() as int) is None,
{
    find_char_is_first(s, c, 0);
    rfind_char_is_last(s, c, s.len() as int);
}

/// The last place of a character is found.
pub proof fn last_place_is_found(s: Seq<char>, c: char, i: int)
    requires
        0 <= i < s.len(),
        s[i] == c,
        forall|j: int| i < j < s.len() ==> s[j] != c,
    ensures
        rfind_char(s, c, s.len() as int) == Some(i),
{
    rfind_char_is_last(s, c, s.len() as int);
}

/// The first place of a text is found.
pub proof fn first_text_is_found(s: Seq<char>, pat: Seq<char>, i: int)
    requires
        0 <= i,
        i + pat.len() <= s.len(),
        s.subrange(i, i + pat.len()) == pat,
        forall|j: int| 0 <= j < i ==> #[trigger] s.subrange(j, j + pat.len()) != pat,
    ensures
        find_text(s, pat, 0) == Some(i),
{
    find_text_is_first(s, pat, 0);
}

/// Lower case is kept by putting it into lower case again.
pub proof fn ascii_lowercase_is_stable(s: Seq<char>)
    requires
        is_ascii_chars(s),
    ensures
        is_ascii_chars(lowercase(s)),
        lowercase(lowercase(s)) == lowercase(s),
{
    assert forall|i: int| 0 <= i < s.len() implies '\0' <= #[trigger] lowercase(s)[i] <= '\u{7f}' by {
        assert('\0' <= s[i] <= '\u{7f}');
    }
    assert(lowercase(lowercase(s)) =~= lowercase(s));
}

/// Nothing but letters is changed by lower case.
pub proof fn ascii_lowercase_keeps_others(s: Seq<char>, c: char)
    requires
        is_ascii_chars(s),
        !('A' <= c && c <= 'Z'),
        !('a' <= c && c <= 'z'),
    ensures
        lowercase(s).len() == s.len(),
        forall|i: int| 0 <= i < s.len() ==> (#[trigger] lowercase(s)[i] == c <==> s[i] == c),
{
    assert forall|i: int| 0 <= i < s.len() implies (#[trigger] lowercase(s)[i] == c <==> s[i] == c) by {
        assert('\0' <= s[i] <= '\u{7f}');
    }
}

/// The text that pieces make with `sep` between them.
pub open spec fn joined(ps: Seq<Seq<char>>, sep: char) -> Seq<char>
    decreases ps.len(),
{
    if ps.len() == 0 {
        Seq::empty()
    } else if ps.len() == 1 {
        ps[0]
    } else {
        joined(ps.drop_last(), sep).push(sep) + ps.last()
    }
}

/// The pieces of a text hold no separator, and put together again they are the
/// text.
pub proof fn pieces_make_the_text(s: Seq<char>, sep: char)
    ensures
        pieces(s, sep).len() > 0,
        forall|i: int| 0 <= i < pieces(s, sep).len() ==> !(#[trigger] pieces(s, sep)[i]).contains(sep),
        joined(pieces(s, sep), sep) == s,
    decreases s.len(),
{
    let ps = pieces(s, sep);
    if s.len() > 0 {
        let before = pieces(s.drop_last(), sep);
        pieces_make_the_text(s.drop_last(), sep);
        if s.last() == sep {
            assert(ps.drop_last() =~= before);
            assert(joined(ps, sep) =~= s.drop_last().push(sep));
            assert(s.drop_last().push(sep) =~= s);
        } else {
            let last = before.last();
            let longer = last.push(s.last());
            assert(!longer.contains(sep)) by {
                assert(!before[before.len() - 1].contains(sep));
                if longer.contains(sep) {
                    let i = longer.index_of(sep);
                    assert(i < last.len() ==> last[i] == sep);
                }
            }
            assert forall|i: int| 0 <= i < ps.len() implies !(#[trigger] ps[i]).contains(sep) by {
                if i < ps.len() - 1 {
                    assert(ps[i] == before[i]);
                }
            }
            assert(ps.drop_last() =~= before.drop_last());
            assert(joined(ps, sep) =~= joined(before, sep).push(s.last()));
            assert(s.drop_last().push(s.last()) =~= s);
        }
    } else {
        assert(joined(ps, sep) =~= s);
    }
}

/// A separator and a text without one add one piece.
pub proof fn pieces_of_sum(s: Seq<char>, last: Seq<char>, sep: char)
    requires
        !last.contains(sep),
    ensures
        pieces(s.push(sep) + last, sep) == pieces(s, sep).push(last),
    decreases last.len(),
{
    let all = s.push(sep) + last;
    if last.len() == 0 {
        assert(all =~= s.push(sep));
        assert(all.drop_last() =~= s);
        assert(last =~= Seq::<char>::empty());
    } else {
        let shorter = last.drop_last();
        assert(!shorter.contains(sep)) by {
            if shorter.contains(sep) {
                let i = shorter.index_of(sep);
                assert(last[i] == sep);
            }
        }
        pieces_of_sum(s, shorter, sep);
        assert(all.drop_last() =~= s.push(sep) + shorter);
        assert(last.contains(last.last()));
        let before = pieces(s, sep).push(shorter);
        assert(before.drop_last() =~= pieces(s, sep));
        assert(shorter.push(last.last()) =~= last);
    }
}

proof fn lemma_single_piece(s: Seq<char>, sep: char)
    requires
        !s.contains(sep),
    ensures
        pieces(s, sep) == seq![s],
    decreases s.len(),
{
    if s.len() > 0 {
        let shorter = s.drop_last();
        assert(!shorter.contains(sep)) by {
            if shorter.contains(sep) {
                let i = shorter.index_of(sep);
                assert(s[i] == sep);
            }
        }
        lemma_single_piece(shorter, sep);
        assert(s.contains(s.last()));
        assert(shorter.push(s.last()) =~= s);
        assert(pieces(s, sep) =~= seq![s]);
    } else {
        assert(s =~= Seq::<char>::empty());
    }
}

/// A piece in front of a text and a separator is one more piece.
pub proof fn pieces_after_first(first: Seq<char>, s: Seq<char>, sep: char)
    requires
        !first.contains(sep),
    ensures
        pieces(first.push(sep) + s, sep) == seq![first] + pieces(s, sep),
    decreases s.len(),
{
    let all = first.push(sep) + s;
    if s.len() == 0 {
        lemma_single_piece(first, sep);
        assert(all =~= first.push(sep));
        assert(all.drop_last() =~= first);
        assert(pieces(all, sep) =~= seq![first] + pieces(s, sep));
    } else {
        pieces_after_first(first, s.drop_last(), sep);
        pieces_make_the_text(s.drop_last(), sep);
        assert(all.drop_last() =~= first.push(sep) + s.drop_last());
        assert(all.last() == s.last());
        let before = pieces(s.drop_last(), sep);
        assert((seq![first] + before).last() == before.last());
        assert(pieces(all, sep) =~= seq![first] + pieces(s, sep));
    }
}

}
