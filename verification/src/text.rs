//! Character-level text operations with exact contracts over `Seq<char>`.

use vstd::prelude::*;

verus! {

/// Builds a `String` from characters. Trusted: stands for collecting an
/// iterator of `char` into a `String` (`FromIterator<char>`), which yields
/// exactly the characters given, in order.
#[verifier::external_body]
pub(crate) fn string_from_chars(chars: &Vec<char>) -> (text: String)
    ensures
        text@ == chars@,
{
    chars.iter().collect()
}

/// The characters of a string slice.
pub fn chars_of(text: &str) -> (chars: Vec<char>)
    ensures
        chars@ == text@,
{
    let mut chars: Vec<char> = Vec::new();
    for c in iter: text.chars()
        invariant
            chars@ == iter.seq().take(iter.index()),
            iter.seq() == text@,
    {
        chars.push(c);
        assert(iter.seq().take(iter.index() + 1) == iter.seq().take(iter.index()).push(c));
    }
    assert(chars@ == text@);
    chars
}

/// Whether `pattern` occurs in `text` starting at position `at`.
pub open spec fn occurs_at(text: Seq<char>, pattern: Seq<char>, at: int) -> bool {
    &&& 0 <= at
    &&& at + pattern.len() <= text.len()
    &&& text.subrange(at, at + pattern.len()) == pattern
}

/// Whether `pattern` occurs anywhere in `text`. The empty pattern occurs in
/// every text.
pub open spec fn contains_text(text: Seq<char>, pattern: Seq<char>) -> bool {
    exists|at: int| occurs_at(text, pattern, at)
}

/// Whether `text` ends with `suffix`.
pub open spec fn ends_with_text(text: Seq<char>, suffix: Seq<char>) -> bool {
    occurs_at(text, suffix, text.len() - suffix.len())
}

/// Whether `text` starts with `prefix`.
pub open spec fn starts_with_text(text: Seq<char>, prefix: Seq<char>) -> bool {
    occurs_at(text, prefix, 0)
}

/// Decides `occurs_at` for a position inside the text.
pub fn matches_at(text: &Vec<char>, pattern: &Vec<char>, at: usize) -> (found: bool)
    requires
        at + pattern.len() <= text.len(),
    ensures
        found == occurs_at(text@, pattern@, at as int),
{
    let mut i: usize = 0;
    while i < pattern.len()
        invariant
            i <= pattern.len(),
            at + pattern.len() <= text.len(),
            forall|j: int| 0 <= j < i ==> text@[at + j] == pattern@[j],
        decreases pattern.len() - i,
    {
        if text[at + i] != pattern[i] {
            assert(text@.subrange(at as int, at + pattern.len())[i as int] != pattern@[i as int]);
            return false;
        }
        i += 1;
    }
    assert(text@.subrange(at as int, at + pattern.len()) =~= pattern@);
    true
}

/// Decides `contains_text`.
pub fn contains(text: &Vec<char>, pattern: &Vec<char>) -> (found: bool)
    ensures
        found == contains_text(text@, pattern@),
{
    if pattern.len() > text.len() {
        return false;
    }
    let last: usize = text.len() - pattern.len();
    let mut at: usize = 0;
    loop
        invariant
            last == text.len() - pattern.len(),
            at <= last,
            forall|k: int| 0 <= k < at ==> !occurs_at(text@, pattern@, k),
        decreases last - at,
    {
        if matches_at(text, pattern, at) {
            return true;
        }
        if at == last {
            return false;
        }
        at += 1;
    }
}

/// Decides `ends_with_text`.
pub fn ends_with(text: &Vec<char>, suffix: &Vec<char>) -> (found: bool)
    ensures
        found == ends_with_text(text@, suffix@),
{
    if suffix.len() > text.len() {
        return false;
    }
    matches_at(text, suffix, text.len() - suffix.len())
}

/// Decides `starts_with_text`.
pub fn starts_with(text: &Vec<char>, prefix: &Vec<char>) -> (found: bool)
    ensures
        found == starts_with_text(text@, prefix@),
{
    if prefix.len() > text.len() {
        return false;
    }
    matches_at(text, prefix, 0)
}

/// `text` with every occurrence of the character `from` replaced by `to`.
pub open spec fn replaced_char(text: Seq<char>, from: char, to: char) -> Seq<char> {
    Seq::new(text.len(), |i: int| if text[i] == from { to } else { text[i] })
}

/// Computes `replaced_char`.
pub fn replace_char(text: &Vec<char>, from: char, to: char) -> (out: Vec<char>)
    ensures
        out@ == replaced_char(text@, from, to),
{
    let mut out: Vec<char> = Vec::new();
    let mut i: usize = 0;
    while i < text.len()
        invariant
            i <= text.len(),
            out@.len() == i,
            forall|j: int| 0 <= j < i ==> out@[j] == (if text@[j] == from { to } else { text@[j] }),
        decreases text.len() - i,
    {
        let c = text[i];
        out.push(if c == from { to } else { c });
        i += 1;
    }
    assert(out@ =~= replaced_char(text@, from, to));
    out
}


/// Whether two string slices hold the same characters. Trusted: stands for
/// `==` on `str`, which compares the two byte for byte.
#[verifier::external_body]
pub(crate) fn same_text(left: &str, right: &str) -> (same: bool)
    ensures
        same == (left@ == right@),
{
    left == right
}

/// The text that lossy UTF-8 decoding gives for `bytes`: valid sequences
/// decode to their characters, invalid ones to U+FFFD.
pub uninterp spec fn utf8_lossy(bytes: Seq<u8>) -> Seq<char>;

/// Decodes bytes as UTF-8, replacing what is not valid. Trusted: stands for
/// `String::from_utf8_lossy`, whose result depends on the bytes alone.
#[verifier::external_body]
pub(crate) fn lossy_text(bytes: &[u8]) -> (text: String)
    ensures
        text@ == utf8_lossy(bytes@),
{
    String::from_utf8_lossy(bytes).into_owned()
}

/// The deep view of a vector after a push is the old deep view with the
/// pushed element's deep view appended.
pub proof fn lemma_deep_view_push<T: DeepView>(before: Seq<T>, after: Seq<T>, item: T)
    requires
        after == before.push(item),
    ensures
        Seq::new(after.len(), |i: int| after[i].deep_view()) == Seq::new(
            before.len(),
            |i: int| before[i].deep_view(),
        ).push(item.deep_view()),
{
    assert(Seq::new(after.len(), |i: int| after[i].deep_view()) =~= Seq::new(
        before.len(),
        |i: int| before[i].deep_view(),
    ).push(item.deep_view()));
}

/// The deep view of a concatenation is the concatenation of the deep views.
pub proof fn lemma_deep_view_concat<T: DeepView>(left: Seq<T>, right: Seq<T>)
    ensures
        Seq::new((left + right).len(), |i: int| (left + right)[i].deep_view()) == Seq::new(
            left.len(),
            |i: int| left[i].deep_view(),
        ) + Seq::new(right.len(), |i: int| right[i].deep_view()),
{
    assert(Seq::new((left + right).len(), |i: int| (left + right)[i].deep_view()) =~= Seq::new(
        left.len(),
        |i: int| left[i].deep_view(),
    ) + Seq::new(right.len(), |i: int| right[i].deep_view()));
}


/// Appends the characters of `tail` to `out`.
pub fn append_chars(out: &mut Vec<char>, tail: &Vec<char>)
    ensures
        final(out)@ == old(out)@ + tail@,
{
    let ghost before = out@;
    let mut i: usize = 0;
    while i < tail.len()
        invariant
            i <= tail.len(),
            out@ == before + tail@.take(i as int),
        decreases tail.len() - i,
    {
        out.push(tail[i]);
        assert(out@ =~= before + tail@.take(i + 1));
        i += 1;
    }
    assert(tail@.take(tail.len() as int) =~= tail@);
}

/// The character of a decimal digit.
pub open spec fn digit_char(digit: int) -> char {
    if digit == 0 {
        '0'
    } else if digit == 1 {
        '1'
    } else if digit == 2 {
        '2'
    } else if digit == 3 {
        '3'
    } else if digit == 4 {
        '4'
    } else if digit == 5 {
        '5'
    } else if digit == 6 {
        '6'
    } else if digit == 7 {
        '7'
    } else if digit == 8 {
        '8'
    } else {
        '9'
    }
}

/// The decimal digits of a natural number, without leading zeros.
pub open spec fn natural_digits(n: int) -> Seq<char>
    decreases n,
{
    if n < 10 {
        seq![digit_char(n)]
    } else {
        natural_digits(n / 10).push(digit_char(n % 10))
    }
}

/// An integer in decimal, with a minus sign in front when it is negative.
pub open spec fn decimal(n: int) -> Seq<char> {
    if n < 0 {
        seq!['-'] + natural_digits(-n)
    } else {
        natural_digits(n)
    }
}

/// Computes `digit_char`.
fn digit(value: u128) -> (c: char)
    requires
        value < 10,
    ensures
        c == digit_char(value as int),
{
    if value == 0 {
        '0'
    } else if value == 1 {
        '1'
    } else if value == 2 {
        '2'
    } else if value == 3 {
        '3'
    } else if value == 4 {
        '4'
    } else if value == 5 {
        '5'
    } else if value == 6 {
        '6'
    } else if value == 7 {
        '7'
    } else if value == 8 {
        '8'
    } else {
        '9'
    }
}

/// Computes `natural_digits`.
pub fn natural_text(n: u128) -> (digits: Vec<char>)
    ensures
        digits@ == natural_digits(n as int),
    decreases n,
{
    if n < 10 {
        let mut digits: Vec<char> = Vec::new();
        digits.push(digit(n));
        assert(digits@ =~= seq![digit_char(n as int)]);
        digits
    } else {
        let mut digits = natural_text(n / 10);
        digits.push(digit(n % 10));
        digits
    }
}

/// Computes `decimal`.
pub fn decimal_text(n: i128) -> (digits: Vec<char>)
    ensures
        digits@ == decimal(n as int),
{
    if n < 0 {
        let magnitude: u128 = if n == i128::MIN {
            170141183460469231731687303715884105728u128
        } else {
            (-n) as u128
        };
        let mut digits: Vec<char> = Vec::new();
        digits.push('-');
        append_chars(&mut digits, &natural_text(magnitude));
        assert(digits@ =~= seq!['-'] + natural_digits(-(n as int)));
        digits
    } else {
        natural_text(n as u128)
    }
}


/// Whether a character has the Unicode property `White_Space`.
pub uninterp spec fn is_white_space(c: char) -> bool;

/// Decides `is_white_space`. Trusted: stands for `char::is_whitespace`.
#[verifier::external_body]
pub(crate) fn white_space(c: char) -> (yes: bool)
    ensures
        yes == is_white_space(c),
{
    c.is_whitespace()
}

/// The number of white-space characters that `text` starts with.
pub open spec fn leading_spaces(text: Seq<char>) -> int
    decreases text.len(),
{
    if text.len() > 0 && is_white_space(text[0]) {
        1 + leading_spaces(text.drop_first())
    } else {
        0
    }
}

/// The number of white-space characters that `text` ends with.
pub open spec fn trailing_spaces(text: Seq<char>) -> int
    decreases text.len(),
{
    if text.len() > 0 && is_white_space(text.last()) {
        1 + trailing_spaces(text.drop_last())
    } else {
        0
    }
}

/// `text` without the white space it starts and ends with.
pub open spec fn trimmed(text: Seq<char>) -> Seq<char> {
    if leading_spaces(text) >= text.len() {
        Seq::empty()
    } else {
        text.subrange(leading_spaces(text), text.len() - trailing_spaces(text))
    }
}

/// The trailing white space is no longer than the text, and a text that
/// holds a character that is no white space has its trailing white space
/// behind that character.
pub proof fn lemma_trailing_spaces(text: Seq<char>, at: int)
    requires
        0 <= at < text.len(),
        !is_white_space(text[at]),
    ensures
        0 <= trailing_spaces(text) < text.len() - at,
    decreases text.len(),
{
    if at < text.len() - 1 && is_white_space(text.last()) {
        lemma_trailing_spaces(text.drop_last(), at);
    }
}

/// Computes `trimmed`.
pub fn trim(text: &Vec<char>) -> (out: Vec<char>)
    ensures
        out@ == trimmed(text@),
{
    let mut start: usize = 0;
    assert(text@.skip(0) =~= text@);
    while start < text.len() && white_space(text[start])
        invariant
            start <= text.len(),
            leading_spaces(text@) == start + leading_spaces(text@.skip(start as int)),
        decreases text.len() - start,
    {
        assert(text@.skip(start as int)[0] == text@[start as int]);
        assert(text@.skip(start as int).drop_first() =~= text@.skip(start + 1));
        start += 1;
    }
    proof {
        if start < text.len() {
            assert(text@.skip(start as int)[0] == text@[start as int]);
        }
        assert(leading_spaces(text@) == start);
    }
    let mut out: Vec<char> = Vec::new();
    if start == text.len() {
        return out;
    }
    let mut end: usize = text.len();
    assert(text@.take(end as int) =~= text@);
    proof {
        lemma_trailing_spaces(text@, start as int);
    }
    while end > start + 1 && white_space(text[end - 1])
        invariant
            start < end <= text.len(),
            !is_white_space(text@[start as int]),
            trailing_spaces(text@) == (text.len() - end) + trailing_spaces(text@.take(end as int)),
        decreases end,
    {
        assert(text@.take(end as int).last() == text@[end - 1]);
        assert(text@.take(end as int).drop_last() =~= text@.take(end - 1));
        end -= 1;
    }
    proof {
        assert(text@.take(end as int).last() == text@[end - 1]);
        if end == start + 1 {
            assert(!is_white_space(text@[end - 1]));
        }
        assert(trailing_spaces(text@) == text.len() - end);
    }
    let mut i: usize = start;
    while i < end
        invariant
            start <= i <= end <= text.len(),
            out@ == text@.subrange(start as int, i as int),
        decreases end - i,
    {
        out.push(text[i]);
        assert(out@ =~= text@.subrange(start as int, i + 1));
        i += 1;
    }
    out
}

/// The pieces that the first `n` characters of `text` fall into when cut at
/// every `separator`: one piece more than there are separators.
pub open spec fn split_upto(text: Seq<char>, separator: char, n: int) -> Seq<Seq<char>>
    decreases n,
{
    if n <= 0 {
        seq![Seq::empty()]
    } else if text[n - 1] == separator {
        split_upto(text, separator, n - 1).push(Seq::empty())
    } else {
        split_upto(text, separator, n - 1).drop_last().push(
            split_upto(text, separator, n - 1).last().push(text[n - 1]),
        )
    }
}

/// The pieces that `text` falls into when cut at every `separator`.
pub open spec fn split_text_at(text: Seq<char>, separator: char) -> Seq<Seq<char>> {
    split_upto(text, separator, text.len() as int)
}

/// What a vector of character vectors holds.
pub open spec fn pieces_view(pieces: Seq<Vec<char>>) -> Seq<Seq<char>> {
    Seq::new(pieces.len(), |i: int| pieces[i]@)
}

/// Computes `split_text_at`.
pub fn split_at_char(text: &Vec<char>, separator: char) -> (pieces: Vec<Vec<char>>)
    ensures
        pieces_view(pieces@) == split_text_at(text@, separator),
{
    let mut pieces: Vec<Vec<char>> = Vec::new();
    let mut current: Vec<char> = Vec::new();
    let mut n: usize = 0;
    assert(pieces_view(pieces@).push(current@) =~= seq![Seq::<char>::empty()]);
    while n < text.len()
        invariant
            n <= text.len(),
            pieces_view(pieces@).push(current@) == split_upto(text@, separator, n as int),
        decreases text.len() - n,
    {
        let ghost done = pieces_view(pieces@);
        let ghost open = current@;
        assert(done.push(open).drop_last() =~= done);
        if text[n] == separator {
            let ghost before = pieces@;
            pieces.push(current);
            current = Vec::new();
            assert(pieces_view(pieces@) =~= done.push(open));
        } else {
            current.push(text[n]);
        }
        n += 1;
    }
    let ghost done = pieces_view(pieces@);
    pieces.push(current);
    assert(pieces_view(pieces@) =~= done.push(current@));
    pieces
}

/// Whether a character is a decimal digit.
pub open spec fn is_digit(c: char) -> bool {
    c == '0' || c == '1' || c == '2' || c == '3' || c == '4' || c == '5' || c == '6' || c == '7'
        || c == '8' || c == '9'
}

/// The digits of a natural number are at least one, and all of them are
/// digits.
pub proof fn lemma_natural_digits_are_digits(n: int)
    requires
        0 <= n,
    ensures
        natural_digits(n).len() >= 1,
        forall|i: int| 0 <= i < natural_digits(n).len() ==> is_digit(#[trigger] natural_digits(n)[i]),
    decreases n,
{
    if n >= 10 {
        lemma_natural_digits_are_digits(n / 10);
    }
}

/// A number of at least two digits does not start with zero, and the one
/// number of one digit that does is zero.
pub proof fn lemma_natural_digits_lead(n: int)
    requires
        0 <= n,
    ensures
        natural_digits(n)[0] == '0' ==> n == 0,
        natural_digits(n).len() == 1 ==> n < 10,
    decreases n,
{
    if n >= 10 {
        lemma_natural_digits_lead(n / 10);
        lemma_natural_digits_are_digits(n / 10);
        assert(natural_digits(n)[0] == natural_digits(n / 10)[0]);
    }
}

/// Different natural numbers have different digits.
pub proof fn lemma_natural_digits_injective(a: int, b: int)
    requires
        0 <= a,
        0 <= b,
        natural_digits(a) == natural_digits(b),
    ensures
        a == b,
    decreases a,
{
    lemma_natural_digits_lead(a);
    lemma_natural_digits_lead(b);
    lemma_natural_digits_are_digits(a);
    lemma_natural_digits_are_digits(b);
    if a >= 10 && b >= 10 {
        let da = natural_digits(a / 10);
        let db = natural_digits(b / 10);
        assert(da =~= natural_digits(a).drop_last());
        assert(db =~= natural_digits(b).drop_last());
        assert(natural_digits(a).last() == digit_char(a % 10));
        assert(natural_digits(b).last() == digit_char(b % 10));
        lemma_natural_digits_injective(a / 10, b / 10);
    } else if a >= 10 {
        lemma_natural_digits_are_digits(a / 10);
    } else if b >= 10 {
        lemma_natural_digits_are_digits(b / 10);
    }
}

} // verus!
