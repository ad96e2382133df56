//! Text as sequences of characters: prefixes, decimal numbers, the separator
//! inside a participant's name, and lexicographic order.

use vstd::prelude::*;

verus! {

/// The characters between the unique part of a participant's name and its
/// sequence number.
pub open spec fn separator() -> Seq<char> {
    seq!['-', 'n', '_']
}

/// The separator stands in `s` at index `i`.
pub open spec fn separator_at(s: Seq<char>, i: int) -> bool {
    &&& 0 <= i
    &&& i + 3 <= s.len()
    &&& s[i] == '-'
    &&& s[i + 1] == 'n'
    &&& s[i + 2] == '_'
}

/// The separator stands in `s` at index `i` and nowhere else.
pub open spec fn sole_separator_at(s: Seq<char>, i: int) -> bool {
    &&& separator_at(s, i)
    &&& forall|j: int| #[trigger] separator_at(s, j) ==> j == i
}

/// The text before and the text after the separator, where it stands in `s`
/// exactly once.
pub open spec fn around_separator(s: Seq<char>) -> Option<(Seq<char>, Seq<char>)> {
    if exists|i: int| sole_separator_at(s, i) {
        let i = choose|i: int| sole_separator_at(s, i);
        Some((s.take(i), s.skip(i + 3)))
    } else {
        None
    }
}

pub open spec fn is_digit(c: char) -> bool {
    '0' <= c <= '9'
}

pub open spec fn all_digits(s: Seq<char>) -> bool {
    forall|i: int| 0 <= i < s.len() ==> is_digit(#[trigger] s[i])
}

/// The number that a sequence of decimal digits stands for.
pub open spec fn decimal_value(s: Seq<char>) -> nat
    decreases s.len(),
{
    if s.len() == 0 {
        0
    } else {
        (decimal_value(s.drop_last()) * 10 + (s.last() as int - '0' as int)) as nat
    }
}

/// `s` without a leading plus sign.
pub open spec fn unsigned_part(s: Seq<char>) -> Seq<char> {
    if s.len() > 0 && s[0] == '+' {
        s.skip(1)
    } else {
        s
    }
}

/// Why a text is no number.
#[derive(Debug, Clone, Copy)]
pub enum NumberFault {
    /// It is empty.
    Empty,
    /// It holds a character that is no digit, or no digit at all.
    InvalidDigit,
    /// Its digits stand for too large a number.
    TooLarge,
}

impl NumberFault {
    /// The fault in words.
    pub open spec fn words(self) -> Seq<char> {
        match self {
            NumberFault::Empty => "cannot parse integer from empty string"@,
            NumberFault::InvalidDigit => "invalid digit found in string"@,
            NumberFault::TooLarge => "number too large to fit in target type"@,
        }
    }

    /// The fault in words, as a text.
    pub fn to_words(self) -> (words: String)
        ensures
            words@ == self.words(),
    {
        match self {
            NumberFault::Empty => "cannot parse integer from empty string".to_owned(),
            NumberFault::InvalidDigit => "invalid digit found in string".to_owned(),
            NumberFault::TooLarge => "number too large to fit in target type".to_owned(),
        }
    }
}

/// The first `n` characters are digits that stand for too large a number.
pub open spec fn is_too_large_at(digits: Seq<char>, n: int) -> bool {
    &&& 0 <= n <= digits.len()
    &&& all_digits(digits.take(n))
    &&& decimal_value(digits.take(n)) > u32::MAX
}

/// The number written in `s`: at least one decimal digit, after an optional
/// plus sign, with a value that fits in 32 bits. Of two faults the one that
/// shows first from the left counts.
pub open spec fn number_in(s: Seq<char>) -> Result<u32, NumberFault> {
    let digits = unsigned_part(s);
    if digits.len() > 0 && all_digits(digits) && decimal_value(digits) <= u32::MAX {
        Ok(decimal_value(digits) as u32)
    } else if s.len() == 0 {
        Err(NumberFault::Empty)
    } else if exists|n: int| is_too_large_at(digits, n) {
        Err(NumberFault::TooLarge)
    } else {
        Err(NumberFault::InvalidDigit)
    }
}

/// A digit is worth at least nothing, so more digits never make a number smaller.
pub proof fn lemma_decimal_value_grows(s: Seq<char>, n: int)
    requires
        all_digits(s),
        0 <= n <= s.len(),
    ensures
        decimal_value(s.take(n)) <= decimal_value(s),
    decreases s.len(),
{
    if n == s.len() {
        assert(s.take(n) =~= s);
    } else {
        assert(s.drop_last().take(n) =~= s.take(n));
        lemma_decimal_value_grows(s.drop_last(), n);
        assert(is_digit(s[s.len() - 1]));
    }
}

/// The texts of a sequence of strings.
pub open spec fn texts(strings: Seq<String>) -> Seq<Seq<char>> {
    strings.map_values(|string: String| string@)
}

/// The characters of `s`, one by one.
pub fn chars_of(s: &str) -> (chars: Vec<char>)
    ensures
        chars@ == s@,
{
    let mut chars: Vec<char> = Vec::new();
    for c in it: s.chars()
        invariant
            it.seq() == s@,
            chars@ == s@.take(it.index()),
    {
        chars.push(c);
    }
    assert(s@.take(s@.len() as int) =~= s@);
    chars
}

/// Reads a 32-bit number.
pub fn parse_u32(s: &str) -> (number: Result<u32, NumberFault>)
    ensures
        number == number_in(s@),
{
    let chars = chars_of(s);
    if chars.len() == 0 {
        return Err(NumberFault::Empty);
    }
    let start: usize = if chars[0] == '+' { 1 } else { 0 };
    let ghost digits = unsigned_part(s@);
    assert(digits =~= s@.skip(start as int));
    if chars.len() == start {
        return Err(NumberFault::InvalidDigit);
    }
    let mut value: u32 = 0;
    let mut i: usize = start;
    while i < chars.len()
        invariant
            start <= i <= chars.len(),
            start < chars.len(),
            chars@ == s@,
            digits == s@.skip(start as int),
            digits == unsigned_part(s@),
            all_digits(digits.take(i - start)),
            value == decimal_value(digits.take(i - start)),
        decreases chars.len() - i,
    {
        let c = chars[i];
        let ghost n = i - start;
        assert(digits[n] == c);
        if c < '0' || '9' < c {
            assert(!is_digit(digits[n]));
            assert forall|m: int| !is_too_large_at(digits, m) by {
                if is_too_large_at(digits, m) {
                    if m > n {
                        assert(is_digit(digits.take(m)[n]));
                    } else {
                        assert(digits.take(n).take(m) =~= digits.take(m));
                        lemma_decimal_value_grows(digits.take(n), m);
                    }
                }
            }
            return Err(NumberFault::InvalidDigit);
        }
        assert(digits.take(n + 1).drop_last() =~= digits.take(n));
        assert forall|k: int| 0 <= k < n + 1 implies is_digit(#[trigger] digits.take(n + 1)[k]) by {
            if k < n {
                assert(is_digit(digits.take(n)[k]));
            }
        }
        let digit: u32 = c as u32 - '0' as u32;
        let wide: u64 = value as u64 * 10 + digit as u64;
        assert(wide == decimal_value(digits.take(n + 1)));
        if wide > u32::MAX as u64 {
            proof {
                assert(is_too_large_at(digits, n + 1));
                if all_digits(digits) {
                    lemma_decimal_value_grows(digits, n + 1);
                }
            }
            return Err(NumberFault::TooLarge);
        }
        value = wide as u32;
        i = i + 1;
    }
    assert(digits.take(chars.len() - start) =~= digits);
    Ok(value)
}

/// The one place of the separator determines what stands around it.
pub proof fn lemma_around_separator(s: Seq<char>, i: int)
    requires
        sole_separator_at(s, i),
    ensures
        around_separator(s) == Some((s.take(i), s.skip(i + 3))),
{
    let j = choose|j: int| sole_separator_at(s, j);
    assert(separator_at(s, j));
}

/// A text with one separator between two parts that hold none splits into
/// these parts.
pub proof fn lemma_split_joined(left: Seq<char>, right: Seq<char>)
    requires
        forall|i: int| !separator_at(left, i),
        forall|i: int| !separator_at(right, i),
    ensures
        around_separator(left + separator() + right) == Some((left, right)),
{
    let s = left + separator() + right;
    let n = left.len() as int;
    assert(separator_at(s, n));
    assert forall|j: int| #[trigger] separator_at(s, j) implies j == n by {
        if j < n - 2 {
            assert(separator_at(left, j));
        } else if j > n + 2 {
            assert(separator_at(right, j - n - 3));
        }
    }
    assert(sole_separator_at(s, n));
    lemma_around_separator(s, n);
    assert(s.take(n) =~= left);
    assert(s.skip(n + 3) =~= right);
}

/// Splits `s` at the separator, if it stands there exactly once.
pub fn split_at_separator(s: &str) -> (parts: Option<(&str, &str)>)
    ensures
        match parts {
            Some((left, right)) => around_separator(s@) == Some((left@, right@)),
            None => around_separator(s@) is None,
        },
{
    let chars = chars_of(s);
    let len: usize = chars.len();
    let mut at: Option<usize> = None;
    let mut i: usize = 0;
    while i < len
        invariant
            len == chars.len(),
            chars@ == s@,
            i <= len,
            match at {
                Some(k) => k < i && separator_at(s@, k as int) && forall|j: int|
                    j < i && #[trigger] separator_at(s@, j) ==> j == k,
                None => forall|j: int| j < i ==> !#[trigger] separator_at(s@, j),
            },
        decreases len - i,
    {
        if len - i >= 3 && chars[i] == '-' && chars[i + 1] == 'n' && chars[i + 2] == '_' {
            assert(separator_at(s@, i as int));
            match at {
                Some(k) => {
                    assert forall|j: int| !sole_separator_at(s@, j) by {
                        if sole_separator_at(s@, j) {
                            assert(separator_at(s@, k as int));
                        }
                    }
                    return None;
                },
                None => {
                    at = Some(i);
                },
            }
        }
        i = i + 1;
    }
    match at {
        Some(k) => {
            assert forall|j: int| #[trigger] separator_at(s@, j) implies j == k by {
                assert(j < len);
            }
            proof {
                lemma_around_separator(s@, k as int);
            }
            let left = s.substring_char(0, k);
            let right = s.substring_char(k + 3, len);
            assert(left@ =~= s@.take(k as int));
            assert(right@ =~= s@.skip(k + 3));
            Some((left, right))
        },
        None => {
            assert forall|j: int| !sole_separator_at(s@, j) by {
                if sole_separator_at(s@, j) {
                    assert(separator_at(s@, j) && j < len);
                }
            }
            None
        },
    }
}

/// Whether `s` begins with `prefix`.
pub fn starts_with(s: &str, prefix: &str) -> (yes: bool)
    ensures
        yes == prefix@.is_prefix_of(s@),
{
    let chars = chars_of(s);
    let wanted = chars_of(prefix);
    if wanted.len() > chars.len() {
        return false;
    }
    let mut i: usize = 0;
    while i < wanted.len()
        invariant
            i <= wanted.len() <= chars.len(),
            chars@ == s@,
            wanted@ == prefix@,
            forall|j: int| 0 <= j < i ==> prefix@[j] == s@[j],
        decreases wanted.len() - i,
    {
        if chars[i] != wanted[i] {
            assert(s@.subrange(0, prefix@.len() as int)[i as int] != prefix@[i as int]);
            return false;
        }
        i = i + 1;
    }
    assert(s@.subrange(0, prefix@.len() as int) =~= prefix@);
    true
}

/// `s` without its first `n` characters.
pub fn skip_chars(s: &str, n: usize) -> (rest: &str)
    requires
        n <= s@.len(),
    ensures
        rest@ == s@.skip(n as int),
{
    let rest = s.substring_char(n, s.unicode_len());
    assert(rest@ =~= s@.skip(n as int));
    rest
}

/// The path of the node `name` under the node `parent`.
pub open spec fn path_under(parent: Seq<char>, name: Seq<char>) -> Seq<char> {
    parent + seq!['/'] + name
}

/// Joins the path of a node and the name of a node under it.
pub fn join_path(parent: &str, name: &str) -> (path: String)
    ensures
        path@ == path_under(parent@, name@),
{
    let path = parent.to_owned().concat("/").concat(name);
    proof {
        reveal_strlit("/");
    }
    assert("/"@ =~= seq!['/']);
    path
}

/// `a` stands before `b` in lexicographic order of their characters.
pub open spec fn text_below(a: Seq<char>, b: Seq<char>) -> bool
    decreases a.len(),
{
    if b.len() == 0 {
        false
    } else if a.len() == 0 {
        true
    } else {
        a[0] < b[0] || (a[0] == b[0] && text_below(a.drop_first(), b.drop_first()))
    }
}

pub proof fn lemma_text_below_asymmetric(a: Seq<char>, b: Seq<char>)
    requires
        text_below(a, b),
    ensures
        !text_below(b, a),
    decreases a.len(),
{
    if a.len() > 0 && b.len() > 0 && a[0] == b[0] {
        lemma_text_below_asymmetric(a.drop_first(), b.drop_first());
    }
}

pub proof fn lemma_text_below_between(a: Seq<char>, b: Seq<char>, c: Seq<char>)
    requires
        text_below(a, c),
    ensures
        text_below(a, b) || text_below(b, c),
    decreases a.len(),
{
    if a.len() > 0 && b.len() > 0 && c.len() > 0 && a[0] == c[0] && a[0] == b[0] {
        lemma_text_below_between(a.drop_first(), b.drop_first(), c.drop_first());
    }
}

/// Of two different texts one stands before the other.
pub proof fn lemma_text_below_total(a: Seq<char>, b: Seq<char>)
    requires
        a != b,
    ensures
        text_below(a, b) || text_below(b, a),
    decreases a.len(),
{
    if a.len() > 0 && b.len() > 0 {
        if a[0] == b[0] {
            if a.drop_first() == b.drop_first() {
                assert(a =~= seq![a[0]] + a.drop_first());
                assert(b =~= seq![b[0]] + b.drop_first());
            }
            lemma_text_below_total(a.drop_first(), b.drop_first());
        }
    } else {
        assert(a.len() == 0 && b.len() == 0 ==> a =~= b);
    }
}

/// Whether `a` stands before `b` in lexicographic order.
pub fn is_text_below(a: &str, b: &str) -> (yes: bool)
    ensures
        yes == text_below(a@, b@),
{
    let left = chars_of(a);
    let right = chars_of(b);
    let mut i: usize = 0;
    assert(a@.skip(0) =~= a@);
    assert(b@.skip(0) =~= b@);
    while i < left.len() && i < right.len()
        invariant
            i <= left.len(),
            i <= right.len(),
            left@ == a@,
            right@ == b@,
            text_below(a@, b@) == text_below(a@.skip(i as int), b@.skip(i as int)),
        decreases left.len() - i,
    {
        let l = left[i];
        let r = right[i];
        assert(a@.skip(i as int)[0] == l && b@.skip(i as int)[0] == r);
        if l < r {
            return true;
        }
        if r < l {
            return false;
        }
        assert(a@.skip(i as int).drop_first() =~= a@.skip(i + 1));
        assert(b@.skip(i as int).drop_first() =~= b@.skip(i + 1));
        i = i + 1;
    }
    i < right.len()
}

/// The characters of a text are all that it holds, in order.
pub proof fn law_characters_are_those_of_the_text(s: &str, chars: Vec<char>)
    requires
        call_ensures(chars_of, (s,), chars),
    ensures
        chars@.len() == s@.len(),
        forall|i: int| 0 <= i < s@.len() ==> chars@[i] == s@[i],
{
}

/// Every string has its own text, at its own place.
pub proof fn law_texts_are_those_of_the_strings(strings: Seq<String>)
    ensures
        texts(strings).len() == strings.len(),
        forall|i: int| 0 <= i < strings.len() ==> #[trigger] texts(strings)[i] == strings[i]@,
{
}

/// A text begins with another exactly if it is no shorter, and agrees with it in
/// every character that the other has.
pub proof fn law_prefix_agrees_in_every_character(s: &str, prefix: &str, yes: bool)
    requires
        call_ensures(starts_with, (s, prefix), yes),
    ensures
        yes <==> prefix@.len() <= s@.len() && forall|i: int|
            0 <= i < prefix@.len() ==> #[trigger] prefix@[i] == s@[i],
{
    if prefix@.len() <= s@.len() {
        let start = s@.subrange(0, prefix@.len() as int);
        if prefix@.is_prefix_of(s@) {
            assert forall|i: int| 0 <= i < prefix@.len() implies #[trigger] prefix@[i] == s@[i] by {
                assert(start[i] == s@[i]);
            }
        }
        if forall|i: int| 0 <= i < prefix@.len() ==> #[trigger] prefix@[i] == s@[i] {
            assert(start =~= prefix@);
        }
    }
}

/// What is skipped and what is left make up the text.
pub proof fn law_skipping_leaves_the_rest(s: &str, n: usize, rest: &str)
    requires
        n <= s@.len(),
        call_ensures(skip_chars, (s, n), rest),
    ensures
        rest@.len() == s@.len() - n,
        forall|i: int| 0 <= i < rest@.len() ==> #[trigger] rest@[i] == s@[n + i],
{
}

/// A path is the parent's, a slash and the name.
pub proof fn law_path_has_the_parent_and_the_name(parent: &str, name: &str, path: String)
    requires
        call_ensures(join_path, (parent, name), path),
    ensures
        path@.len() == parent@.len() + 1 + name@.len(),
        forall|i: int| 0 <= i < parent@.len() ==> #[trigger] path@[i] == parent@[i],
        path@[parent@.len() as int] == '/',
        forall|i: int| 0 <= i < name@.len() ==> #[trigger] name@[i] == path@[parent@.len() + 1 + i],
{
}

/// Different names have different paths under one parent.
pub proof fn law_names_are_told_apart_by_their_paths(
    parent: &str,
    a: &str,
    b: &str,
    path_a: String,
    path_b: String,
)
    requires
        call_ensures(join_path, (parent, a), path_a),
        call_ensures(join_path, (parent, b), path_b),
    ensures
        path_a@ == path_b@ <==> a@ == b@,
{
    let n = parent@.len() as int + 1;
    assert(path_a@.skip(n) =~= a@);
    assert(path_b@.skip(n) =~= b@);
}

/// The characters `-n_` stand in `s` at index `i`.
spec fn splits_at(s: Seq<char>, i: int) -> bool {
    0 <= i <= s.len() - 3 && s.subrange(i, i + 3) == seq!['-', 'n', '_']
}

/// A text splits exactly if it holds `-n_` once, and then what stands before and
/// after it are the parts.
pub proof fn law_split_parts_make_up_the_text(s: &str, parts: Option<(&str, &str)>)
    requires
        call_ensures(split_at_separator, (s,), parts),
    ensures
        parts matches Some((left, right)) ==> s@ == left@ + seq!['-', 'n', '_'] + right@,
        parts is Some <==> exists|i: int|
            0 <= i <= s@.len() - 3 && #[trigger] s@.subrange(i, i + 3) == seq!['-', 'n', '_']
                && forall|j: int|
                0 <= j <= s@.len() - 3 && #[trigger] s@.subrange(j, j + 3) == seq!['-', 'n', '_']
                    ==> j == i,
{
    assert forall|i: int| #[trigger] separator_at(s@, i) == splits_at(s@, i) by {
        if separator_at(s@, i) {
            assert(s@.subrange(i, i + 3) =~= seq!['-', 'n', '_']);
        }
        if splits_at(s@, i) {
            let part = s@.subrange(i, i + 3);
            assert(part[0] == s@[i] && part[1] == s@[i + 1] && part[2] == s@[i + 2]);
        }
    }
    if parts is Some {
        let i = choose|i: int| sole_separator_at(s@, i);
        assert(sole_separator_at(s@, i));
        assert(s@ =~= s@.take(i) + seq!['-', 'n', '_'] + s@.skip(i + 3));
        assert(splits_at(s@, i));
        assert forall|j: int|
            0 <= j <= s@.len() - 3 && #[trigger] s@.subrange(j, j + 3) == seq![
                '-',
                'n',
                '_',
            ] implies j == i by {
            assert(splits_at(s@, j));
            assert(separator_at(s@, j));
        }
    }
    if exists|i: int|
        0 <= i <= s@.len() - 3 && #[trigger] s@.subrange(i, i + 3) == seq!['-', 'n', '_']
            && forall|j: int|
            0 <= j <= s@.len() - 3 && #[trigger] s@.subrange(j, j + 3) == seq!['-', 'n', '_'] ==> j
                == i {
        let i = choose|i: int|
            0 <= i <= s@.len() - 3 && #[trigger] s@.subrange(i, i + 3) == seq!['-', 'n', '_']
                && forall|j: int|
                0 <= j <= s@.len() - 3 && #[trigger] s@.subrange(j, j + 3) == seq!['-', 'n', '_']
                    ==> j == i;
        assert(splits_at(s@, i));
        assert(separator_at(s@, i));
        assert forall|j: int| #[trigger] separator_at(s@, j) implies j == i by {
            assert(splits_at(s@, j));
        }
        assert(sole_separator_at(s@, i));
    }
}

/// One text stands before another exactly if they agree up to some place, where the
/// first ends and the other does not, or has the lower character.
pub proof fn law_texts_rank_by_their_first_difference(a: &str, b: &str, yes: bool)
    requires
        call_ensures(is_text_below, (a, b), yes),
    ensures
        yes <==> exists|k: int| #[trigger] differ_upwards_at(a@, b@, k),
{
    lemma_text_below_at(a@, b@);
}

/// The texts agree before the `k`th character, where the first ends and the other
/// does not, or has the lower character.
pub open spec fn differ_upwards_at(a: Seq<char>, b: Seq<char>, k: int) -> bool {
    &&& 0 <= k <= a.len()
    &&& k < b.len()
    &&& forall|i: int| 0 <= i < k ==> a[i] == b[i]
    &&& k == a.len() || a[k] < b[k]
}

/// The order of texts is that of their first difference.
pub proof fn lemma_text_below_at(a: Seq<char>, b: Seq<char>)
    ensures
        text_below(a, b) <==> exists|k: int| #[trigger] differ_upwards_at(a, b, k),
    decreases a.len(),
{
    let (x, y) = (a.drop_first(), b.drop_first());
    if a.len() == 0 || b.len() == 0 {
        if b.len() > 0 {
            assert(differ_upwards_at(a, b, 0));
        }
    } else {
        lemma_text_below_at(x, y);
        if text_below(a, b) {
            if a[0] < b[0] {
                assert(differ_upwards_at(a, b, 0));
            } else {
                let k = choose|k: int| #[trigger] differ_upwards_at(x, y, k);
                assert forall|i: int| 0 <= i < k + 1 implies a[i] == b[i] by {
                    if i > 0 {
                        assert(x[i - 1] == y[i - 1]);
                    }
                }
                assert(differ_upwards_at(a, b, k + 1));
            }
        }
        if exists|k: int| #[trigger] differ_upwards_at(a, b, k) {
            let k = choose|k: int| #[trigger] differ_upwards_at(a, b, k);
            if k > 0 {
                assert forall|i: int| 0 <= i < k - 1 implies x[i] == y[i] by {
                    assert(a[i + 1] == b[i + 1]);
                }
                assert(differ_upwards_at(x, y, k - 1));
            }
        }
    }
}

/// A text of one character is a number exactly if that is a digit, and then the
/// number is the digit's.
pub proof fn law_one_digit_is_read(s: &str, number: Result<u32, NumberFault>)
    requires
        s@.len() == 1,
        call_ensures(parse_u32, (s,), number),
    ensures
        number is Ok <==> '0' <= s@[0] <= '9',
        number matches Ok(n) ==> n == s@[0] as int - '0' as int,
        number matches Err(fault) ==> fault == NumberFault::InvalidDigit,
{
    let digits = unsigned_part(s@);
    assert forall|n: int| !is_too_large_at(digits, n) by {
        if is_too_large_at(digits, n) {
            reveal_with_fuel(decimal_value, 2);
            if n > 0 {
                assert(is_digit(digits.take(n)[0]));
            }
        }
    }
    if digits.len() > 0 {
        assert(digits =~= s@);
        assert(decimal_value(digits.drop_last()) == 0);
        assert(all_digits(digits) <==> is_digit(digits[0]));
    }
}

/// One more digit makes a number ten times as large and adds the digit, unless the
/// number gets too large. One more character of another kind makes it none, and
/// so does any character after what is none.
pub proof fn law_one_more_digit_is_read(
    s: &str,
    longer: &str,
    number: Result<u32, NumberFault>,
    next: Result<u32, NumberFault>,
)
    requires
        s@.len() > 0,
        s@ != seq!['+'],
        longer@.len() == s@.len() + 1,
        longer@.drop_last() == s@,
        call_ensures(parse_u32, (s,), number),
        call_ensures(parse_u32, (longer,), next),
    ensures
        ({
            let c = longer@.last();
            match number {
                Err(fault) => next == Err::<u32, NumberFault>(fault),
                Ok(n) => if !('0' <= c <= '9') {
                    next == Err::<u32, NumberFault>(NumberFault::InvalidDigit)
                } else if n * 10 + (c as int - '0' as int) > 0xffff_ffff {
                    next == Err::<u32, NumberFault>(NumberFault::TooLarge)
                } else {
                    next matches Ok(m) && m == n * 10 + (c as int - '0' as int)
                },
            }
        }),
{
    let (d, e) = (unsigned_part(s@), unsigned_part(longer@));
    let c = longer@.last();
    assert(longer@ =~= s@.push(c));
    assert(longer@[0] == s@[0]);
    if s@[0] == '+' {
        assert(d.len() > 0) by {
            if s@.len() == 1 {
                assert(s@ =~= seq!['+']);
            }
        }
    }
    assert(e =~= d.push(c));
    assert(e.drop_last() =~= d);
    assert(all_digits(e) <==> all_digits(d) && is_digit(c)) by {
        if all_digits(e) {
            assert forall|i: int| 0 <= i < d.len() implies is_digit(#[trigger] d[i]) by {
                assert(is_digit(e[i]));
            }
            assert(is_digit(e[e.len() - 1]));
        }
        if all_digits(d) && is_digit(c) {
            assert forall|i: int| 0 <= i < e.len() implies is_digit(#[trigger] e[i]) by {
                if i < d.len() {
                    assert(is_digit(d[i]));
                }
            }
        }
    }
    assert forall|n: int| 0 <= n <= d.len() implies #[trigger] is_too_large_at(d, n)
        == is_too_large_at(e, n) by {
        assert(d.take(n) =~= e.take(n));
    }
    assert(e.take(e.len() as int) =~= e);
    assert(d.take(d.len() as int) =~= d);
    if exists|n: int| is_too_large_at(d, n) {
        let n = choose|n: int| is_too_large_at(d, n);
        assert(is_too_large_at(e, n));
        if all_digits(d) {
            lemma_decimal_value_grows(d, n);
        }
        if all_digits(e) {
            lemma_decimal_value_grows(e, n);
        }
    }
    if number is Ok {
        assert forall|n: int| 0 <= n <= d.len() implies !is_too_large_at(e, n) by {
            assert(is_too_large_at(d, n) == is_too_large_at(e, n));
            lemma_decimal_value_grows(d, n);
        }
        if is_digit(c) && decimal_value(e) > u32::MAX {
            assert(is_too_large_at(e, e.len() as int));
        }
        assert forall|n: int| is_too_large_at(e, n) implies n == e.len() by {}
    } else {
        if all_digits(d) {
            assert(is_too_large_at(d, d.len() as int));
        } else {
            assert forall|n: int| is_too_large_at(e, n) implies is_too_large_at(d, n) by {
                if n == e.len() {
                    assert(all_digits(e));
                }
            }
        }
    }
}

/// A leading plus sign changes nothing in a text that has none, and makes one that
/// has some no number.
pub proof fn law_plus_sign_is_passed_over(
    s: &str,
    signed: &str,
    number: Result<u32, NumberFault>,
    same: Result<u32, NumberFault>,
)
    requires
        s@.len() > 0,
        signed@ == seq!['+'] + s@,
        call_ensures(parse_u32, (s,), number),
        call_ensures(parse_u32, (signed,), same),
    ensures
        s@[0] != '+' ==> same == number,
        s@[0] == '+' ==> same == Err::<u32, NumberFault>(NumberFault::InvalidDigit),
{
    assert(signed@.skip(1) =~= s@);
    if s@[0] == '+' {
        assert(!is_digit(s@[0]));
        assert forall|n: int| !is_too_large_at(s@, n) by {
            if is_too_large_at(s@, n) {
                if n > 0 {
                    assert(is_digit(s@.take(n)[0]));
                }
            }
        }
    }
}

/// Nothing, and a plus sign alone, are no numbers.
pub proof fn law_no_digits_are_no_number(s: &str, number: Result<u32, NumberFault>)
    requires
        s@.len() == 0 || s@ == seq!['+'],
        call_ensures(parse_u32, (s,), number),
    ensures
        number == Err::<u32, NumberFault>(
            if s@.len() == 0 {
                NumberFault::Empty
            } else {
                NumberFault::InvalidDigit
            },
        ),
{
    let digits = unsigned_part(s@);
    assert(digits.len() == 0);
    assert forall|n: int| !is_too_large_at(digits, n) by {
        if is_too_large_at(digits, n) {
            assert(digits.take(n).len() == 0);
        }
    }
}

/// Each fault has words of its own.
pub proof fn law_faults_are_told_apart(a: NumberFault, b: NumberFault, said: String, other: String)
    requires
        call_ensures(NumberFault::to_words, (a,), said),
        call_ensures(NumberFault::to_words, (b,), other),
    ensures
        said@ == match a {
            NumberFault::Empty => "cannot parse integer from empty string"@,
            NumberFault::InvalidDigit => "invalid digit found in string"@,
            NumberFault::TooLarge => "number too large to fit in target type"@,
        },
        said@ == other@ ==> a == b,
{
    reveal_strlit("cannot parse integer from empty string");
    reveal_strlit("invalid digit found in string");
    reveal_strlit("number too large to fit in target type");
    assert("cannot parse integer from empty string"@[0] == 'c');
    assert("invalid digit found in string"@[0] == 'i');
    assert("number too large to fit in target type"@[0] == 'n');
}

} // verus!
