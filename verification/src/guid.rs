//! Globally unique identifiers: 128-bit numbers, drawn, written and read by
//! the `uuid` crate.

use vstd::arithmetic::div_mod::lemma_div_denominator;
use vstd::arithmetic::power::{lemma_pow_positive, pow};
use vstd::prelude::*;

use crate::text::separator_at;

verus! {

/// The error that the `uuid` crate gives for a text that is no identifier.
#[verifier::external_type_specification]
#[verifier::external_body]
pub struct ExUuidError(uuid::Error);

/// The hexadecimal digit, in lower case, for a number below sixteen.
pub open spec fn hex_digit(n: nat) -> char {
    if n < 10 {
        ('0' as int + n) as char
    } else {
        ('a' as int + n - 10) as char
    }
}

/// `c` is a hexadecimal digit, in lower or upper case.
pub open spec fn is_hex_digit(c: char) -> bool {
    '0' <= c <= '9' || 'a' <= c <= 'f' || 'A' <= c <= 'F'
}

/// What a hexadecimal digit is worth.
pub open spec fn hex_digit_value(c: char) -> int {
    if '0' <= c <= '9' {
        c as int - '0' as int
    } else if 'a' <= c <= 'f' {
        c as int - 'a' as int + 10
    } else {
        c as int - 'A' as int + 10
    }
}

pub open spec fn all_hex_digits(s: Seq<char>) -> bool {
    forall|i: int| 0 <= i < s.len() ==> is_hex_digit(#[trigger] s[i])
}

/// The number that a sequence of hexadecimal digits stands for.
pub open spec fn hex_value(s: Seq<char>) -> int
    decreases s.len(),
{
    if s.len() == 0 {
        0
    } else {
        hex_value(s.drop_last()) * 16 + hex_digit_value(s.last())
    }
}

/// The last `len` hexadecimal digits of `n`.
pub open spec fn hex_text(n: nat, len: nat) -> Seq<char>
    decreases len,
{
    if len == 0 {
        Seq::empty()
    } else {
        hex_text(n / 16, (len - 1) as nat).push(hex_digit(n % 16))
    }
}

/// Groups of eight, four, four, four and twelve digits, with hyphens between.
pub open spec fn hyphenate(digits: Seq<char>) -> Seq<char> {
    digits.subrange(0, 8) + seq!['-'] + digits.subrange(8, 12) + seq!['-'] + digits.subrange(12, 16)
        + seq!['-'] + digits.subrange(16, 20) + seq!['-'] + digits.subrange(20, 32)
}

/// The digits of a text of the hyphenated form.
pub open spec fn without_hyphens(s: Seq<char>) -> Seq<char> {
    s.subrange(0, 8) + s.subrange(9, 13) + s.subrange(14, 18) + s.subrange(19, 23) + s.subrange(
        24,
        36,
    )
}

/// How an identifier is written: in lower case, with hyphens.
pub open spec fn guid_text(guid: u128) -> Seq<char> {
    hyphenate(hex_text(guid as nat, 32))
}

/// The identifier written as thirty-two hexadecimal digits.
pub open spec fn plain_guid_in(s: Seq<char>) -> Option<u128> {
    if s.len() == 32 && all_hex_digits(s) {
        Some(hex_value(s) as u128)
    } else {
        None
    }
}

/// The identifier written as hexadecimal digits in five hyphenated groups.
pub open spec fn hyphenated_guid_in(s: Seq<char>) -> Option<u128> {
    if s.len() == 36 && s[8] == '-' && s[13] == '-' && s[18] == '-' && s[23] == '-' {
        plain_guid_in(without_hyphens(s))
    } else {
        None
    }
}

/// `c`, in lower case if it is an ASCII letter.
pub open spec fn ascii_lower(c: char) -> char {
    if 'A' <= c <= 'Z' {
        (c as int + 32) as char
    } else {
        c
    }
}

/// `s` is `urn:uuid:`, whatever the case of its letters.
pub open spec fn is_urn_prefix(s: Seq<char>) -> bool {
    s.map_values(|c: char| ascii_lower(c)) == seq!['u', 'r', 'n', ':', 'u', 'u', 'i', 'd', ':']
}

/// The identifier that `s` writes in one of the four forms that are read:
/// plain, hyphenated, hyphenated in braces, and hyphenated as a URN.
pub open spec fn guid_in(s: Seq<char>) -> Option<u128> {
    if s.len() == 32 {
        plain_guid_in(s)
    } else if s.len() == 36 {
        hyphenated_guid_in(s)
    } else if s.len() == 38 && s[0] == '{' && s[37] == '}' {
        hyphenated_guid_in(s.subrange(1, 37))
    } else if s.len() == 45 && is_urn_prefix(s.take(9)) {
        hyphenated_guid_in(s.skip(9))
    } else {
        None
    }
}

/// The identifier has the bits that mark it as a random one: version 4, of the
/// variant of RFC 9562.
pub open spec fn is_random_guid(guid: u128) -> bool {
    (guid >> 76) & 0xf == 4 && (guid >> 62) & 0x3 == 2
}

/// Draws an identifier, by `uuid::Uuid::new_v4`.
///
/// Trusted: the identifier is of version 4. The other bits come from the
/// operating system, and nothing is claimed of them. A system that has no random
/// bits to give makes the call panic.
#[verifier::external_body]
pub(crate) fn random_guid() -> (guid: u128)
    ensures
        is_random_guid(guid),
{
    uuid::Uuid::new_v4().as_u128()
}

/// Writes an identifier, by the `Display` of `uuid::Uuid`.
///
/// Trusted: the text is the hyphenated form, in lower case.
#[verifier::external_body]
pub(crate) fn write_guid(guid: u128) -> (text: String)
    ensures
        text@ == guid_text(guid),
{
    uuid::Uuid::from_u128(guid).to_string()
}

/// The error for a text that is no identifier.
pub uninterp spec fn guid_error(text: Seq<char>) -> uuid::Error;

/// What the error says.
pub uninterp spec fn guid_error_words(error: uuid::Error) -> Seq<char>;

/// Reads an identifier, by `uuid::Uuid::parse_str`.
///
/// Trusted: the text is read exactly if it has one of the four forms of
/// `guid_in`, and the identifier is the number that its digits stand for. The
/// error is a function of the text; what it holds is not said.
#[verifier::external_body]
pub(crate) fn parse_guid(text: &str) -> (guid: Result<u128, uuid::Error>)
    ensures
        match guid {
            Ok(g) => guid_in(text@) == Some(g),
            Err(error) => guid_in(text@) is None && error == guid_error(text@),
        },
{
    match uuid::Uuid::parse_str(text) {
        Ok(guid) => Ok(guid.as_u128()),
        Err(error) => Err(error),
    }
}

/// Says what is wrong with a text that is no identifier, by the `Display` of
/// `uuid::Error`.
///
/// Trusted: what is said is a function of the error.
#[verifier::external_body]
pub(crate) fn describe_guid_error(error: &uuid::Error) -> (words: String)
    ensures
        words@ == guid_error_words(*error),
{
    error.to_string()
}

/// Sixteen to the power of `n`.
spec fn sixteen_to(n: nat) -> nat
    decreases n,
{
    if n == 0 {
        1
    } else {
        16 * sixteen_to((n - 1) as nat)
    }
}

/// Digits that are written are read back as the number they were written for.
proof fn lemma_hex_text(n: nat, len: nat)
    requires
        n < sixteen_to(len),
    ensures
        hex_text(n, len).len() == len,
        all_hex_digits(hex_text(n, len)),
        hex_value(hex_text(n, len)) == n,
    decreases len,
{
    if len > 0 {
        let shorter = hex_text(n / 16, (len - 1) as nat);
        lemma_hex_text(n / 16, (len - 1) as nat);
        assert(hex_text(n, len).drop_last() =~= shorter);
    }
}

proof fn lemma_guid_digits(guid: u128)
    ensures
        hex_text(guid as nat, 32).len() == 32,
        all_hex_digits(hex_text(guid as nat, 32)),
        hex_value(hex_text(guid as nat, 32)) == guid,
{
    assert(sixteen_to(32) == 0x1_0000_0000_0000_0000_0000_0000_0000_0000) by {
        reveal_with_fuel(sixteen_to, 33);
    }
    lemma_hex_text(guid as nat, 32);
}

/// What is written for an identifier is read back as that identifier.
pub proof fn law_guid_text_is_read_back(guid: u128)
    ensures
        guid_in(guid_text(guid)) == Some(guid),
{
    lemma_guid_digits(guid);
    let digits = hex_text(guid as nat, 32);
    assert(without_hyphens(hyphenate(digits)) =~= digits);
}

/// What is written for an identifier holds hexadecimal digits and hyphens only,
/// so no separator.
pub proof fn lemma_guid_text_holds_no_separator(guid: u128)
    ensures
        guid_text(guid).len() == 36,
        forall|i: int| !#[trigger] separator_at(guid_text(guid), i),
{
    lemma_guid_digits(guid);
    let digits = hex_text(guid as nat, 32);
    let text = guid_text(guid);
    assert forall|i: int| 0 <= i < text.len() implies text[i] != '_' by {
        let k = if i < 8 { i } else if i < 13 { i - 1 } else if i < 18 { i - 2 } else if i < 23 {
            i - 3
        } else {
            i - 4
        };
        assert(text[i] == '-' || text[i] == digits[k] && is_hex_digit(digits[k]));
    }
}

/// `c` is the hexadecimal digit, in lower or upper case, that is worth `d`.
pub open spec fn is_digit_for(c: char, d: int) -> bool {
    ||| 0 <= d <= 9 && c as int == '0' as int + d
    ||| 10 <= d <= 15 && c as int == 'a' as int + d - 10
    ||| 10 <= d <= 15 && c as int == 'A' as int + d - 10
}

proof fn lemma_hex_value_has_its_digits(s: Seq<char>, i: int)
    requires
        all_hex_digits(s),
        0 <= i < s.len(),
    ensures
        hex_value(s) >= 0,
        is_digit_for(s[i], (hex_value(s) / pow(16, (s.len() - 1 - i) as nat)) % 16),
    decreases s.len(),
{
    reveal(pow);
    let v = s.drop_last();
    let d = hex_digit_value(s.last());
    assert(is_hex_digit(s[s.len() - 1]));
    assert forall|j: int| 0 <= j < v.len() implies is_hex_digit(#[trigger] v[j]) by {
        assert(is_hex_digit(s[j]));
    }
    lemma_hex_value_is_positive(v);
    if i == s.len() - 1 {
        assert(pow(16, 0) == 1);
    } else {
        let k = (v.len() - 1 - i) as nat;
        lemma_hex_value_has_its_digits(v, i);
        lemma_pow_positive(16, k);
        assert(pow(16, k + 1) == 16 * pow(16, k));
        lemma_div_denominator(hex_value(s), 16, pow(16, k));
        assert(hex_value(s) / 16 == hex_value(v));
    }
}

proof fn lemma_hex_value_is_positive(s: Seq<char>)
    requires
        all_hex_digits(s),
    ensures
        0 <= hex_value(s) < sixteen_to(s.len()),
    decreases s.len(),
{
    if s.len() > 0 {
        let v = s.drop_last();
        assert forall|j: int| 0 <= j < v.len() implies is_hex_digit(#[trigger] v[j]) by {
            assert(is_hex_digit(s[j]));
        }
        lemma_hex_value_is_positive(v);
        assert(is_hex_digit(s[s.len() - 1]));
    }
}

/// A text of thirty-two characters is an identifier exactly if all of them are
/// hexadecimal digits, and then they are the digits of the identifier from the
/// highest to the lowest.
pub proof fn law_plain_text_has_the_digits(s: Seq<char>)
    requires
        s.len() == 32,
    ensures
        guid_in(s) is Some <==> forall|i: int|
            0 <= i < 32 ==> '0' <= #[trigger] s[i] <= '9' || 'a' <= s[i] <= 'f' || 'A' <= s[i]
                <= 'F',
        guid_in(s) matches Some(guid) ==> forall|i: int|
            0 <= i < 32 ==> is_digit_for(
                #[trigger] s[i],
                (guid as int / pow(16, (31 - i) as nat)) % 16,
            ),
{
    if forall|i: int|
        0 <= i < 32 ==> '0' <= #[trigger] s[i] <= '9' || 'a' <= s[i] <= 'f' || 'A' <= s[i] <= 'F' {
        assert(all_hex_digits(s));
    }
    if all_hex_digits(s) {
        assert forall|i: int| 0 <= i < 32 implies '0' <= #[trigger] s[i] <= '9' || 'a' <= s[i]
            <= 'f' || 'A' <= s[i] <= 'F' by {
            assert(is_hex_digit(s[i]));
        }
        lemma_hex_value_is_positive(s);
        assert(sixteen_to(32) == 0x1_0000_0000_0000_0000_0000_0000_0000_0000) by {
            reveal_with_fuel(sixteen_to, 33);
        }
        assert forall|i: int| 0 <= i < 32 implies is_digit_for(
            #[trigger] s[i],
            (hex_value(s) / pow(16, (31 - i) as nat)) % 16,
        ) by {
            lemma_hex_value_has_its_digits(s, i);
        }
    }
}

/// A text of thirty-six characters is an identifier exactly if four of them are
/// hyphens in their places and the others are one.
pub proof fn law_hyphens_group_the_digits(s: Seq<char>)
    requires
        s.len() == 36,
    ensures
        guid_in(s) == if s[8] == '-' && s[13] == '-' && s[18] == '-' && s[23] == '-' {
            guid_in(
                s.remove(23).remove(18).remove(13).remove(8),
            )
        } else {
            None
        },
{
    assert(s.remove(23).remove(18).remove(13).remove(8) =~= without_hyphens(s));
}

/// Braces around, or `urn:uuid:` in front of, a hyphenated identifier change
/// nothing, and no other text is an identifier.
pub proof fn law_wrapped_text_is_the_same(s: Seq<char>)
    requires
        s.len() != 32,
        s.len() != 36,
    ensures
        s.len() != 38 && s.len() != 45 ==> guid_in(s) is None,
        s.len() == 38 ==> guid_in(s) == if s[0] == '{' && s[37] == '}' {
            guid_in(s.drop_first().drop_last())
        } else {
            None
        },
        s.len() == 45 ==> guid_in(s) == if s[3] == ':' && s[8] == ':' && (s[0] == 'u' || s[0]
            == 'U') && (s[1] == 'r' || s[1] == 'R') && (s[2] == 'n' || s[2] == 'N') && (s[4] == 'u'
            || s[4] == 'U') && (s[5] == 'u' || s[5] == 'U') && (s[6] == 'i' || s[6] == 'I') && (s[7]
            == 'd' || s[7] == 'D') {
            guid_in(s.skip(9))
        } else {
            None
        },
{
    if s.len() == 38 {
        assert(s.subrange(1, 37) =~= s.drop_first().drop_last());
    }
    if s.len() == 45 {
        let start = s.take(9);
        let lower = start.map_values(|c: char| ascii_lower(c));
        let urn = seq!['u', 'r', 'n', ':', 'u', 'u', 'i', 'd', ':'];
        assert forall|i: int| 0 <= i < 9 implies #[trigger] lower[i] == ascii_lower(s[i]) by {
            assert(lower[i] == ascii_lower(start[i]));
        }
        if forall|i: int| 0 <= i < 9 ==> lower[i] == urn[i] {
            assert(lower =~= urn);
        }
        assert(is_urn_prefix(start) == (lower == urn));
        assert(lower[0] == ascii_lower(s[0]) && lower[1] == ascii_lower(s[1]) && lower[2]
            == ascii_lower(s[2]) && lower[3] == ascii_lower(s[3]) && lower[4] == ascii_lower(s[4])
            && lower[5] == ascii_lower(s[5]) && lower[6] == ascii_lower(s[6]) && lower[7]
            == ascii_lower(s[7]) && lower[8] == ascii_lower(s[8]));
    }
}

/// An identifier is written in thirty-six characters: hyphens in four places, and
/// hexadecimal digits in lower case, from the highest to the lowest, in the
/// others.
pub proof fn law_written_identifier_has_the_digits(guid: u128)
    ensures
        guid_text(guid).len() == 36,
        forall|i: int|
            0 <= i < 36 ==> {
                let c = #[trigger] guid_text(guid)[i];
                if i == 8 || i == 13 || i == 18 || i == 23 {
                    c == '-'
                } else {
                    '0' <= c <= '9' || 'a' <= c <= 'f'
                }
            },
        forall|i: int|
            0 <= i < 32 ==> is_digit_for(
                #[trigger] guid_text(guid).remove(23).remove(18).remove(13).remove(8)[i],
                (guid as int / pow(16, (31 - i) as nat)) % 16,
            ),
{
    lemma_guid_digits(guid);
    let digits = hex_text(guid as nat, 32);
    let text = guid_text(guid);
    lemma_hex_text_is_lower(guid as nat, 32);
    assert forall|i: int| 0 <= i < 36 implies {
        let c = #[trigger] text[i];
        if i == 8 || i == 13 || i == 18 || i == 23 {
            c == '-'
        } else {
            '0' <= c <= '9' || 'a' <= c <= 'f'
        }
    } by {
        let k = if i < 8 { i } else if i < 13 { i - 1 } else if i < 18 { i - 2 } else if i < 23 {
            i - 3
        } else {
            i - 4
        };
        assert(i == 8 || i == 13 || i == 18 || i == 23 || text[i] == digits[k]);
    }
    assert(text.remove(23).remove(18).remove(13).remove(8) =~= digits);
    assert(hex_value(digits) == guid);
    assert forall|i: int| 0 <= i < 32 implies is_digit_for(
        #[trigger] digits[i],
        (guid as int / pow(16, (31 - i) as nat)) % 16,
    ) by {
        lemma_hex_value_has_its_digits(digits, i);
    }
}

proof fn lemma_hex_text_is_lower(n: nat, len: nat)
    ensures
        hex_text(n, len).len() == len,
        forall|i: int|
            0 <= i < len ==> '0' <= #[trigger] hex_text(n, len)[i] <= '9' || 'a' <= hex_text(
                n,
                len,
            )[i] <= 'f',
    decreases len,
{
    if len > 0 {
        let shorter = hex_text(n / 16, (len - 1) as nat);
        lemma_hex_text_is_lower(n / 16, (len - 1) as nat);
        assert(hex_text(n, len) =~= shorter.push(hex_digit(n % 16)));
    }
}

} // verus!
