use vstd::prelude::*;
use vstd::string::StringExecFns;

verus! {

/// Lexicographic order on character sequences, characters compared by code
/// point.
pub open spec fn chars_lt(a: Seq<char>, b: Seq<char>) -> bool
    decreases a.len(),
{
    if b.len() == 0 {
        false
    } else if a.len() == 0 {
        true
    } else if a[0] != b[0] {
        (a[0] as u32) < (b[0] as u32)
    } else {
        chars_lt(a.drop_first(), b.drop_first())
    }
}

/// No sequence comes before itself, and of two different sequences exactly
/// one comes before the other.
pub proof fn lemma_chars_lt_trichotomy(a: Seq<char>, b: Seq<char>)
    ensures
        a == b ==> !chars_lt(a, b),
        a != b ==> chars_lt(a, b) != chars_lt(b, a),
    decreases a.len(),
{
    if a.len() == 0 || b.len() == 0 {
        if a.len() == 0 && b.len() == 0 {
            assert(a =~= b);
        }
    } else if a[0] != b[0] {
        if (a[0] as u32) == (b[0] as u32) {
            vstd::utf8::char_u32_cast(a[0], a[0] as u32);
            vstd::utf8::char_u32_cast(b[0], b[0] as u32);
        }
    } else {
        lemma_chars_lt_trichotomy(a.drop_first(), b.drop_first());
        if a.drop_first() == b.drop_first() {
            assert(a =~= b) by {
                assert forall|k: int| 0 <= k < a.len() implies a[k] == b[k] by {
                    if k > 0 {
                        assert(a[k] == a.drop_first()[k - 1]);
                        assert(b[k] == b.drop_first()[k - 1]);
                    }
                }
            }
        }
    }
}

/// The order on character sequences is transitive.
pub proof fn lemma_chars_lt_transitive(a: Seq<char>, b: Seq<char>, c: Seq<char>)
    requires
        chars_lt(a, b),
        chars_lt(b, c),
    ensures
        chars_lt(a, c),
    decreases a.len(),
{
    if a.len() > 0 && b.len() > 0 && c.len() > 0 {
        vstd::utf8::char_u32_cast(a[0], a[0] as u32);
        vstd::utf8::char_u32_cast(b[0], b[0] as u32);
        vstd::utf8::char_u32_cast(c[0], c[0] as u32);
        if a[0] == b[0] && b[0] == c[0] {
            lemma_chars_lt_transitive(a.drop_first(), b.drop_first(), c.drop_first());
        }
    }
}

/// Bytes that the UTF-8 encoding of one character takes.
pub open spec fn utf8_width(c: char) -> nat {
    let u = c as u32;
    if u < 0x80 {
        1
    } else if u < 0x800 {
        2
    } else if u < 0x10000 {
        3
    } else {
        4
    }
}

/// Bytes that the UTF-8 encoding of a character sequence takes.
pub open spec fn utf8_len(s: Seq<char>) -> nat
    decreases s.len(),
{
    if s.len() == 0 {
        0
    } else {
        utf8_width(s[0]) + utf8_len(s.drop_first())
    }
}

/// The lowercase form of a string, as `str::to_lowercase` computes it.
pub uninterp spec fn lowercase(s: Seq<char>) -> Seq<char>;

/// `std`'s `<str as PartialOrd>::lt`. Its documentation states that strings
/// are ordered lexicographically by their bytes, which orders code points
/// by their value; the contract states that order over characters.
#[verifier::external_body]
pub(crate) fn str_lt(a: &str, b: &str) -> (res: bool)
    ensures
        res == chars_lt(a@, b@),
{
    a < b
}

/// `std`'s `str::len`, the byte length of the UTF-8 encoding.
#[verifier::external_body]
pub(crate) fn str_byte_len(s: &str) -> (res: usize)
    ensures
        res == utf8_len(s@),
{
    s.len()
}

/// `std`'s `str::to_lowercase`; its result is named by `lowercase`.
#[verifier::external_body]
pub(crate) fn to_lowercase(s: &str) -> (res: String)
    ensures
        res@ == lowercase(s@),
{
    s.to_lowercase()
}

} // verus!

verus! {

/// `a`, then `sep`, then `b`.
pub fn concat3(a: &str, sep: &str, b: &str) -> (res: String)
    ensures
        res@ == a@ + sep@ + b@,
{
    let mut res = a.to_owned();
    res.append(sep);
    res.append(b);
    res
}

} // verus!

verus! {

/// `std`'s `<str as PartialEq>::eq`: equal exactly when the characters are.
#[verifier::external_body]
pub(crate) fn str_eq(a: &str, b: &str) -> (res: bool)
    ensures
        res == (a@ == b@),
{
    a == b
}

/// `str::starts_with` with a string pattern: whether `s` begins with the
/// characters of `prefix` (a byte prefix of UTF-8 text that is itself text
/// is a prefix of characters).
#[verifier::external_body]
pub(crate) fn str_starts_with(s: &str, prefix: &str) -> (res: bool)
    ensures
        res == (prefix@.len() <= s@.len() && s@.subrange(0, prefix@.len() as int) == prefix@),
{
    s.starts_with(prefix)
}

/// The character of a decimal digit.
pub open spec fn digit_char(d: nat) -> char {
    ((d + 48) as u32) as char
}

/// The decimal representation of `n`: its digits, most significant first,
/// without leading zeros.
pub open spec fn decimal(n: nat) -> Seq<char>
    decreases n,
{
    if n < 10 {
        seq![digit_char(n)]
    } else {
        decimal(n / 10).push(digit_char(n % 10))
    }
}

/// `<usize as ToString>::to_string`, which `Display` for integers defines as
/// the decimal representation.
#[verifier::external_body]
pub(crate) fn usize_to_string(n: usize) -> (res: String)
    ensures
        res@ == decimal(n as nat),
{
    n.to_string()
}

/// The decimal representation of an integer, with a minus sign when it is
/// negative.
pub open spec fn signed_decimal(i: int) -> Seq<char> {
    if i < 0 {
        seq!['-'] + decimal((-i) as nat)
    } else {
        decimal(i as nat)
    }
}

/// `<i64 as ToString>::to_string`, which `Display` for integers defines as
/// the decimal representation, with a minus sign for negative values.
#[verifier::external_body]
pub(crate) fn i64_to_string(n: i64) -> (res: String)
    ensures
        res@ == signed_decimal(n as int),
{
    n.to_string()
}

/// The text without its trailing newlines.
pub open spec fn trim_newlines(s: Seq<char>) -> Seq<char>
    decreases s.len(),
{
    if s.len() > 0 && s.last() == '\n' {
        trim_newlines(s.drop_last())
    } else {
        s
    }
}

/// `str::trim_end_matches` with the pattern `'\n'`: the text without its
/// trailing newlines.
#[verifier::external_body]
pub(crate) fn trim_trailing_newlines(s: &str) -> (res: String)
    ensures
        res@ == trim_newlines(s@),
{
    s.trim_end_matches('\n').to_string()
}

} // verus!
