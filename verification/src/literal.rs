//! Reading an integer literal out of source text.

use vstd::prelude::*;
use vstd::string::*;
use crate::text::{all_digits, decimal_u64, decimal_value, is_digit, trim, trimmed};

verus! {

/// The base that the first two characters of a literal announce: sixteen
/// after `0x`, eight after `0o`, two after `0b`, and ten otherwise.
pub open spec fn radix(s: Seq<char>) -> int {
    if s.len() >= 2 && s[0] == '0' && s[1] == 'x' {
        16
    } else if s.len() >= 2 && s[0] == '0' && s[1] == 'o' {
        8
    } else if s.len() >= 2 && s[0] == '0' && s[1] == 'b' {
        2
    } else {
        10
    }
}

/// The literal without the two characters that announce its base.
pub open spec fn after_prefix(s: Seq<char>) -> Seq<char> {
    if radix(s) == 10 {
        s
    } else {
        s.skip(2)
    }
}

/// Whether `c` is a digit of the given base.
pub open spec fn is_base_digit(c: char, base: int) -> bool {
    if base == 16 {
        is_digit(c) || ('a' <= c && c <= 'f') || ('A' <= c && c <= 'F')
    } else if base == 8 {
        '0' <= c && c <= '7'
    } else if base == 2 {
        c == '0' || c == '1'
    } else {
        is_digit(c)
    }
}

/// The length of the longest prefix of `s` made of digits of the base and
/// underscores.
pub open spec fn digit_run(s: Seq<char>, base: int) -> int
    decreases s.len(),
{
    if s.len() > 0 && (is_base_digit(s[0], base) || s[0] == '_') {
        1 + digit_run(s.drop_first(), base)
    } else {
        0
    }
}

/// The twelve suffixes that name an integer type.
pub open spec fn is_integer_suffix(s: Seq<char>) -> bool {
    ||| s == "u8"@
    ||| s == "u16"@
    ||| s == "u32"@
    ||| s == "u64"@
    ||| s == "u128"@
    ||| s == "usize"@
    ||| s == "i8"@
    ||| s == "i16"@
    ||| s == "i32"@
    ||| s == "i64"@
    ||| s == "i128"@
    ||| s == "isize"@
}

/// Whether `s` has the shape of an integer literal: an optional `0x`, `0o`
/// or `0b`; then digits of that base and underscores, with at least one
/// digit, and a digit first where the base is ten; then nothing or the
/// suffix of an integer type.
pub open spec fn is_literal_word(s: Seq<char>) -> bool {
    let base = radix(s);
    let body = after_prefix(s);
    let run = digit_run(body, base);
    &&& body.len() > 0
    &&& base == 10 ==> is_digit(body[0])
    &&& exists|i: int| 0 <= i < run && is_base_digit(#[trigger] body[i], base)
    &&& run == body.len() || is_integer_suffix(body.skip(run))
}

/// Whether `s` is a decimal number written plainly: digits only, and no
/// zero before another digit.
pub open spec fn is_plain_decimal(s: Seq<char>) -> bool {
    &&& s.len() > 0
    &&& all_digits(s)
    &&& s.len() == 1 || s[0] != '0'
}

/// What `syn::LitInt::base10_digits` returns once `syn::parse_str` has
/// accepted `word` as a `syn::LitInt`, and `None` where it has not. It is
/// applied only to words that have the shape of an integer literal.
pub uninterp spec fn integer_digits(word: Seq<char>) -> Option<Seq<char>>;

/// The value of the literal `word` in base ten: a plain decimal number is
/// its own value; for any other literal it is what the parser gives.
pub open spec fn digits_of(word: Seq<char>) -> Option<Seq<char>> {
    if is_plain_decimal(word) {
        Some(word)
    } else {
        integer_digits(word)
    }
}

/// The number that `text` denotes when it is, blank space aside, an integer
/// literal whose value fits in 64 bits.
pub open spec fn integer_literal(text: Seq<char>) -> Option<u64> {
    let word = trimmed(text);
    if is_literal_word(word) {
        match digits_of(word) {
            Some(digits) => decimal_u64(digits),
            None => None,
        }
    } else {
        None
    }
}

/// Trusted: calls `syn::parse_str::<syn::LitInt>` on `word` and, where that
/// succeeds, returns what `syn::LitInt::base10_digits` gives for the literal.
/// The contract claims that a plain decimal number comes back as it is, and
/// of any other literal only that the outcome is determined by the text.
/// The precondition keeps the text to the shape of an integer literal, on
/// which the parser returns a literal or an error.
#[verifier::external_body]
pub(crate) fn read_integer(word: &str) -> (r: Option<String>)
    requires
        is_literal_word(word@),
    ensures
        is_plain_decimal(word@) ==> r is Some && r->Some_0@ == word@,
        !is_plain_decimal(word@) ==> (r is Some == integer_digits(word@) is Some),
        !is_plain_decimal(word@) && r is Some ==> r->Some_0@ == integer_digits(word@)->Some_0,
{
    match syn::parse_str::<syn::LitInt>(word) {
        Ok(literal) => Some(literal.base10_digits().to_string()),
        Err(_) => None,
    }
}

/// A run of digits and underscores of the base is as long as the text.
pub proof fn lemma_digit_run_full(s: Seq<char>, base: int)
    requires
        forall|i: int| 0 <= i < s.len() ==> is_base_digit(#[trigger] s[i], base) || s[i] == '_',
    ensures
        digit_run(s, base) == s.len(),
    decreases s.len(),
{
    if s.len() > 0 {
        let rest = s.drop_first();
        assert forall|i: int| 0 <= i < rest.len() implies is_base_digit(#[trigger] rest[i], base)
            || rest[i] == '_' by {
            assert(rest[i] == s[i + 1]);
        }
        lemma_digit_run_full(rest, base);
    }
}

/// A plain decimal number has the shape of an integer literal.
pub proof fn lemma_plain_decimal_is_literal(s: Seq<char>)
    requires
        is_plain_decimal(s),
    ensures
        is_literal_word(s),
{
    assert(is_digit(s[0]));
    if s.len() >= 2 {
        assert(is_digit(s[1]));
    }
    assert(radix(s) == 10);
    lemma_digit_run_full(s, 10);
    assert(is_base_digit(s[0], 10));
}

/// Text that is, blank space aside, a plain decimal number denotes the value
/// of its digits, whatever the parser does with other literals.
pub proof fn lemma_plain_decimal_value(text: Seq<char>)
    requires
        is_plain_decimal(trimmed(text)),
    ensures
        integer_literal(text) == decimal_u64(trimmed(text)),
{
    lemma_plain_decimal_is_literal(trimmed(text));
}

/// Whether `c` is a digit of the base, which is 2, 8, 10 or 16.
pub fn is_digit_of_base(c: char, base: u8) -> (r: bool)
    ensures
        r == is_base_digit(c, base as int),
{
    if base == 16 {
        (c >= '0' && c <= '9') || (c >= 'a' && c <= 'f') || (c >= 'A' && c <= 'F')
    } else if base == 8 {
        c >= '0' && c <= '7'
    } else if base == 2 {
        c == '0' || c == '1'
    } else {
        c >= '0' && c <= '9'
    }
}

/// Whether `s` is the suffix of an integer type.
pub fn is_suffix(s: &str) -> (r: bool)
    ensures
        r == is_integer_suffix(s@),
{
    let t = String::from_str(s);
    t == String::from_str("u8") || t == String::from_str("u16") || t == String::from_str("u32")
        || t == String::from_str("u64") || t == String::from_str("u128") || t == String::from_str(
        "usize",
    ) || t == String::from_str("i8") || t == String::from_str("i16") || t == String::from_str(
        "i32",
    ) || t == String::from_str("i64") || t == String::from_str("i128") || t == String::from_str(
        "isize",
    )
}

/// Whether `s` has the shape of an integer literal.
pub fn is_word(s: &str) -> (r: bool)
    ensures
        r == is_literal_word(s@),
{
    let n: usize = s.unicode_len();
    let mut base: u8 = 10;
    let mut start: usize = 0;
    if n >= 2 && s.get_char(0) == '0' {
        let mark: char = s.get_char(1);
        if mark == 'x' {
            base = 16;
            start = 2;
        } else if mark == 'o' {
            base = 8;
            start = 2;
        } else if mark == 'b' {
            base = 2;
            start = 2;
        }
    }
    let ghost body = after_prefix(s@);
    proof {
        assert(body =~= s@.subrange(start as int, n as int));
    }
    if start == n {
        return false;
    }
    if base == 10 && !is_digit_of_base(s.get_char(0), 10) {
        return false;
    }
    let mut k: usize = start;
    let mut seen: bool = false;
    let ghost mut witness: int = 0;
    while k < n && (is_digit_of_base(s.get_char(k), base) || s.get_char(k) == '_')
        invariant
            start <= k <= n,
            n == s@.len(),
            base as int == radix(s@),
            body == s@.subrange(start as int, n as int),
            digit_run(body, base as int) == (k - start) + digit_run(
                s@.subrange(k as int, n as int),
                base as int,
            ),
            seen ==> 0 <= witness < k - start && is_base_digit(body[witness], base as int),
            !seen ==> forall|i: int| 0 <= i < k - start ==> !is_base_digit(
                #[trigger] body[i],
                base as int,
            ),
        decreases n - k,
    {
        proof {
            assert(s@.subrange(k as int, n as int).drop_first() =~= s@.subrange(
                k as int + 1,
                n as int,
            ));
            assert(body[k - start] == s@[k as int]);
        }
        if is_digit_of_base(s.get_char(k), base) {
            if !seen {
                proof {
                    witness = k - start;
                }
            }
            seen = true;
        }
        k = k + 1;
    }
    let ghost run = digit_run(body, base as int);
    proof {
        assert(run == k - start);
        assert(body.skip(run) =~= s@.subrange(k as int, n as int));
    }
    if !seen {
        return false;
    }
    if k == n {
        return true;
    }
    is_suffix(s.substring_char(k, n))
}

/// Reads `text` as an integer literal, in any notation of the language, and
/// returns its value.
pub fn parse_integer(text: &str) -> (r: Option<u64>)
    ensures
        r == integer_literal(text@),
{
    let word = trim(text);
    if !is_word(word) {
        return None;
    }
    match read_integer(word) {
        Some(digits) => decimal_value(digits.as_str()),
        None => None,
    }
}

} // verus!
