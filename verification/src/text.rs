//! Character-level utilities: ASCII case folding and decimal parsing of
//! unsigned identifiers.

use vstd::prelude::*;

verus! {

/// ASCII lower-casing of a single character; anything outside `A`..`Z` is
/// returned unchanged. Command names are matched case-insensitively through
/// this folding.
pub open spec fn lower_char(c: char) -> char {
    if 'A' <= c && c <= 'Z' {
        ((c as u8) + 32) as char
    } else {
        c
    }
}

/// ASCII lower-casing of a character sequence, element by element.
pub open spec fn lower_seq(s: Seq<char>) -> Seq<char> {
    s.map_values(|c: char| lower_char(c))
}

/// Lower-cases one character.
pub fn lower_char_exec(c: char) -> (r: char)
    ensures
        r == lower_char(c),
{
    if 'A' <= c && c <= 'Z' {
        ((c as u8) + 32) as char
    } else {
        c
    }
}

/// Relies on `String::push`: appends exactly the given character at the end.
#[verifier::external_body]
pub fn push_char(s: &mut String, c: char)
    ensures
        final(s)@ == old(s)@.push(c),
{
    s.push(c)
}

/// Lower-cases a string, character by character.
pub fn lower_string(s: &str) -> (r: String)
    ensures
        r@ == lower_seq(s@),
{
    let n = s.unicode_len();
    let mut r = String::new();
    let mut i: usize = 0;
    while i < n
        invariant
            n == s@.len(),
            0 <= i <= n,
            r@ == lower_seq(s@.take(i as int)),
        decreases n - i,
    {
        let c = s.get_char(i);
        push_char(&mut r, lower_char_exec(c));
        proof {
            assert(lower_seq(s@.take(i as int + 1)) =~= lower_seq(s@.take(i as int)).push(
                lower_char(s@[i as int]),
            ));
        }
        i = i + 1;
    }
    proof {
        assert(s@.take(i as int) =~= s@);
    }
    r
}

/// Whether `c` is a decimal digit.
pub open spec fn is_digit(c: char) -> bool {
    '0' <= c && c <= '9'
}

/// The numeric value of a digit character.
pub open spec fn digit_val(c: char) -> int {
    c as int - '0' as int
}

/// Whether every character of `s` is a decimal digit.
pub open spec fn all_digits(s: Seq<char>) -> bool {
    forall|i: int| 0 <= i < s.len() ==> is_digit(#[trigger] s[i])
}

/// The value denoted by a digit sequence, most significant digit first.
pub open spec fn digits_value(s: Seq<char>) -> int
    decreases s.len(),
{
    if s.len() == 0 {
        0
    } else {
        digits_value(s.drop_last()) * 10 + digit_val(s.last())
    }
}

/// What parsing a decimal `u64` yields: a value exactly when the input is a
/// nonempty run of digits whose value fits in a `u64`.
pub open spec fn spec_parse_u64(s: Seq<char>) -> Option<u64> {
    if s.len() > 0 && all_digits(s) && digits_value(s) <= u64::MAX {
        Some(digits_value(s) as u64)
    } else {
        None
    }
}

proof fn lemma_digits_value_nonneg(s: Seq<char>)
    requires
        all_digits(s),
    ensures
        digits_value(s) >= 0,
    decreases s.len(),
{
    if s.len() > 0 {
        assert(all_digits(s.drop_last())) by {
            assert(forall|i: int|
                0 <= i < s.drop_last().len() ==> #[trigger] s.drop_last()[i] == s[i]);
        }
        lemma_digits_value_nonneg(s.drop_last());
    }
}

proof fn lemma_digits_value_grows(s: Seq<char>, i: int)
    requires
        all_digits(s),
        0 <= i <= s.len(),
    ensures
        digits_value(s.take(i)) <= digits_value(s),
    decreases s.len() - i,
{
    if i < s.len() {
        let t = s.take(i + 1);
        assert(t.drop_last() =~= s.take(i));
        assert(all_digits(t)) by {
            assert(forall|j: int| 0 <= j < t.len() ==> #[trigger] t[j] == s[j]);
        }
        assert(all_digits(s.take(i))) by {
            assert(forall|j: int|
                0 <= j < s.take(i).len() ==> #[trigger] s.take(i)[j] == s[j]);
        }
        lemma_digits_value_nonneg(s.take(i));
        assert(digits_value(t) == digits_value(s.take(i)) * 10 + digit_val(t.last()));
        assert(digits_value(s.take(i)) * 10 >= digits_value(s.take(i))) by (nonlinear_arith)
            requires
                digits_value(s.take(i)) >= 0,
        ;
        assert(digit_val(t.last()) >= 0);
        lemma_digits_value_grows(s, i + 1);
    } else {
        assert(s.take(i) =~= s);
    }
}

/// Parses a nonempty all-digit string as a `u64`; returns `None` on any
/// non-digit, on empty input, and on overflow.
pub fn parse_u64(s: &str) -> (r: Option<u64>)
    ensures
        r == spec_parse_u64(s@),
{
    let n = s.unicode_len();
    if n == 0 {
        return None;
    }
    let mut acc: u64 = 0;
    let mut i: usize = 0;
    while i < n
        invariant
            0 < n == s@.len(),
            0 <= i <= n,
            all_digits(s@.take(i as int)),
            acc == digits_value(s@.take(i as int)),
        decreases n - i,
    {
        let c = s.get_char(i);
        let v = c as u32;
        if !(v >= 48 && v <= 57) {
            assert(!is_digit(s@[i as int]));
            return None;
        }
        let d: u64 = (v - 48) as u64;
        let shifted = match acc.checked_mul(10) {
            Some(x) => x,
            None => {
                proof {
                    assert(digits_value(s@.take(i as int + 1)) > u64::MAX) by {
                        assert(s@.take(i as int + 1).drop_last() =~= s@.take(i as int));
                        assert(digits_value(s@.take(i as int + 1)) == acc * 10 + digit_val(
                            s@[i as int],
                        ));
                    }
                    assert(all_digits(s@.take(i as int + 1))) by {
                        assert(forall|j: int|
                            0 <= j < s@.take(i as int + 1).len() ==> #[trigger] s@.take(
                                i as int + 1,
                            )[j] == s@[j]);
                    }
                    if all_digits(s@) {
                        lemma_digits_value_grows(s@, i as int + 1);
                    }
                }
                return None;
            },
        };
        let next = match shifted.checked_add(d) {
            Some(x) => x,
            None => {
                proof {
                    assert(digits_value(s@.take(i as int + 1)) > u64::MAX) by {
                        assert(s@.take(i as int + 1).drop_last() =~= s@.take(i as int));
                        assert(digits_value(s@.take(i as int + 1)) == acc * 10 + digit_val(
                            s@[i as int],
                        ));
                    }
                    assert(all_digits(s@.take(i as int + 1))) by {
                        assert(forall|j: int|
                            0 <= j < s@.take(i as int + 1).len() ==> #[trigger] s@.take(
                                i as int + 1,
                            )[j] == s@[j]);
                    }
                    if all_digits(s@) {
                        lemma_digits_value_grows(s@, i as int + 1);
                    }
                }
                return None;
            },
        };
        proof {
            assert(s@.take(i as int + 1).drop_last() =~= s@.take(i as int));
            assert(all_digits(s@.take(i as int + 1))) by {
                assert(forall|j: int|
                    0 <= j < s@.take(i as int + 1).len() ==> #[trigger] s@.take(i as int + 1)[j]
                        == s@[j]);
            }
        }
        acc = next;
        i = i + 1;
    }
    proof {
        assert(s@.take(i as int) =~= s@);
    }
    Some(acc)
}

/// Lower-casing a sequence twice equals lower-casing it once.
pub proof fn lemma_lower_seq_idempotent(s: Seq<char>)
    ensures
        lower_seq(lower_seq(s)) == lower_seq(s),
{
    assert(lower_seq(lower_seq(s)) =~= lower_seq(s)) by {
        assert(forall|i: int|
            0 <= i < s.len() ==> #[trigger] lower_seq(lower_seq(s))[i] == lower_char(
                lower_char(s[i]),
            ));
        assert(forall|i: int|
            0 <= i < s.len() ==> lower_char(lower_char(#[trigger] s[i])) == lower_char(s[i]));
    }
}

/// Whether `p` is a prefix of `s`.
pub open spec fn starts_with_seq(s: Seq<char>, p: Seq<char>) -> bool {
    s.len() >= p.len() && s.subrange(0, p.len() as int) == p
}

/// Whether the string starts with the given prefix, character by character.
pub fn str_starts_with(s: &str, p: &str) -> (r: bool)
    ensures
        r == starts_with_seq(s@, p@),
{
    let n = s.unicode_len();
    let m = p.unicode_len();
    if n < m {
        return false;
    }
    let mut i: usize = 0;
    while i < m
        invariant
            0 <= i <= m == p@.len(),
            m <= n == s@.len(),
            forall|j: int| 0 <= j < i ==> s@[j] == p@[j],
        decreases m - i,
    {
        if s.get_char(i) != p.get_char(i) {
            assert(s@.subrange(0, p@.len() as int)[i as int] != p@[i as int]);
            return false;
        }
        i = i + 1;
    }
    proof {
        assert(s@.subrange(0, p@.len() as int) =~= p@);
    }
    true
}

/// Finds the first index whose entry equals `name`, if any.
pub fn find_string(names: &Vec<String>, name: &String) -> (r: Option<usize>)
    ensures
        match r {
            Some(j) => j < names.deep_view().len() && names.deep_view()[j as int] == name@,
            None => !names.deep_view().contains(name@),
        },
{
    let mut j: usize = 0;
    while j < names.len()
        invariant
            0 <= j <= names@.len(),
            forall|k: int| 0 <= k < j ==> #[trigger] names.deep_view()[k] != name@,
        decreases names@.len() - j,
    {
        if names[j] == *name {
            proof {
                assert(names.deep_view()[j as int] == name@);
            }
            return Some(j);
        }
        proof {
            assert(names.deep_view()[j as int] != name@);
        }
        j = j + 1;
    }
    None
}

} // verus!
