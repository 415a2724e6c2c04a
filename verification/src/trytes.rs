//! The textual grammars of the input files: ternary address strings
//! (trytes) and decimal numbers.

use vstd::prelude::*;
use vstd::string::StrSliceExecFns;

verus! {

/// Number of trytes in a ternary address or seed, checksum excluded.
pub const ADDRESS_TRYTES: usize = 81;

/// A tryte is written as one of the characters `9` or `A` to `Z`.
pub open spec fn is_tryte_char(c: char) -> bool {
    c == '9' || ('A' <= c && c <= 'Z')
}

/// Every character of `s` is a tryte character.
pub open spec fn is_trytes(s: Seq<char>) -> bool {
    forall|i: int| 0 <= i < s.len() ==> is_tryte_char(#[trigger] s[i])
}

/// Checks that `s` consists of tryte characters only.
pub fn check_trytes(s: &str) -> (b: bool)
    ensures
        b == is_trytes(s@),
{
    let n = s.unicode_len();
    let mut i: usize = 0;
    while i < n
        invariant
            0 <= i <= n == s@.len(),
            forall|k: int| 0 <= k < i ==> is_tryte_char(#[trigger] s@[k]),
        decreases n - i,
    {
        let c = s.get_char(i);
        if !(c == '9' || ('A' <= c && c <= 'Z')) {
            return false;
        }
        i = i + 1;
    }
    true
}

/// A decimal digit.
pub open spec fn is_digit(c: char) -> bool {
    '0' <= c && c <= '9'
}

/// Numeric value of a digit character.
pub open spec fn digit_val(c: char) -> int {
    c as int - '0' as int
}

/// Every character of `s` is a decimal digit.
pub open spec fn all_digits(s: Seq<char>) -> bool {
    forall|i: int| 0 <= i < s.len() ==> is_digit(#[trigger] s[i])
}

/// Value of a digit string read in base ten.
pub open spec fn digits_val(s: Seq<char>) -> int
    decreases s.len(),
{
    if s.len() == 0 {
        0
    } else {
        digits_val(s.drop_last()) * 10 + digit_val(s.last())
    }
}

/// What a non-negative decimal token denotes as a machine word: its value,
/// if the token is non-empty, all digits, and the value fits in `usize`.
pub open spec fn spec_parse_number(s: Seq<char>) -> Option<int> {
    if s.len() > 0 && all_digits(s) && digits_val(s) <= usize::MAX {
        Some(digits_val(s))
    } else {
        None
    }
}

proof fn lemma_digits_val_nonneg(s: Seq<char>)
    requires
        all_digits(s),
    ensures
        digits_val(s) >= 0,
    decreases s.len(),
{
    if s.len() > 0 {
        assert(is_digit(s.last()));
        assert(all_digits(s.drop_last())) by {
            assert(forall|i: int| 0 <= i < s.len() - 1 ==> s.drop_last()[i] == #[trigger] s[i]);
        }
        lemma_digits_val_nonneg(s.drop_last());
    }
}

/// A longer digit string denotes at least as much as any of its prefixes.
proof fn lemma_digits_val_prefix(s: Seq<char>, i: int)
    requires
        all_digits(s),
        0 <= i <= s.len(),
    ensures
        digits_val(s.take(i)) <= digits_val(s),
    decreases s.len() - i,
{
    if i < s.len() {
        lemma_digits_val_prefix(s, i + 1);
        let t = s.take(i + 1);
        assert(all_digits(t)) by {
            assert(forall|k: int| 0 <= k < t.len() ==> t[k] == #[trigger] s[k]);
        }
        assert(t.drop_last() =~= s.take(i));
        assert(digits_val(t) == digits_val(s.take(i)) * 10 + digit_val(t.last()));
        assert(all_digits(s.take(i))) by {
            assert(forall|k: int| 0 <= k < i ==> s.take(i)[k] == #[trigger] s[k]);
        }
        lemma_digits_val_nonneg(s.take(i));
        assert(digit_val(t.last()) >= 0);
        assert(digits_val(s.take(i)) <= digits_val(t));
    } else {
        assert(s.take(i) =~= s);
    }
}

/// Parses a decimal token; `None` exactly on tokens that are empty, hold a
/// non-digit, or denote more than `usize` can carry.
pub fn parse_number(s: &str) -> (r: Option<usize>)
    ensures
        match r {
            Some(v) => spec_parse_number(s@) == Some(v as int),
            None => spec_parse_number(s@) is None,
        },
{
    let n = s.unicode_len();
    if n == 0 {
        return None;
    }
    let mut acc: u128 = 0;
    let mut i: usize = 0;
    while i < n
        invariant
            0 <= i <= n == s@.len(),
            s@.len() > 0,
            all_digits(s@.take(i as int)),
            acc == digits_val(s@.take(i as int)),
            acc <= usize::MAX,
        decreases n - i,
    {
        let c = s.get_char(i);
        if !('0' <= c && c <= '9') {
            proof {
                assert(!is_digit(s@[i as int]));
                assert(!all_digits(s@));
            }
            return None;
        }
        let d: u128 = (c as u32 - 48) as u128;
        proof {
            assert(s@.take(i + 1).drop_last() =~= s@.take(i as int));
            assert(s@.take(i + 1).last() == s@[i as int]);
            assert(forall|k: int|
                0 <= k < i + 1 ==> s@.take(i + 1)[k] == #[trigger] s@.take(i + 1)[k]);
            assert(all_digits(s@.take(i + 1))) by {
                assert(forall|k: int| 0 <= k < i ==> s@.take(i + 1)[k] == s@.take(i as int)[k]);
                assert(forall|k: int|
                    0 <= k < i + 1 ==> is_digit(#[trigger] s@.take(i + 1)[k]));
            }
            assert(d == digit_val(s@[i as int]));
        }
        acc = acc * 10 + d;
        i = i + 1;
        if acc > usize::MAX as u128 {
            proof {
                assert(digits_val(s@.take(i as int)) > usize::MAX);
                if all_digits(s@) {
                    lemma_digits_val_prefix(s@, i as int);
                    assert(digits_val(s@) > usize::MAX);
                }
            }
            return None;
        }
    }
    proof {
        assert(s@.take(i as int) =~= s@);
    }
    Some(acc as usize)
}

} // verus!
