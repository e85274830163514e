//! Parsing of command-line dimension pairs such as `600x600`.

use vstd::prelude::*;
use vstd::string::StrSliceExecFns;

verus! {

/// A decimal digit.
pub open spec fn is_digit(c: char) -> bool {
    48 <= c as u32 <= 57
}

/// Numeric value of a digit character.
pub open spec fn digit_val(c: char) -> int {
    c as u32 - 48
}

/// Every character is a decimal digit.
pub open spec fn all_digits(s: Seq<char>) -> bool {
    forall|i: int| 0 <= i < s.len() ==> is_digit(#[trigger] s[i])
}

/// Value of a digit string read in base ten.
pub open spec fn digits_val(s: Seq<char>) -> int
    decreases s.len(),
{
    if s.len() == 0 {
        0
    } else {
        digits_val(s.drop_last()) * 10 + digit_val(s.last())
    }
}

/// The number an unsigned decimal numeral denotes: at least one digit,
/// nothing but digits, and a value that fits in 32 bits.
pub open spec fn parse_u32_spec(s: Seq<char>) -> Option<u32> {
    if s.len() > 0 && all_digits(s) && digits_val(s) <= u32::MAX {
        Some(digits_val(s) as u32)
    } else {
        None
    }
}

/// A digit string's value is nonnegative.
proof fn lemma_digits_val_nonneg(s: Seq<char>)
    requires
        all_digits(s),
    ensures
        digits_val(s) >= 0,
    decreases s.len(),
{
    if s.len() > 0 {
        assert(all_digits(s.drop_last()));
        lemma_digits_val_nonneg(s.drop_last());
    }
}

/// Reading one more digit multiplies the prefix value by ten and adds
/// the digit.
proof fn lemma_digits_val_step(s: Seq<char>, j: int)
    requires
        0 <= j < s.len(),
    ensures
        digits_val(s.take(j + 1)) == digits_val(s.take(j)) * 10 + digit_val(s[j]),
{
    assert(s.take(j + 1).drop_last() =~= s.take(j));
    assert(s.take(j + 1).last() == s[j]);
}

/// Extending a digit string never lowers its value.
proof fn lemma_digits_val_prefix(s: Seq<char>, k: int)
    requires
        all_digits(s),
        0 <= k <= s.len(),
    ensures
        digits_val(s.take(k)) <= digits_val(s),
    decreases s.len(),
{
    if k == s.len() {
        assert(s.take(k) =~= s);
    } else {
        let t = s.drop_last();
        assert(all_digits(t));
        assert(s.take(k) =~= t.take(k));
        lemma_digits_val_prefix(t, k);
        lemma_digits_val_nonneg(t);
    }
}

/// Parse the characters `[from, to)` of `s` as an unsigned decimal
/// numeral.
pub fn parse_range(s: &str, from: usize, to: usize) -> (r: Option<u32>)
    requires
        from <= to <= s@.len(),
    ensures
        r == parse_u32_spec(s@.subrange(from as int, to as int)),
{
    let ghost sub = s@.subrange(from as int, to as int);
    if from == to {
        return None;
    }
    let mut val: u32 = 0;
    let mut i: usize = from;
    while i < to
        invariant
            from <= i <= to <= s@.len(),
            sub == s@.subrange(from as int, to as int),
            forall|j: int| 0 <= j < i - from ==> is_digit(#[trigger] sub[j]),
            val == digits_val(sub.take(i - from)),
        decreases to - i,
    {
        let c = s.get_char(i);
        let cv = c as u32;
        proof {
            assert(sub[i - from] == s@[i as int]);
        }
        if cv < 48 || cv > 57 {
            return None;
        }
        let d = cv - 48;
        proof {
            lemma_digits_val_step(sub, i - from);
        }
        if val > (u32::MAX - d) / 10 {
            proof {
                assert(10 * ((u32::MAX - d) / 10) + 9 >= u32::MAX - d) by {
                    vstd::arithmetic::div_mod::lemma_fundamental_div_mod(
                        u32::MAX - d,
                        10,
                    );
                };
                assert(digits_val(sub.take(i - from + 1)) > u32::MAX);
                if all_digits(sub) {
                    lemma_digits_val_prefix(sub, i - from + 1);
                }
            }
            return None;
        }
        val = val * 10 + d;
        i = i + 1;
    }
    proof {
        assert(sub.take(to - from) =~= sub);
    }
    Some(val)
}

/// Number of occurrences of `sep` in `s`.
pub open spec fn sep_count(s: Seq<char>, sep: char) -> nat
    decreases s.len(),
{
    if s.len() == 0 {
        0
    } else {
        sep_count(s.drop_last(), sep) + if s.last() == sep {
            1nat
        } else {
            0nat
        }
    }
}

/// Index of the first occurrence of `sep` in `s` (the length if there
/// is none).
pub open spec fn sep_first(s: Seq<char>, sep: char) -> int
    decreases s.len(),
{
    if s.len() == 0 {
        0
    } else if s[0] == sep {
        0
    } else {
        1 + sep_first(s.skip(1), sep)
    }
}

/// A separator occurrence with a clean prefix is the first one.
proof fn lemma_sep_first(s: Seq<char>, sep: char, idx: int)
    requires
        0 <= idx < s.len(),
        s[idx] == sep,
        forall|j: int| 0 <= j < idx ==> s[j] != sep,
    ensures
        sep_first(s, sep) == idx,
    decreases idx,
{
    if idx > 0 {
        lemma_sep_first(s.skip(1), sep, idx - 1);
    }
}

/// The pair an input string denotes: exactly one separator, with an
/// unsigned decimal numeral on each side.
pub open spec fn parse_pair_spec(s: Seq<char>, sep: char) -> Option<(u32, u32)> {
    if sep_count(s, sep) == 1 {
        let i = sep_first(s, sep);
        match (parse_u32_spec(s.take(i)), parse_u32_spec(s.skip(i + 1))) {
            (Some(a), Some(b)) => Some((a, b)),
            _ => None,
        }
    } else {
        None
    }
}

/// Parse a string as a pair of values separated by a separator
/// character, as in `600x600`.
pub fn parse_pair(s: &str, sep: char) -> (r: Option<(u32, u32)>)
    ensures
        r == parse_pair_spec(s@, sep),
{
    let n = s.unicode_len();
    let mut count: usize = 0;
    let mut idx: usize = 0;
    let mut i: usize = 0;
    while i < n
        invariant
            i <= n == s@.len(),
            count <= i,
            count == sep_count(s@.take(i as int), sep),
            count > 0 ==> idx < i && s@[idx as int] == sep && forall|j: int|
                0 <= j < idx ==> s@[j] != sep,
            count == 0 ==> forall|j: int| 0 <= j < i ==> s@[j] != sep,
        decreases n - i,
    {
        proof {
            assert(s@.take(i + 1).drop_last() =~= s@.take(i as int));
            assert(s@.take(i + 1).last() == s@[i as int]);
        }
        if s.get_char(i) == sep {
            if count == 0 {
                idx = i;
            }
            count = count + 1;
        }
        i = i + 1;
    }
    proof {
        assert(s@.take(n as int) =~= s@);
    }
    if count != 1 {
        return None;
    }
    proof {
        lemma_sep_first(s@, sep, idx as int);
        assert(s@.subrange(0, idx as int) =~= s@.take(idx as int));
        assert(s@.subrange(idx + 1, n as int) =~= s@.skip(idx + 1));
    }
    let a = parse_range(s, 0, idx);
    let b = parse_range(s, idx + 1, n);
    match (a, b) {
        (Some(x), Some(y)) => Some((x, y)),
        _ => None,
    }
}

} // verus!
