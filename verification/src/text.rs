//! Small verified helpers over strings, used throughout the crate.

use vstd::prelude::*;

verus! {

use vstd::string::StrSliceExecFns;
use vstd::string::StringExecFns;

/// True iff the two string slices hold the same characters.
pub fn str_eq(a: &str, b: &str) -> (r: bool)
    ensures
        r == (a@ == b@),
{
    let alen = a.unicode_len();
    let blen = b.unicode_len();
    if alen != blen {
        proof {
            if a@ == b@ {
                assert(a@.len() == b@.len());
            }
        }
        return false;
    }
    let mut i: usize = 0;
    while i < alen
        invariant
            0 <= i <= alen,
            alen == a@.len(),
            blen == b@.len(),
            alen == blen,
            forall|j: int| 0 <= j < i ==> a@[j] == b@[j],
        decreases alen - i,
    {
        if a.get_char(i) != b.get_char(i) {
            return false;
        }
        i += 1;
    }
    proof {
        assert(a@ =~= b@);
    }
    true
}

/// True iff `s` ends with the characters of `suffix`.
pub open spec fn spec_ends_with(s: Seq<char>, suffix: Seq<char>) -> bool {
    suffix.len() <= s.len() && s.skip(s.len() - suffix.len()) == suffix
}

/// True iff `s` ends with `suffix`.
pub fn str_ends_with(s: &str, suffix: &str) -> (r: bool)
    ensures
        r == spec_ends_with(s@, suffix@),
{
    let slen = s.unicode_len();
    let xlen = suffix.unicode_len();
    if xlen > slen {
        return false;
    }
    let mut i: usize = 0;
    while i < xlen
        invariant
            0 <= i <= xlen,
            slen == s@.len(),
            xlen == suffix@.len(),
            xlen <= slen,
            forall|j: int| 0 <= j < i ==> s@[s@.len() - suffix@.len() + j] == suffix@[j],
        decreases xlen - i,
    {
        if s.get_char(slen - xlen + i) != suffix.get_char(i) {
            proof {
                assert(s@.skip(s@.len() - suffix@.len())[i as int] != suffix@[i as int]);
            }
            return false;
        }
        i += 1;
    }
    proof {
        assert(s@.skip(s@.len() - suffix@.len()) =~= suffix@);
    }
    true
}

/// Index of the first occurrence of `c` in `s`, if any.
pub open spec fn spec_find_char(s: Seq<char>, c: char) -> Option<int>
    decreases s.len(),
{
    if s.len() == 0 {
        Option::None
    } else if s[0] == c {
        Option::Some(0)
    } else {
        match spec_find_char(s.skip(1), c) {
            Option::Some(i) => Option::Some(i + 1),
            Option::None => Option::None,
        }
    }
}

/// The result of `spec_find_char` is an in-range index of `c`, with no
/// occurrence before it; `None` means `c` does not occur at all.
pub proof fn lemma_find_char(s: Seq<char>, c: char)
    ensures
        match spec_find_char(s, c) {
            Option::Some(i) => 0 <= i < s.len() && s[i] == c && forall|j: int|
                0 <= j < i ==> s[j] != c,
            Option::None => forall|j: int| 0 <= j < s.len() ==> s[j] != c,
        },
    decreases s.len(),
{
    if s.len() > 0 && s[0] != c {
        lemma_find_char(s.skip(1), c);
        assert forall|j: int| 1 <= j < s.len() implies s.skip(1)[j - 1] == s[j] by {}
    }
}

/// Index of the first occurrence of `c` in `s`, if any.
pub fn find_char(s: &str, c: char) -> (r: Option<usize>)
    ensures
        match r {
            Option::Some(i) => spec_find_char(s@, c) == Option::Some(i as int),
            Option::None => spec_find_char(s@, c) is None,
        },
{
    let len = s.unicode_len();
    let mut i: usize = 0;
    while i < len
        invariant
            0 <= i <= len,
            len == s@.len(),
            forall|j: int| 0 <= j < i ==> s@[j] != c,
        decreases len - i,
    {
        if s.get_char(i) == c {
            proof {
                lemma_find_char(s@, c);
                match spec_find_char(s@, c) {
                    Option::Some(k) => {
                        assert(!(k < i) && !(i < k));
                    },
                    Option::None => {},
                }
            }
            return Some(i);
        }
        i += 1;
    }
    proof {
        lemma_find_char(s@, c);
        match spec_find_char(s@, c) {
            Option::Some(k) => {
                assert(s@[k] == c);
            },
            Option::None => {},
        }
    }
    None
}

/// Index of the last occurrence of `c` in `s`, if any.
pub open spec fn spec_rfind_char(s: Seq<char>, c: char) -> Option<int>
    decreases s.len(),
{
    if s.len() == 0 {
        Option::None
    } else if s.last() == c {
        Option::Some(s.len() - 1)
    } else {
        spec_rfind_char(s.drop_last(), c)
    }
}

/// The result of `spec_rfind_char` is an in-range index of `c`, with no
/// occurrence after it; `None` means `c` does not occur at all.
pub proof fn lemma_rfind_char(s: Seq<char>, c: char)
    ensures
        match spec_rfind_char(s, c) {
            Option::Some(i) => 0 <= i < s.len() && s[i] == c && forall|j: int|
                i < j < s.len() ==> s[j] != c,
            Option::None => forall|j: int| 0 <= j < s.len() ==> s[j] != c,
        },
    decreases s.len(),
{
    if s.len() > 0 && s.last() != c {
        lemma_rfind_char(s.drop_last(), c);
        assert forall|j: int| 0 <= j < s.len() - 1 implies s.drop_last()[j] == s[j] by {}
    }
}

/// Index of the last occurrence of `c` in `s`, if any.
pub fn rfind_char(s: &str, c: char) -> (r: Option<usize>)
    ensures
        match r {
            Option::Some(i) => spec_rfind_char(s@, c) == Option::Some(i as int),
            Option::None => spec_rfind_char(s@, c) is None,
        },
{
    let len = s.unicode_len();
    let mut i: usize = len;
    while i > 0
        invariant
            0 <= i <= len,
            len == s@.len(),
            forall|j: int| i <= j < len ==> s@[j] != c,
        decreases i,
    {
        if s.get_char(i - 1) == c {
            proof {
                lemma_rfind_char(s@, c);
                match spec_rfind_char(s@, c) {
                    Option::Some(k) => {
                        assert(!(k < i - 1) && !(i - 1 < k));
                    },
                    Option::None => {
                        assert(s@[i - 1] == c);
                    },
                }
            }
            return Some(i - 1);
        }
        i -= 1;
    }
    proof {
        lemma_rfind_char(s@, c);
        match spec_rfind_char(s@, c) {
            Option::Some(k) => {
                assert(s@[k] == c);
            },
            Option::None => {},
        }
    }
    None
}

/// Index of the first position where `pat` occurs as a substring of `s`,
/// if any.
pub open spec fn spec_find_str(s: Seq<char>, pat: Seq<char>) -> Option<int>
    decreases s.len(),
{
    if pat.len() > s.len() {
        Option::None
    } else if s.take(pat.len() as int) == pat {
        Option::Some(0)
    } else if s.len() == 0 {
        Option::None
    } else {
        match spec_find_str(s.skip(1), pat) {
            Option::Some(i) => Option::Some(i + 1),
            Option::None => Option::None,
        }
    }
}

/// The result of `spec_find_str` is an in-range position where `pat`
/// matches, with no match before it; `None` means no position matches.
pub proof fn lemma_find_str(s: Seq<char>, pat: Seq<char>)
    ensures
        match spec_find_str(s, pat) {
            Option::Some(i) => 0 <= i <= s.len() - pat.len() && s.subrange(i, i + pat.len())
                == pat && forall|j: int|
                0 <= j < i ==> #[trigger] s.subrange(j, j + pat.len()) != pat,
            Option::None => forall|j: int|
                0 <= j <= s.len() - pat.len() ==> #[trigger] s.subrange(j, j + pat.len()) != pat,
        },
    decreases s.len(),
{
    if pat.len() <= s.len() && s.take(pat.len() as int) == pat {
        assert(s.subrange(0, pat.len() as int) == s.take(pat.len() as int));
    } else if s.len() > 0 && pat.len() <= s.len() {
        lemma_find_str(s.skip(1), pat);
        assert forall|j: int| 1 <= j <= s.len() - pat.len() implies #[trigger] s.subrange(
            j,
            j + pat.len(),
        ) == s.skip(1).subrange(j - 1, j - 1 + pat.len()) by {
            assert(s.subrange(j, j + pat.len()) =~= s.skip(1).subrange(j - 1, j - 1 + pat.len()));
        }
        assert(s.subrange(0, pat.len() as int) =~= s.take(pat.len() as int));
    }
}

/// Index of the first position where `pat` occurs in `s`, if any.
pub fn find_str(s: &str, pat: &str) -> (r: Option<usize>)
    ensures
        match r {
            Option::Some(i) => spec_find_str(s@, pat@) == Option::Some(i as int),
            Option::None => spec_find_str(s@, pat@) is None,
        },
{
    let n = s.unicode_len();
    let m = pat.unicode_len();
    if m > n {
        proof {
            lemma_find_str(s@, pat@);
        }
        return None;
    }
    if m == 0 {
        proof {
            lemma_find_str(s@, pat@);
            assert(s@.take(0) =~= pat@);
            match spec_find_str(s@, pat@) {
                Option::Some(k) => {
                    if k > 0 {
                        assert(s@.subrange(0, 0int) == s@.take(0));
                    }
                },
                Option::None => {
                    assert(s@.subrange(0, 0int) =~= pat@);
                },
            }
        }
        return Some(0);
    }
    let mut i: usize = 0;
    while i <= n - m
        invariant
            0 <= i <= n - m + 1,
            n == s@.len(),
            m == pat@.len(),
            1 <= m <= n,
            forall|j: int| 0 <= j < i ==> #[trigger] s@.subrange(j, j + pat@.len()) != pat@,
        decreases n - i,
    {
        let window = s.substring_char(i, i + m);
        if str_eq(window, pat) {
            proof {
                lemma_find_str(s@, pat@);
                match spec_find_str(s@, pat@) {
                    Option::Some(k) => {
                        assert(!(k < i) && !(i < k));
                    },
                    Option::None => {
                        assert(s@.subrange(i as int, i + pat@.len()) == pat@);
                    },
                }
            }
            return Some(i);
        }
        i += 1;
    }
    proof {
        lemma_find_str(s@, pat@);
        match spec_find_str(s@, pat@) {
            Option::Some(k) => {
                assert(s@.subrange(k, k + pat@.len()) == pat@);
            },
            Option::None => {},
        }
    }
    None
}

/// Whitespace for the purposes of line trimming.
pub open spec fn spec_is_space(c: char) -> bool {
    c == ' ' || c == '\r' || c == '\t'
}

/// `s` without its leading whitespace.
pub open spec fn spec_trim_start(s: Seq<char>) -> Seq<char>
    decreases s.len(),
{
    if s.len() > 0 && spec_is_space(s[0]) {
        spec_trim_start(s.skip(1))
    } else {
        s
    }
}

/// `s` without its trailing whitespace.
pub open spec fn spec_trim_end(s: Seq<char>) -> Seq<char>
    decreases s.len(),
{
    if s.len() > 0 && spec_is_space(s.last()) {
        spec_trim_end(s.drop_last())
    } else {
        s
    }
}

/// `s` without leading and trailing whitespace.
pub open spec fn spec_trim(s: Seq<char>) -> Seq<char> {
    spec_trim_end(spec_trim_start(s))
}

/// `s` without leading and trailing spaces, carriage returns and tabs.
pub fn trim(s: &str) -> (r: String)
    ensures
        r@ == spec_trim(s@),
{
    let n = s.unicode_len();
    let mut start: usize = 0;
    proof {
        assert(s@.skip(0) =~= s@);
    }
    while start < n && is_space(s.get_char(start))
        invariant
            0 <= start <= n,
            n == s@.len(),
            spec_trim_start(s@) == spec_trim_start(s@.skip(start as int)),
        decreases n - start,
    {
        proof {
            assert(s@.skip(start as int)[0] == s@[start as int]);
            assert(s@.skip(start as int).skip(1) =~= s@.skip(start + 1));
        }
        start += 1;
    }
    proof {
        if start < n {
            assert(s@.skip(start as int)[0] == s@[start as int]);
        }
        assert(spec_trim_start(s@) == s@.skip(start as int));
    }
    let mut end: usize = n;
    proof {
        assert(s@.skip(start as int).take(n - start) =~= s@.skip(start as int));
    }
    while end > start && is_space(s.get_char(end - 1))
        invariant
            start <= end <= n,
            n == s@.len(),
            spec_trim_start(s@) == s@.skip(start as int),
            spec_trim_end(s@.skip(start as int)) == spec_trim_end(
                s@.skip(start as int).take(end - start),
            ),
        decreases end,
    {
        proof {
            let cur = s@.skip(start as int).take(end - start);
            assert(cur.last() == s@[end - 1]);
            assert(cur.drop_last() =~= s@.skip(start as int).take(end - 1 - start));
        }
        end -= 1;
    }
    proof {
        let cur = s@.skip(start as int).take(end - start);
        if end > start {
            assert(cur.last() == s@[end - 1]);
        }
        assert(spec_trim_end(s@.skip(start as int)) == cur);
        assert(s@.subrange(start as int, end as int) =~= cur);
    }
    to_string(s.substring_char(start, end))
}

/// Executable check for [`spec_is_space`].
pub fn is_space(c: char) -> (r: bool)
    ensures
        r == spec_is_space(c),
{
    c == ' ' || c == '\r' || c == '\t'
}

/// True iff `s` begins with the characters of `prefix`.
pub open spec fn spec_starts_with(s: Seq<char>, prefix: Seq<char>) -> bool {
    prefix.len() <= s.len() && s.take(prefix.len() as int) == prefix
}

/// True iff `s` begins with `prefix`.
pub fn str_starts_with(s: &str, prefix: &str) -> (r: bool)
    ensures
        r == spec_starts_with(s@, prefix@),
{
    let slen = s.unicode_len();
    let plen = prefix.unicode_len();
    if plen > slen {
        return false;
    }
    let mut i: usize = 0;
    while i < plen
        invariant
            0 <= i <= plen,
            slen == s@.len(),
            plen == prefix@.len(),
            plen <= slen,
            forall|j: int| 0 <= j < i ==> s@[j] == prefix@[j],
        decreases plen - i,
    {
        if s.get_char(i) != prefix.get_char(i) {
            proof {
                assert(s@.take(prefix@.len() as int)[i as int] != prefix@[i as int]);
            }
            return false;
        }
        i += 1;
    }
    proof {
        assert(s@.take(prefix@.len() as int) =~= prefix@);
    }
    true
}

/// Whether `c` is a decimal digit.
pub open spec fn spec_is_digit(c: char) -> bool {
    '0' <= c && c <= '9'
}

/// The numeric value of a decimal digit.
pub open spec fn spec_digit_val(c: char) -> int {
    c as int - '0' as int
}

/// Whether every character of `s` is a decimal digit, and there is at
/// least one.
pub open spec fn spec_all_digits(s: Seq<char>) -> bool {
    s.len() > 0 && forall|i: int| 0 <= i < s.len() ==> spec_is_digit(#[trigger] s[i])
}

/// The value of a sequence of decimal digits, most significant first.
pub open spec fn spec_dec_val(s: Seq<char>) -> int
    decreases s.len(),
{
    if s.len() == 0 {
        0
    } else {
        spec_dec_val(s.drop_last()) * 10 + spec_digit_val(s.last())
    }
}

/// The value of a digit prefix never exceeds the value of the whole digit
/// string.
pub proof fn lemma_dec_val_monotone(s: Seq<char>, i: int)
    requires
        0 <= i <= s.len(),
        forall|j: int| 0 <= j < s.len() ==> spec_is_digit(#[trigger] s[j]),
    ensures
        spec_dec_val(s.take(i)) <= spec_dec_val(s),
        spec_dec_val(s) >= 0,
    decreases s.len() - i,
{
    if i == s.len() {
        assert(s.take(i) =~= s);
        lemma_dec_val_nonneg(s);
    } else {
        lemma_dec_val_monotone(s, i + 1);
        assert(s.take(i + 1).drop_last() =~= s.take(i));
        assert(s.take(i + 1).last() == s[i]);
        lemma_dec_val_nonneg(s.take(i));
        assert(spec_dec_val(s.take(i)) <= spec_dec_val(s.take(i)) * 10 + spec_digit_val(s[i]));
    }
}

/// The value of a digit string is nonnegative.
pub proof fn lemma_dec_val_nonneg(s: Seq<char>)
    requires
        forall|j: int| 0 <= j < s.len() ==> spec_is_digit(#[trigger] s[j]),
    ensures
        spec_dec_val(s) >= 0,
    decreases s.len(),
{
    if s.len() > 0 {
        assert forall|j: int| 0 <= j < s.drop_last().len() implies spec_is_digit(
            #[trigger] s.drop_last()[j],
        ) by {
            assert(s.drop_last()[j] == s[j]);
        }
        lemma_dec_val_nonneg(s.drop_last());
    }
}

/// Parse a decimal `u64`: `Some` exactly when `s` is one or more decimal
/// digits whose value fits in a `u64`.
pub fn parse_u64(s: &str) -> (r: Option<u64>)
    ensures
        match r {
            Option::Some(v) => spec_all_digits(s@) && v == spec_dec_val(s@),
            Option::None => !spec_all_digits(s@) || spec_dec_val(s@) > u64::MAX,
        },
{
    let n = s.unicode_len();
    if n == 0 {
        return None;
    }
    let mut v: u64 = 0;
    let mut i: usize = 0;
    while i < n
        invariant
            0 <= i <= n,
            n == s@.len(),
            n > 0,
            forall|j: int| 0 <= j < i ==> spec_is_digit(#[trigger] s@[j]),
            v == spec_dec_val(s@.take(i as int)),
        decreases n - i,
    {
        let c = s.get_char(i);
        if !(c >= '0' && c <= '9') {
            return None;
        }
        let d: u64 = (c as u32 as u64) - ('0' as u32 as u64);
        proof {
            assert(d == spec_digit_val(s@[i as int]));
            assert(s@.take(i + 1).drop_last() =~= s@.take(i as int));
            assert(s@.take(i + 1).last() == s@[i as int]);
        }
        if v > (u64::MAX - d) / 10 {
            proof {
                assert(spec_dec_val(s@.take(i + 1)) > u64::MAX) by (nonlinear_arith)
                    requires
                        spec_dec_val(s@.take(i + 1)) == v * 10 + d,
                        v > (u64::MAX - d) / 10,
                        0 <= d <= 9,
                {}
                if spec_all_digits(s@) {
                    lemma_dec_val_monotone(s@, i + 1);
                }
            }
            return None;
        }
        v = v * 10 + d;
        i += 1;
    }
    proof {
        assert(s@.take(n as int) =~= s@);
    }
    Some(v)
}

/// A copy of `s` as an owned string.
pub fn to_string(s: &str) -> (r: String)
    ensures
        r@ == s@,
{
    String::from_str(s)
}

/// `a` followed by `b`.
pub fn concat3(a: &str, b: &str, c: &str) -> (r: String)
    ensures
        r@ == a@ + b@ + c@,
{
    let mut r = String::from_str(a);
    r.append(b);
    r.append(c);
    r
}

} // verus!
