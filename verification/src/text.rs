//! Character-level helpers for the parameter mini-language and the argument
//! checks: whitespace trimming, comparing a slice of a string against a
//! literal, and reading an unsigned decimal number.

use vstd::prelude::*;
use vstd::string::StrSliceExecFns;

verus! {

/// The white-space characters `str::trim` removes (the Unicode white-space
/// list).
pub open spec fn is_ws_char(c: char) -> bool {
    c == ' ' || c == '\t' || c == '\n' || c == '\r' || c == '\u{b}' || c == '\u{c}' || c == '\u{85}'
        || c == '\u{a0}' || c == '\u{1680}' || c == '\u{2000}' || c == '\u{2001}' || c == '\u{2002}'
        || c == '\u{2003}' || c == '\u{2004}' || c == '\u{2005}' || c == '\u{2006}'
        || c == '\u{2007}' || c == '\u{2008}' || c == '\u{2009}' || c == '\u{200a}'
        || c == '\u{2028}' || c == '\u{2029}' || c == '\u{202f}' || c == '\u{205f}'
        || c == '\u{3000}'
}

fn is_ws(c: char) -> (r: bool)
    ensures
        r == is_ws_char(c),
{
    c == ' ' || c == '\t' || c == '\n' || c == '\r' || c == '\u{b}' || c == '\u{c}' || c == '\u{85}'
        || c == '\u{a0}' || c == '\u{1680}' || c == '\u{2000}' || c == '\u{2001}' || c == '\u{2002}'
        || c == '\u{2003}' || c == '\u{2004}' || c == '\u{2005}' || c == '\u{2006}'
        || c == '\u{2007}' || c == '\u{2008}' || c == '\u{2009}' || c == '\u{200a}'
        || c == '\u{2028}' || c == '\u{2029}' || c == '\u{202f}' || c == '\u{205f}'
        || c == '\u{3000}'
}

/// The sequence with its leading white space removed.
pub open spec fn trim_start_spec(s: Seq<char>) -> Seq<char>
    decreases s.len(),
{
    if s.len() > 0 && is_ws_char(s[0]) {
        trim_start_spec(s.drop_first())
    } else {
        s
    }
}

/// The sequence with its trailing white space removed.
pub open spec fn trim_end_spec(s: Seq<char>) -> Seq<char>
    decreases s.len(),
{
    if s.len() > 0 && is_ws_char(s.last()) {
        trim_end_spec(s.drop_last())
    } else {
        s
    }
}

/// The sequence with white space removed from both ends, as `str::trim`
/// leaves it.
pub open spec fn trim_spec(s: Seq<char>) -> Seq<char> {
    trim_end_spec(trim_start_spec(s))
}

/// The bounds of the trimmed middle of `s`: `s@.subrange(b.0, b.1)` is
/// exactly `trim_spec(s@)`.
#[verifier::loop_isolation(false)]
pub fn trim_bounds(s: &str) -> (b: (usize, usize))
    ensures
        b.0 <= b.1 <= s@.len(),
        s@.subrange(b.0 as int, b.1 as int) == trim_spec(s@),
{
    let n = s.unicode_len();
    let mut lo: usize = 0;
    proof {
        assert(s@.skip(0) =~= s@);
    }
    while lo < n && is_ws(s.get_char(lo))
        invariant
            lo <= n,
            trim_start_spec(s@) == trim_start_spec(s@.skip(lo as int)),
        decreases n - lo,
    {
        proof {
            assert(s@.skip(lo as int).drop_first() =~= s@.skip(lo as int + 1));
        }
        lo = lo + 1;
    }
    proof {
        if lo == n {
            assert(s@.skip(lo as int) =~= Seq::<char>::empty());
        }
        assert(trim_start_spec(s@) == s@.skip(lo as int));
    }
    let mut hi: usize = n;
    while hi > lo && is_ws(s.get_char(hi - 1))
        invariant
            lo <= hi <= n,
            trim_end_spec(s@.skip(lo as int)) == trim_end_spec(s@.subrange(lo as int, hi as int)),
        decreases hi,
    {
        proof {
            assert(s@.subrange(lo as int, hi as int).drop_last() =~= s@.subrange(
                lo as int,
                hi as int - 1,
            ));
        }
        hi = hi - 1;
    }
    proof {
        if hi == lo {
            assert(s@.subrange(lo as int, hi as int) =~= Seq::<char>::empty());
        }
        if lo == n {
            assert(s@.skip(lo as int) =~= s@.subrange(lo as int, n as int));
        }
        assert(trim_spec(s@) == s@.subrange(lo as int, hi as int));
    }
    (lo, hi)
}

/// Whether the characters of `s` between `lo` and `hi` are exactly `t`.
#[verifier::loop_isolation(false)]
pub fn range_matches(s: &str, lo: usize, hi: usize, t: &str) -> (r: bool)
    requires
        lo <= hi <= s@.len(),
    ensures
        r == (s@.subrange(lo as int, hi as int) == t@),
{
    let m = t.unicode_len();
    if hi - lo != m {
        return false;
    }
    let mut k: usize = 0;
    while k < m
        invariant
            k <= m,
            forall|q: int| 0 <= q < k ==> s@[lo + q] == t@[q],
        decreases m - k,
    {
        if s.get_char(lo + k) != t.get_char(k) {
            proof {
                assert(s@.subrange(lo as int, hi as int)[k as int] != t@[k as int]);
            }
            return false;
        }
        k = k + 1;
    }
    proof {
        assert(s@.subrange(lo as int, hi as int) =~= t@);
    }
    true
}

/// Index of the last occurrence of `c` in the sequence, or -1 if there is
/// none.
pub open spec fn last_index_of(s: Seq<char>, c: char) -> int
    decreases s.len(),
{
    if s.len() == 0 {
        -1
    } else if s.last() == c {
        s.len() - 1
    } else {
        last_index_of(s.drop_last(), c)
    }
}

/// Position of the last occurrence of `c` between `lo` and `hi`, if any.
#[verifier::loop_isolation(false)]
pub fn find_last(s: &str, lo: usize, hi: usize, c: char) -> (r: Option<usize>)
    requires
        lo <= hi <= s@.len(),
    ensures
        match r {
            Some(p) => lo <= p < hi && p - lo == last_index_of(
                s@.subrange(lo as int, hi as int),
                c,
            ),
            None => last_index_of(s@.subrange(lo as int, hi as int), c) == -1,
        },
{
    let mut j = hi;
    while j > lo
        invariant
            lo <= j <= hi,
            last_index_of(s@.subrange(lo as int, hi as int), c) == last_index_of(
                s@.subrange(lo as int, j as int),
                c,
            ),
        decreases j,
    {
        if s.get_char(j - 1) == c {
            proof {
                assert(s@.subrange(lo as int, j as int).last() == c);
            }
            return Some(j - 1);
        }
        proof {
            assert(s@.subrange(lo as int, j as int).drop_last() =~= s@.subrange(
                lo as int,
                j as int - 1,
            ));
        }
        j = j - 1;
    }
    None
}

/// Whether `s` ends with `suffix`.
pub open spec fn ends_with_spec(s: Seq<char>, suffix: Seq<char>) -> bool {
    suffix.len() <= s.len() && s.skip(s.len() - suffix.len()) == suffix
}

/// Whether the string ends with the given suffix, character for character.
pub fn str_ends_with(s: &str, suffix: &str) -> (r: bool)
    ensures
        r == ends_with_spec(s@, suffix@),
{
    let n = s.unicode_len();
    let m = suffix.unicode_len();
    if m > n {
        false
    } else {
        proof {
            assert(s@.subrange(n as int - m as int, n as int) =~= s@.skip(n as int - m as int));
        }
        range_matches(s, n - m, n, suffix)
    }
}

/// A decimal digit.
pub open spec fn is_digit_char(c: char) -> bool {
    48 <= c as u32 <= 57
}

/// Its numeric value.
pub open spec fn digit_val(c: char) -> int {
    c as u32 - 48
}

/// Every character of the sequence is a decimal digit.
pub open spec fn all_digits(s: Seq<char>) -> bool {
    forall|k: int| 0 <= k < s.len() ==> is_digit_char(s[k])
}

/// The number the digit sequence denotes, most significant digit first.
pub open spec fn digits_val(s: Seq<char>) -> int
    decreases s.len(),
{
    if s.len() == 0 {
        0
    } else {
        digits_val(s.drop_last()) * 10 + digit_val(s.last())
    }
}

pub proof fn lemma_digits_val_nonneg(s: Seq<char>)
    requires
        all_digits(s),
    ensures
        digits_val(s) >= 0,
    decreases s.len(),
{
    if s.len() > 0 {
        assert(all_digits(s.drop_last()));
        lemma_digits_val_nonneg(s.drop_last());
    }
}

/// A digit sequence denotes at least as much as any of its prefixes.
pub proof fn lemma_digits_val_take_mono(s: Seq<char>, k: int)
    requires
        all_digits(s),
        0 <= k <= s.len(),
    ensures
        digits_val(s) >= digits_val(s.take(k)),
    decreases s.len() - k,
{
    if k < s.len() {
        lemma_digits_val_take_mono(s, k + 1);
        assert(s.take(k + 1).drop_last() =~= s.take(k));
        assert(all_digits(s.take(k)));
        lemma_digits_val_nonneg(s.take(k));
        assert(digits_val(s.take(k + 1)) == digits_val(s.take(k)) * 10 + digit_val(s[k]));
        assert(digits_val(s.take(k)) * 10 >= digits_val(s.take(k)));
    } else {
        assert(s.take(k) =~= s);
    }
}

/// What `str::parse::<usize>` makes of the characters between `lo` and `hi`,
/// with every failure (empty, a stray character, overflow) turned into 0: an
/// optional leading `+`, then at least one decimal digit whose value fits.
pub open spec fn parse_uint_or_zero(s: Seq<char>) -> int {
    let body = if s.len() > 0 && s[0] == '+' {
        s.drop_first()
    } else {
        s
    };
    if body.len() > 0 && all_digits(body) && digits_val(body) <= usize::MAX {
        digits_val(body)
    } else {
        0
    }
}

/// Reads the characters of `s` between `lo` and `hi` as an unsigned decimal
/// number, yielding 0 when they are not one or it does not fit.
#[verifier::loop_isolation(false)]
pub fn parse_uint_or_zero_range(s: &str, lo: usize, hi: usize) -> (v: usize)
    requires
        lo <= hi <= s@.len(),
    ensures
        v as int == parse_uint_or_zero(s@.subrange(lo as int, hi as int)),
{
    let ghost sub = s@.subrange(lo as int, hi as int);
    let mut k = lo;
    if k < hi && s.get_char(k) == '+' {
        k = k + 1;
    }
    let ghost body = s@.subrange(k as int, hi as int);
    proof {
        if k > lo {
            assert(sub.drop_first() =~= body);
        } else {
            assert(sub =~= body);
        }
    }
    if k == hi {
        proof {
            assert(body.len() == 0);
        }
        return 0;
    }
    let mut acc: usize = 0;
    let mut j = k;
    while j < hi
        invariant
            k <= j <= hi,
            all_digits(body.take(j - k)),
            acc as int == digits_val(body.take(j - k)),
        decreases hi - j,
    {
        let c = s.get_char(j);
        let cv = c as u32;
        if cv < 48 || cv > 57 {
            proof {
                assert(!is_digit_char(body[j - k]));
            }
            return 0;
        }
        let d = (cv - 48) as usize;
        proof {
            assert(body.take(j - k + 1).drop_last() =~= body.take(j - k));
            assert(body.take(j - k + 1).last() == body[j - k]);
            assert(all_digits(body.take(j - k + 1)));
        }
        let step = match acc.checked_mul(10) {
            Some(a) => a.checked_add(d),
            None => None,
        };
        match step {
            Some(a) => {
                acc = a;
            },
            None => {
                proof {
                    if all_digits(body) {
                        lemma_digits_val_take_mono(body, j - k + 1);
                    }
                }
                return 0;
            },
        }
        j = j + 1;
    }
    proof {
        assert(body.take(hi - k) =~= body);
    }
    acc
}

} // verus!
