//! The parameter mini-language: a `;`-separated list of `key=value` pairs
//! for the blur filter, and a whole-string axis literal for the mirror
//! filter. Parsing never fails: anything malformed resolves to the neutral
//! value (0, or no axis), so a bad parameter string degrades to a no-op.

use vstd::prelude::*;
use vstd::string::StrSliceExecFns;
use crate::text::{parse_uint_or_zero, parse_uint_or_zero_range, range_matches, trim_bounds,
    trim_spec};

verus! {

/// Index of the first `;` in the sequence, or its length if there is none.
pub open spec fn first_semi(s: Seq<char>) -> nat
    decreases s.len(),
{
    if s.len() == 0 {
        0
    } else if s[0] == ';' {
        0
    } else {
        1 + first_semi(s.drop_first())
    }
}

pub proof fn lemma_first_semi_le(s: Seq<char>)
    ensures
        first_semi(s) <= s.len(),
    decreases s.len(),
{
    if s.len() > 0 && s[0] != ';' {
        lemma_first_semi_le(s.drop_first());
    }
}

/// `first_semi` is the unique cut: no `;` before it, and a `;` (or the end)
/// at it.
pub proof fn lemma_first_semi_at(s: Seq<char>, m: int)
    requires
        0 <= m <= s.len(),
        forall|k: int| 0 <= k < m ==> s[k] != ';',
        m == s.len() || s[m] == ';',
    ensures
        first_semi(s) == m,
    decreases s.len(),
{
    if s.len() == 0 {
    } else if s[0] == ';' {
    } else {
        assert(m > 0);
        assert(forall|k: int| 0 <= k < m - 1 ==> s.drop_first()[k] == s[k + 1]);
        lemma_first_semi_at(s.drop_first(), m - 1);
    }
}

/// The value of `key` in the `;`-separated list: the remainder of the first
/// segment that starts with `key`, or nothing if no segment does.
pub open spec fn key_value(s: Seq<char>, key: Seq<char>) -> Option<Seq<char>>
    decreases s.len(),
{
    let i = first_semi(s) as int;
    if i >= s.len() {
        if key.len() <= s.len() && s.take(key.len() as int) == key {
            Some(s.skip(key.len() as int))
        } else {
            None
        }
    } else {
        let seg = s.take(i);
        if key.len() <= seg.len() && seg.take(key.len() as int) == key {
            Some(seg.skip(key.len() as int))
        } else {
            key_value(s.skip(i + 1), key)
        }
    }
}

/// The converse characterization of `first_semi`: everything before it is
/// no `;`, and it lands on a `;` unless there is none.
pub proof fn lemma_first_semi_spec(s: Seq<char>)
    ensures
        first_semi(s) <= s.len(),
        forall|k: int| 0 <= k < first_semi(s) ==> s[k] != ';',
        first_semi(s) < s.len() ==> s[first_semi(s) as int] == ';',
    decreases s.len(),
{
    if s.len() > 0 && s[0] != ';' {
        lemma_first_semi_spec(s.drop_first());
        assert forall|k: int| 0 <= k < first_semi(s) implies s[k] != ';' by {
            if k > 0 {
                assert(s[k] == s.drop_first()[k - 1]);
            }
        }
        if first_semi(s) < s.len() {
            assert(s[first_semi(s) as int] == s.drop_first()[first_semi(s.drop_first()) as int]);
        }
    }
}

/// Unknown keys are ignored, leading form: a `;`-separated segment that does
/// not start with the key, put in front of a parameter list, leaves the
/// value found for that key unchanged. `parse_params` reads its two values
/// through `key_value` over the trimmed string, so a parameter string may
/// carry unrecognized leading segments without affecting either value.
pub proof fn lemma_key_value_ignores_leading_segment(s: Seq<char>, seg: Seq<char>, key: Seq<char>)
    requires
        forall|k: int| 0 <= k < seg.len() ==> seg[k] != ';',
        !(key.len() <= seg.len() && seg.take(key.len() as int) == key),
    ensures
        key_value(seg + seq![';'] + s, key) == key_value(s, key),
{
    let t = seg + seq![';'] + s;
    let i = seg.len() as int;
    assert forall|k: int| 0 <= k < i implies t[k] != ';' by {
        assert(t[k] == seg[k]);
    }
    assert(t[i] == ';');
    lemma_first_semi_at(t, i);
    assert(t.take(i) =~= seg);
    assert(t.skip(i + 1) =~= s);
}

/// Unknown keys are ignored, trailing form: a `;`-separated segment that
/// does not start with the key, appended to a parameter list, leaves the
/// value found for that key unchanged.
pub proof fn lemma_key_value_ignores_trailing_segment(s: Seq<char>, seg: Seq<char>, key: Seq<char>)
    requires
        forall|k: int| 0 <= k < seg.len() ==> seg[k] != ';',
        !(key.len() <= seg.len() && seg.take(key.len() as int) == key),
    ensures
        key_value(s + seq![';'] + seg, key) == key_value(s, key),
    decreases s.len(),
{
    let t = s + seq![';'] + seg;
    lemma_first_semi_spec(s);
    let i = first_semi(s) as int;
    assert forall|k: int| 0 <= k < i implies t[k] != ';' by {
        assert(t[k] == s[k]);
    }
    if i == s.len() {
        assert(t[i] == ';');
        lemma_first_semi_at(t, i);
        assert(t.take(i) =~= s);
        if key.len() <= s.len() && s.take(key.len() as int) == key {
            assert(t.take(i).skip(key.len() as int) =~= s.skip(key.len() as int));
        } else {
            assert(t.skip(i + 1) =~= seg);
            lemma_first_semi_at(seg, seg.len() as int);
            assert(key_value(seg, key) is None);
        }
    } else {
        assert(t[i] == s[i] == ';');
        lemma_first_semi_at(t, i);
        assert(t.take(i) =~= s.take(i));
        if !(key.len() <= i && s.take(i).take(key.len() as int) == key) {
            lemma_key_value_ignores_trailing_segment(s.skip(i + 1), seg, key);
            assert(t.skip(i + 1) =~= s.skip(i + 1) + seq![';'] + seg);
        }
    }
}

/// Index of the first `;` at or after `lo` and before `hi`, or `hi`.
#[verifier::loop_isolation(false)]
fn find_semi(s: &str, lo: usize, hi: usize) -> (r: usize)
    requires
        lo <= hi <= s@.len(),
    ensures
        lo <= r <= hi,
        r - lo == first_semi(s@.subrange(lo as int, hi as int)),
{
    let mut j = lo;
    while j < hi && s.get_char(j) != ';'
        invariant
            lo <= j <= hi,
            forall|k: int| lo <= k < j ==> s@[k] != ';',
        decreases hi - j,
    {
        j = j + 1;
    }
    proof {
        let t = s@.subrange(lo as int, hi as int);
        assert(forall|k: int| 0 <= k < j - lo ==> t[k] == s@[lo + k] && t[k] != ';');
        lemma_first_semi_at(t, j as int - lo as int);
    }
    j
}

/// Bounds of the value of `key` in the `;`-separated list held between `lo`
/// and `hi`, searched segment by segment.
#[verifier::loop_isolation(false)]
fn key_value_range(s: &str, lo: usize, hi: usize, key: &str) -> (r: Option<(usize, usize)>)
    requires
        lo <= hi <= s@.len(),
    ensures
        match r {
            Some(b) => {
                &&& lo <= b.0 <= b.1 <= hi
                &&& key_value(s@.subrange(lo as int, hi as int), key@) == Some(
                    s@.subrange(b.0 as int, b.1 as int),
                )
            },
            None => key_value(s@.subrange(lo as int, hi as int), key@) is None,
        },
{
    let m = key.unicode_len();
    let mut cur = lo;
    loop
        invariant
            lo <= cur <= hi,
            m == key@.len(),
            key_value(s@.subrange(lo as int, hi as int), key@) == key_value(
                s@.subrange(cur as int, hi as int),
                key@,
            ),
        decreases hi - cur,
    {
        let semi = find_semi(s, cur, hi);
        let ghost t = s@.subrange(cur as int, hi as int);
        proof {
            lemma_first_semi_le(t);
            assert(semi - cur == first_semi(t));
            if semi < hi {
                assert(t.take(semi - cur) =~= s@.subrange(cur as int, semi as int));
                assert(t.take(semi - cur).take(m as int) =~= s@.subrange(
                    cur as int,
                    hi as int,
                ).take(semi - cur).take(m as int));
            } else {
                assert(t =~= s@.subrange(cur as int, semi as int));
            }
        }
        let ghost seg = s@.subrange(cur as int, semi as int);
        if semi - cur >= m && range_matches(s, cur, cur + m, key) {
            proof {
                assert(seg.take(m as int) =~= s@.subrange(cur as int, (cur + m) as int));
                assert(seg.skip(m as int) =~= s@.subrange((cur + m) as int, semi as int));
                if semi < hi {
                    assert(t.take(semi - cur) == seg);
                } else {
                    assert(t == seg);
                }
            }
            return Some((cur + m, semi));
        }
        proof {
            if m as int <= seg.len() {
                assert(seg.take(m as int) =~= s@.subrange(cur as int, (cur + m) as int));
            }
            if semi < hi {
                assert(t.take(semi - cur) == seg);
            } else {
                assert(t == seg);
            }
        }
        if semi == hi {
            return None;
        }
        proof {
            assert(t.skip(semi - cur + 1) =~= s@.subrange(semi as int + 1, hi as int));
        }
        cur = semi + 1;
    }
}

/// The blur radius the parameter string asks for: the `radius=` value of the
/// trimmed string, or 0 when absent or malformed.
pub open spec fn blur_radius_of(s: Seq<char>) -> int {
    let t = trim_spec(s);
    match key_value(t, "radius="@) {
        Some(v) => parse_uint_or_zero(v),
        None => 0,
    }
}

/// The blur iteration count the parameter string asks for: the `iterations=`
/// value of the trimmed string, or 0 when absent or malformed.
pub open spec fn blur_iterations_of(s: Seq<char>) -> int {
    let t = trim_spec(s);
    match key_value(t, "iterations="@) {
        Some(v) => parse_uint_or_zero(v),
        None => 0,
    }
}

/// Decodes a blur parameter string into `(radius, iterations)`. Unknown
/// keys are ignored; a missing or malformed value resolves to 0.
pub fn parse_params(params: &str) -> (r: (usize, usize))
    ensures
        r.0 as int == blur_radius_of(params@),
        r.1 as int == blur_iterations_of(params@),
{
    let b = trim_bounds(params);
    let radius = match key_value_range(params, b.0, b.1, "radius=") {
        Some(v) => parse_uint_or_zero_range(params, v.0, v.1),
        None => 0,
    };
    let iterations = match key_value_range(params, b.0, b.1, "iterations=") {
        Some(v) => parse_uint_or_zero_range(params, v.0, v.1),
        None => 0,
    };
    (radius, iterations)
}

/// The mirror direction a parameter string selects.
#[derive(Clone, Copy, Debug, PartialEq, Eq, Structural)]
pub enum MirrorAxis {
    Horizontal,
    Vertical,
    Neutral,
}

/// The axis the parameter string selects: the whole string must be exactly
/// one of the two literals; anything else selects no axis at all.
pub open spec fn axis_of(s: Seq<char>) -> MirrorAxis {
    if s == "horizontal"@ {
        MirrorAxis::Horizontal
    } else if s == "vertical"@ {
        MirrorAxis::Vertical
    } else {
        MirrorAxis::Neutral
    }
}

/// Decodes a mirror parameter string by exact comparison against the two
/// axis literals.
pub fn parse_axis(params: &str) -> (a: MirrorAxis)
    ensures
        a == axis_of(params@),
{
    let n = params.unicode_len();
    proof {
        assert(params@.subrange(0, n as int) =~= params@);
    }
    if range_matches(params, 0, n, "horizontal") {
        MirrorAxis::Horizontal
    } else if range_matches(params, 0, n, "vertical") {
        MirrorAxis::Vertical
    } else {
        MirrorAxis::Neutral
    }
}

} // verus!
