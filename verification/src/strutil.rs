//! Character-level string helpers used by the configuration and boot logic.

use vstd::prelude::*;
use vstd::string::StrSliceExecFns;
use vstd::string::StringExecFns;

verus! {

/// Character-by-character equality of two string slices.
pub fn str_eq(a: &str, b: &str) -> (r: bool)
    ensures
        r == (a@ == b@),
{
    let alen = a.unicode_len();
    let blen = b.unicode_len();
    if alen != blen {
        return false;
    }
    let mut i: usize = 0;
    while i < alen
        invariant
            i <= alen,
            alen == a@.len(),
            blen == b@.len(),
            alen == blen,
            forall|j: int| 0 <= j < i ==> a@[j] == b@[j],
        decreases alen - i,
    {
        if a.get_char(i) != b.get_char(i) {
            return false;
        }
        i += 1;
    }
    proof {
        assert(a@ =~= b@);
    }
    true
}

/// Does `pat` occur in `s` starting at character position `at`?
pub open spec fn has_at(s: Seq<char>, pat: Seq<char>, at: int) -> bool {
    0 <= at && at + pat.len() <= s.len() && s.subrange(at, at + pat.len()) == pat
}

pub fn str_has_at(s: &str, pat: &str, at: usize) -> (r: bool)
    requires
        at <= s@.len(),
    ensures
        r == has_at(s@, pat@, at as int),
{
    let plen = pat.unicode_len();
    let slen = s.unicode_len();
    if plen > slen - at {
        return false;
    }
    let mut i: usize = 0;
    while i < plen
        invariant
            i <= plen,
            plen == pat@.len(),
            slen == s@.len(),
            at + plen <= slen,
            forall|j: int| 0 <= j < i ==> s@[at + j] == pat@[j],
        decreases plen - i,
    {
        if s.get_char(at + i) != pat.get_char(i) {
            proof {
                if has_at(s@, pat@, at as int) {
                    assert(s@.subrange(at as int, at + pat@.len())[i as int] == pat@[i as int]);
                }
            }
            return false;
        }
        i += 1;
    }
    proof {
        assert(s@.subrange(at as int, at + pat@.len()) =~= pat@);
    }
    true
}

/// The first position of `c` in `s`, if any.
pub open spec fn find_char(s: Seq<char>, c: char) -> Option<int>
    decreases s.len(),
{
    if s.len() == 0 {
        None
    } else if s[0] == c {
        Some(0int)
    } else {
        match find_char(s.drop_first(), c) {
            Some(i) => Some(i + 1),
            None => None,
        }
    }
}

pub proof fn lemma_find_char(s: Seq<char>, c: char)
    ensures
        match find_char(s, c) {
            Some(i) => 0 <= i < s.len() && s[i] == c && forall|j: int| 0 <= j < i ==> s[j] != c,
            None => forall|j: int| 0 <= j < s.len() ==> s[j] != c,
        },
    decreases s.len(),
{
    if s.len() > 0 && s[0] != c {
        let d = s.drop_first();
        lemma_find_char(d, c);
        assert(forall|j: int| 0 <= j < d.len() ==> #[trigger] d[j] == s[j + 1]);
        match find_char(d, c) {
            Some(i) => {
                assert(s[i + 1] == d[i]);
                assert forall|j: int| 0 <= j < i + 1 implies s[j] != c by {
                    if j > 0 {
                        assert(d[j - 1] != c);
                    }
                }
            },
            None => {
                assert forall|j: int| 0 <= j < s.len() implies s[j] != c by {
                    if j > 0 {
                        assert(d[j - 1] != c);
                    }
                }
            },
        }
    }
}

/// The first position of `c` in `s`, by scanning.
pub fn str_find_char(s: &str, c: char) -> (r: Option<usize>)
    ensures
        match r {
            Some(i) => find_char(s@, c) == Some(i as int),
            None => find_char(s@, c) is None,
        },
{
    proof {
        lemma_find_char(s@, c);
    }
    let len = s.unicode_len();
    let mut i: usize = 0;
    while i < len
        invariant
            i <= len,
            len == s@.len(),
            forall|j: int| 0 <= j < i ==> s@[j] != c,
        decreases len - i,
    {
        if s.get_char(i) == c {
            proof {
                lemma_find_char_agrees(s@, c, i as int);
            }
            return Some(i);
        }
        i += 1;
    }
    None
}

/// A position whose prefix lacks `c` and which holds `c` is the first one.
proof fn lemma_find_char_agrees(s: Seq<char>, c: char, i: int)
    requires
        0 <= i < s.len(),
        s[i] == c,
        forall|j: int| 0 <= j < i ==> s[j] != c,
    ensures
        find_char(s, c) == Some(i),
{
    lemma_find_char(s, c);
    match find_char(s, c) {
        Some(k) => {
            if k < i {
                assert(s[k] != c);
            }
            if k > i {
                assert(s[i] != c);
            }
        },
        None => {
            assert(s[i] != c);
        },
    }
}

/// A copy of the character range `[from, to)` of `s` as an owned string.
pub fn substring(s: &str, from: usize, to: usize) -> (r: String)
    requires
        from <= to <= s@.len(),
    ensures
        r@ == s@.subrange(from as int, to as int),
{
    let sub = s.substring_char(from, to);
    sub.to_owned()
}

/// The concatenation of two string slices as an owned string.
pub fn concat_str(a: &str, b: &str) -> (r: String)
    ensures
        r@ == a@ + b@,
{
    let mut r = a.to_owned();
    r.append(b);
    r
}

/// Whether a marker occurs at the front of the remaining text does not
/// depend on how much was already consumed.
pub proof fn lemma_has_at_skip(s: Seq<char>, m: Seq<char>, i: int)
    requires
        0 <= i <= s.len(),
    ensures
        has_at(s, m, i) == has_at(s.skip(i), m, 0),
{
    if i + m.len() <= s.len() {
        assert(s.skip(i).subrange(0, m.len() as int) =~= s.subrange(i, i + m.len()));
    }
}

/// A decimal digit.
pub open spec fn is_digit(c: char) -> bool {
    '0' <= c && c <= '9'
}

/// Every character is a decimal digit.
pub open spec fn all_digits(s: Seq<char>) -> bool {
    forall|i: int| 0 <= i < s.len() ==> is_digit(#[trigger] s[i])
}

/// The number a string of decimal digits denotes.
pub open spec fn dec_value(s: Seq<char>) -> int
    decreases s.len(),
{
    if s.len() == 0 {
        0
    } else {
        dec_value(s.drop_last()) * 10 + (s.last() as u32 - '0' as u32)
    }
}

pub proof fn lemma_dec_value_nonneg(s: Seq<char>)
    requires
        all_digits(s),
    ensures
        dec_value(s) >= 0,
    decreases s.len(),
{
    if s.len() > 0 {
        let d = s.drop_last();
        assert(forall|j: int| 0 <= j < d.len() ==> #[trigger] d[j] == s[j]);
        lemma_dec_value_nonneg(d);
    }
}

/// Appending digits never shrinks the denoted number.
pub proof fn lemma_dec_value_prefix(s: Seq<char>, k: int)
    requires
        all_digits(s),
        0 <= k <= s.len(),
    ensures
        dec_value(s) >= dec_value(s.subrange(0, k)),
    decreases s.len() - k,
{
    if k < s.len() {
        assert(s.subrange(0, k + 1).drop_last() =~= s.subrange(0, k));
        assert(s.subrange(0, k + 1).last() == s[k]);
        assert(all_digits(s.subrange(0, k))) by {
            assert(forall|j: int|
                0 <= j < k ==> #[trigger] s.subrange(0, k)[j] == s[j]);
        }
        lemma_dec_value_nonneg(s.subrange(0, k));
        assert(dec_value(s.subrange(0, k + 1)) >= dec_value(s.subrange(0, k)));
        lemma_dec_value_prefix(s, k + 1);
    } else {
        assert(s.subrange(0, s.len() as int) =~= s);
    }
}

/// Parse a decimal `u64`: defined exactly on the non-empty all-digit strings
/// whose value fits.
pub fn parse_u64(s: &str) -> (r: Option<u64>)
    ensures
        (r is Some) <==> (s@.len() > 0 && all_digits(s@) && dec_value(s@) <= u64::MAX),
        r matches Some(v) ==> v == dec_value(s@),
{
    let len = s.unicode_len();
    if len == 0 {
        return None;
    }
    let mut acc: u64 = 0;
    let mut i: usize = 0;
    proof {
        assert(s@.subrange(0, 0) =~= Seq::<char>::empty());
    }
    while i < len
        invariant
            i <= len,
            len == s@.len(),
            forall|j: int| 0 <= j < i ==> is_digit(#[trigger] s@[j]),
            acc == dec_value(s@.subrange(0, i as int)),
        decreases len - i,
    {
        let c = s.get_char(i);
        if !('0' <= c && c <= '9') {
            return None;
        }
        let d: u64 = (c as u32 - '0' as u32) as u64;
        proof {
            assert(s@.subrange(0, i as int + 1).drop_last() =~= s@.subrange(0, i as int));
            assert(s@.subrange(0, i as int + 1).last() == s@[i as int]);
        }
        if acc > (u64::MAX - d) / 10 {
            proof {
                let q = (u64::MAX - d) / 10;
                assert(10 * acc >= 10 * (q + 1));
                assert(10 * q + 10 > u64::MAX - d);
                assert(dec_value(s@.subrange(0, i as int + 1)) > u64::MAX);
                if all_digits(s@) {
                    lemma_dec_value_prefix(s@, i as int + 1);
                }
            }
            return None;
        }
        proof {
            let q = (u64::MAX - d) / 10;
            assert(10 * acc <= 10 * q);
        }
        acc = acc * 10 + d;
        i += 1;
    }
    proof {
        assert(s@.subrange(0, len as int) =~= s@);
    }
    Some(acc)
}

/// Unicode whitespace, the set `str::trim` removes: the ASCII whitespace
/// controls and space, next line, no-break space, ogham space mark, the
/// en-quad..hair-space block, the line and paragraph separators, the narrow
/// no-break space, the medium mathematical space, and the ideographic space.
pub open spec fn is_space_char(c: char) -> bool {
    ('\u{09}' <= c && c <= '\u{0d}') || c == ' ' || c == '\u{85}' || c == '\u{a0}'
        || c == '\u{1680}' || ('\u{2000}' <= c && c <= '\u{200a}') || c == '\u{2028}'
        || c == '\u{2029}' || c == '\u{202f}' || c == '\u{205f}' || c == '\u{3000}'
}

/// How many whitespace characters the string starts with.
pub open spec fn leading_spaces(s: Seq<char>) -> int
    decreases s.len(),
{
    if s.len() == 0 || !is_space_char(s[0]) {
        0
    } else {
        1 + leading_spaces(s.drop_first())
    }
}

/// How many whitespace characters the string ends with.
pub open spec fn trailing_spaces(s: Seq<char>) -> int
    decreases s.len(),
{
    if s.len() == 0 || !is_space_char(s[s.len() - 1]) {
        0
    } else {
        1 + trailing_spaces(s.drop_last())
    }
}

/// The string with leading and trailing whitespace removed.
pub open spec fn trim_spec(s: Seq<char>) -> Seq<char> {
    if leading_spaces(s) == s.len() {
        Seq::<char>::empty()
    } else {
        s.subrange(leading_spaces(s), s.len() - trailing_spaces(s))
    }
}

pub proof fn lemma_leading_spaces(s: Seq<char>)
    ensures
        0 <= leading_spaces(s) <= s.len(),
        forall|j: int| 0 <= j < leading_spaces(s) ==> is_space_char(#[trigger] s[j]),
        leading_spaces(s) < s.len() ==> !is_space_char(s[leading_spaces(s)]),
    decreases s.len(),
{
    if s.len() > 0 && is_space_char(s[0]) {
        let d = s.drop_first();
        lemma_leading_spaces(d);
        assert(forall|j: int| 0 <= j < d.len() ==> #[trigger] d[j] == s[j + 1]);
        assert forall|j: int| 0 <= j < leading_spaces(s) implies is_space_char(s[j]) by {
            if j > 0 {
                assert(is_space_char(d[j - 1]));
            }
        }
    }
}

pub proof fn lemma_trailing_spaces(s: Seq<char>)
    ensures
        0 <= trailing_spaces(s) <= s.len(),
        forall|j: int|
            s.len() - trailing_spaces(s) <= j < s.len() ==> is_space_char(#[trigger] s[j]),
        trailing_spaces(s) < s.len() ==> !is_space_char(s[s.len() - 1 - trailing_spaces(s)]),
    decreases s.len(),
{
    if s.len() > 0 && is_space_char(s[s.len() - 1]) {
        let d = s.drop_last();
        lemma_trailing_spaces(d);
        assert(forall|j: int| 0 <= j < d.len() ==> #[trigger] d[j] == s[j]);
        assert forall|j: int| s.len() - trailing_spaces(s) <= j < s.len() implies is_space_char(
            s[j],
        ) by {
            if j < s.len() - 1 {
                assert(is_space_char(d[j]));
            }
        }
    }
}

/// Whitespace on one side only reaches the whole string when it covers it.
pub proof fn lemma_trim_bounds(s: Seq<char>)
    ensures
        0 <= leading_spaces(s) <= s.len(),
        0 <= trailing_spaces(s) <= s.len(),
        leading_spaces(s) < s.len() ==> leading_spaces(s) + trailing_spaces(s) <= s.len(),
{
    lemma_leading_spaces(s);
    lemma_trailing_spaces(s);
    if leading_spaces(s) < s.len() {
        let a = leading_spaces(s);
        let b = trailing_spaces(s);
        if a + b > s.len() {
            assert(is_space_char(s[a]));
            assert(!is_space_char(s[a])) by {
                if b < s.len() {
                    assert(s.len() - 1 - b < a);
                    assert(s.len() - b <= a);
                    assert(is_space_char(s[a])) by {
                        assert(s.len() - b <= a < s.len());
                    }
                    assert(!is_space_char(s[s.len() - 1 - b]));
                    assert(s.len() - 1 - b >= 0);
                    assert(is_space_char(s[s.len() - 1 - b]));
                }
            }
        }
    }
}

/// The trimmed copy of a string.
pub fn trim(s: &str) -> (r: String)
    ensures
        r@ == trim_spec(s@),
{
    proof {
        lemma_leading_spaces(s@);
        lemma_trailing_spaces(s@);
        lemma_trim_bounds(s@);
    }
    let len = s.unicode_len();
    let mut a: usize = 0;
    while a < len && is_space(s.get_char(a))
        invariant
            0 <= a <= len,
            len == s@.len(),
            forall|j: int| 0 <= j < a ==> is_space_char(#[trigger] s@[j]),
            a <= leading_spaces(s@),
        decreases len - a,
    {
        proof {
            lemma_leading_prefix(s@, a as int + 1);
        }
        a += 1;
    }
    if a == len {
        proof {
            lemma_leading_prefix(s@, len as int);
        }
        return String::new();
    }
    proof {
        assert(a as int == leading_spaces(s@)) by {
            lemma_leading_prefix(s@, a as int);
        }
    }
    let mut b: usize = 0;
    while b < len - a && is_space(s.get_char(len - 1 - b))
        invariant
            0 <= b <= len - a,
            a < len,
            len == s@.len(),
            forall|j: int| s@.len() - b <= j < s@.len() ==> is_space_char(#[trigger] s@[j]),
            b <= trailing_spaces(s@),
        decreases len - a - b,
    {
        proof {
            lemma_trailing_suffix(s@, b as int + 1);
        }
        b += 1;
    }
    proof {
        assert(b as int == trailing_spaces(s@)) by {
            if (b as int) < trailing_spaces(s@) {
                assert(is_space_char(s@[s@.len() - 1 - b]));
            }
            lemma_trailing_suffix(s@, b as int);
        }
    }
    substring(s, a, len - b)
}

/// A whitespace prefix of length `k` that either covers the string or stops
/// at a non-space bounds the leading-space count from below.
proof fn lemma_leading_prefix(s: Seq<char>, k: int)
    requires
        0 <= k <= s.len(),
        forall|j: int| 0 <= j < k ==> is_space_char(#[trigger] s[j]),
    ensures
        leading_spaces(s) >= k,
        k == s.len() ==> leading_spaces(s) == k,
        k < s.len() && !is_space_char(s[k]) ==> leading_spaces(s) == k,
    decreases k,
{
    lemma_leading_spaces(s);
    if k > 0 {
        if leading_spaces(s) < k {
            assert(!is_space_char(s[leading_spaces(s)]));
            assert(is_space_char(s[leading_spaces(s)]));
        }
    }
    if k < s.len() && !is_space_char(s[k]) && leading_spaces(s) > k {
        assert(is_space_char(s[k]));
    }
}

/// The same bound for the trailing side.
proof fn lemma_trailing_suffix(s: Seq<char>, k: int)
    requires
        0 <= k <= s.len(),
        forall|j: int| s.len() - k <= j < s.len() ==> is_space_char(#[trigger] s[j]),
    ensures
        trailing_spaces(s) >= k,
        k < s.len() && !is_space_char(s[s.len() - 1 - k]) ==> trailing_spaces(s) == k,
{
    lemma_trailing_spaces(s);
    if trailing_spaces(s) < k {
        assert(!is_space_char(s[s.len() - 1 - trailing_spaces(s)]));
        assert(s.len() - k <= s.len() - 1 - trailing_spaces(s) < s.len());
        assert(is_space_char(s[s.len() - 1 - trailing_spaces(s)]));
    }
    if k < s.len() && !is_space_char(s[s.len() - 1 - k]) && trailing_spaces(s) > k {
        assert(s.len() - trailing_spaces(s) <= s.len() - 1 - k < s.len());
        assert(is_space_char(s[s.len() - 1 - k]));
    }
}

/// Is this character Unicode whitespace?
pub fn is_space(c: char) -> (r: bool)
    ensures
        r == is_space_char(c),
{
    ('\u{09}' <= c && c <= '\u{0d}') || c == ' ' || c == '\u{85}' || c == '\u{a0}'
        || c == '\u{1680}' || ('\u{2000}' <= c && c <= '\u{200a}') || c == '\u{2028}'
        || c == '\u{2029}' || c == '\u{202f}' || c == '\u{205f}' || c == '\u{3000}'
}

} // verus!
