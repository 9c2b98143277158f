//! String routines of the C library, on NUL-terminated strings of C
//! characters (`i8`) held in slices.
use vstd::prelude::*;

verus! {

/// The string holds a NUL character.
pub open spec fn has_nul(s: Seq<i8>) -> bool {
    exists|p: int| 0 <= p < s.len() && s[p] == 0
}

/// `n` characters can be read from the string, or it ends before that.
pub open spec fn readable(s: Seq<i8>, n: int) -> bool {
    n <= s.len() || has_nul(s)
}

/// Length of the C string: the position of its first NUL character.
pub open spec fn c_len(s: Seq<i8>) -> int
    recommends
        has_nul(s),
{
    choose|p: int| 0 <= p < s.len() && s[p] == 0 && forall|j: int| 0 <= j < p ==> s[j] != 0
}

/// Uppercase of a character code: the lowercase letters `a` to `z` become
/// `A` to `Z`, every other code stays as it is.
pub open spec fn spec_toupper(c: i32) -> i32 {
    if 97 <= c <= 122 {
        (c - 32) as i32
    } else {
        c
    }
}

/// The character as it is compared: its uppercase when comparing without case.
pub open spec fn fold(c: i8, ignore_case: bool) -> i8 {
    if ignore_case {
        spec_toupper(c as i32) as i8
    } else {
        c
    }
}

/// Result of comparing two strings from position `k` on, looking at no more
/// than `limit` positions in all: 0 when equal, -1 when the first is smaller
/// at the first difference, 1 when it is larger.
pub open spec fn compare_from(l: Seq<i8>, r: Seq<i8>, k: int, limit: int, ignore_case: bool) -> i32
    decreases l.len() - k,
{
    if k >= limit || k < 0 || k >= l.len() || k >= r.len() {
        0
    } else {
        let a = fold(l[k], ignore_case);
        let b = fold(r[k], ignore_case);
        if a == 0 && b == 0 {
            0
        } else if a < b {
            -1i32
        } else if a > b {
            1
        } else {
            compare_from(l, r, k + 1, limit, ignore_case)
        }
    }
}

/// Result of comparing all characters of two strings.
pub open spec fn compare_all(l: Seq<i8>, r: Seq<i8>, ignore_case: bool) -> i32 {
    compare_from(l, r, 0, l.len() as int, ignore_case)
}

/// Result of comparing at most `count` characters of two strings.
pub open spec fn compare_n(l: Seq<i8>, r: Seq<i8>, count: usize, ignore_case: bool) -> i32 {
    compare_from(l, r, 0, count as int, ignore_case)
}

/// At most `count` characters can be read from the string.
pub open spec fn readable_n(s: Seq<i8>, count: usize) -> bool {
    readable(s, count as int)
}

/// Convert a character to uppercase.
/// If the character has no uppercase representation, the given character itself is returned.
pub fn toupper(c: i32) -> (r: i32)
    ensures
        r == spec_toupper(c),
{
    if 97 <= c && c <= 122 {
        (c - 32) as i32
    } else {
        c
    }
}

/// The character is a whitespace character: space, tab, newline, vertical
/// tab, form feed or carriage return.
pub open spec fn spec_isspace(c: i32) -> bool {
    c == 32 || (9 <= c <= 13)
}

/// Return 1 if the character is a whitespace character, 0 otherwise.
pub fn isspace(c: i32) -> (r: i32)
    ensures
        r == if spec_isspace(c) { 1i32 } else { 0i32 },
{
    if c == 32 || (9 <= c && c <= 13) {
        1
    } else {
        0
    }
}

/// Calculate the absolute value of an integer.
pub fn abs(n: i32) -> (r: i32)
    requires
        n != i32::MIN,
    ensures
        r == if n < 0 { -n } else { n as int },
{
    if n < 0 {
        -n
    } else {
        n
    }
}

fn fold_char(c: i8, ignore_case: bool) -> (r: i8)
    ensures
        r == fold(c, ignore_case),
        r == 0 <==> c == 0,
{
    if ignore_case {
        toupper(c as i32) as i8
    } else {
        c
    }
}

/// Compare at most `count` characters of two strings, with or without case.
fn compare(lhs: &[i8], rhs: &[i8], count: usize, ignore_case: bool) -> (r: i32)
    requires
        readable_n(lhs@, count),
        readable_n(rhs@, count),
    ensures
        r == compare_n(lhs@, rhs@, count, ignore_case),
{
    let mut k: usize = 0;
    while k < count
        invariant
            readable(lhs@, count as int),
            readable(rhs@, count as int),
            k <= count,
            forall|j: int| 0 <= j < k ==> lhs@[j] != 0 && rhs@[j] != 0,
            k <= lhs@.len(),
            k <= rhs@.len(),
            compare_from(lhs@, rhs@, 0, count as int, ignore_case) == compare_from(lhs@, rhs@, k as int, count as int, ignore_case),
        decreases count - k,
    {
        proof {
            if !(count <= lhs@.len()) {
                let p = choose|p: int| 0 <= p < lhs@.len() && lhs@[p] == 0;
                if k > p {
                    assert(lhs@[p] != 0);
                }
            }
            if !(count <= rhs@.len()) {
                let p = choose|p: int| 0 <= p < rhs@.len() && rhs@[p] == 0;
                if k > p {
                    assert(rhs@[p] != 0);
                }
            }
        }
        let lch = fold_char(lhs[k], ignore_case);
        let rch = fold_char(rhs[k], ignore_case);
        if lch == 0 && rch == 0 {
            return 0;
        }
        if lch < rch {
            return -1;
        } else if lch > rch {
            return 1;
        }
        k = k + 1;
    }
    0
}

/// Compare two strings.
pub fn strcmp(lhs: &[i8], rhs: &[i8]) -> (r: i32)
    requires
        has_nul(lhs@),
        has_nul(rhs@),
    ensures
        r == compare_all(lhs@, rhs@, false),
{
    compare(lhs, rhs, lhs.len(), false)
}

/// Compare the first `count` characters of two strings.
pub fn strncmp(lhs: &[i8], rhs: &[i8], count: usize) -> (r: i32)
    requires
        readable_n(lhs@, count),
        readable_n(rhs@, count),
    ensures
        r == compare_n(lhs@, rhs@, count, false),
{
    compare(lhs, rhs, count, false)
}

/// Compare two strings ignoring case.
pub fn strcasecmp(lhs: &[i8], rhs: &[i8]) -> (r: i32)
    requires
        has_nul(lhs@),
        has_nul(rhs@),
    ensures
        r == compare_all(lhs@, rhs@, true),
{
    compare(lhs, rhs, lhs.len(), true)
}

/// Compare the first `count` characters of two strings ignoring case.
pub fn strncasecmp(lhs: &[i8], rhs: &[i8], count: usize) -> (r: i32)
    requires
        readable_n(lhs@, count),
        readable_n(rhs@, count),
    ensures
        r == compare_n(lhs@, rhs@, count, true),
{
    compare(lhs, rhs, count, true)
}

/// A string compares equal to itself.
pub proof fn lemma_compare_reflexive(s: Seq<i8>, k: int, limit: int, ignore_case: bool)
    ensures
        compare_from(s, s, k, limit, ignore_case) == 0,
    decreases s.len() - k,
{
    if !(k >= limit || k < 0 || k >= s.len()) {
        lemma_compare_reflexive(s, k + 1, limit, ignore_case);
    }
}

/// Swapping the strings negates the result of the comparison.
pub proof fn lemma_compare_antisymmetric(l: Seq<i8>, r: Seq<i8>, k: int, limit: int, ignore_case: bool)
    ensures
        compare_from(l, r, k, limit, ignore_case) == -compare_from(r, l, k, limit, ignore_case),
    decreases l.len() - k,
{
    if !(k >= limit || k < 0 || k >= l.len() || k >= r.len()) {
        lemma_compare_antisymmetric(l, r, k + 1, limit, ignore_case);
    }
}

/// The first NUL character of a string that has one.
proof fn lemma_first_nul(s: Seq<i8>, k: int) -> (p: int)
    requires
        has_nul(s),
        0 <= k <= s.len(),
        forall|j: int| 0 <= j < k ==> s[j] != 0,
    ensures
        0 <= p < s.len(),
        s[p] == 0,
        forall|j: int| 0 <= j < p ==> s[j] != 0,
    decreases s.len() - k,
{
    if k == s.len() {
        let q = choose|q: int| 0 <= q < s.len() && s[q] == 0;
        assert(s[q] != 0);
        0
    } else if s[k] == 0 {
        k
    } else {
        lemma_first_nul(s, k + 1)
    }
}

/// The length of a C string is the position of its first NUL character.
pub proof fn lemma_c_len(s: Seq<i8>)
    requires
        has_nul(s),
    ensures
        0 <= c_len(s) < s.len(),
        s[c_len(s)] == 0,
        forall|j: int| 0 <= j < c_len(s) ==> s[j] != 0,
{
    let p = lemma_first_nul(s, 0);
    assert(0 <= p < s.len() && s[p] == 0 && forall|j: int| 0 <= j < p ==> s[j] != 0);
}

/// How far the comparison looks does not matter once it looks past the end
/// of the shorter string.
proof fn lemma_compare_limit(l: Seq<i8>, r: Seq<i8>, k: int, limit1: int, limit2: int, ignore_case: bool)
    requires
        has_nul(l),
        has_nul(r),
        0 <= k <= c_len(l),
        k <= c_len(r),
        limit1 > c_len(l) || limit1 > c_len(r),
        limit2 > c_len(l) || limit2 > c_len(r),
    ensures
        compare_from(l, r, k, limit1, ignore_case) == compare_from(l, r, k, limit2, ignore_case),
    decreases l.len() - k,
{
    lemma_c_len(l);
    lemma_c_len(r);
    let a = fold(l[k], ignore_case);
    let b = fold(r[k], ignore_case);
    if a == b && !(a == 0 && b == 0) {
        assert(l[k] != 0 && r[k] != 0);
        lemma_compare_limit(l, r, k + 1, limit1, limit2, ignore_case);
    }
}

/// Swapping two strings negates the result of the comparison of `strcmp` and
/// `strcasecmp`.
pub proof fn lemma_compare_all_antisymmetric(a: Seq<i8>, b: Seq<i8>, ignore_case: bool)
    requires
        has_nul(a),
        has_nul(b),
    ensures
        compare_all(a, b, ignore_case) == -compare_all(b, a, ignore_case),
{
    lemma_c_len(a);
    lemma_c_len(b);
    lemma_compare_antisymmetric(a, b, 0, a.len() as int, ignore_case);
    lemma_compare_limit(b, a, 0, a.len() as int, b.len() as int, ignore_case);
}

proof fn lemma_compare_zero_from(a: Seq<i8>, b: Seq<i8>, k: int)
    requires
        has_nul(a),
        has_nul(b),
        0 <= k <= c_len(a),
        k <= c_len(b),
    ensures
        compare_from(a, b, k, a.len() as int, false) == 0 <==> (c_len(a) == c_len(b) && forall|j: int|
            k <= j < c_len(a) ==> #[trigger] a[j] == b[j]),
    decreases a.len() - k,
{
    lemma_c_len(a);
    lemma_c_len(b);
    if a[k] == b[k] && a[k] != 0 {
        lemma_compare_zero_from(a, b, k + 1);
        if c_len(a) == c_len(b) && (forall|j: int| k + 1 <= j < c_len(a) ==> #[trigger] a[j] == b[j]) {
            assert forall|j: int| k <= j < c_len(a) implies #[trigger] a[j] == b[j] by {
                if j == k {
                }
            }
        }
    } else if a[k] != b[k] {
        if c_len(a) == c_len(b) {
            if k == c_len(a) {
                assert(a[k] == 0 && b[k] == 0);
            } else {
                assert(!(a[k] == b[k]));
            }
        }
    }
}

/// The comparison of `strcmp` gives 0 exactly for equal strings: the same characters up to the
/// same length.
pub proof fn lemma_compare_all_zero_iff_equal(a: Seq<i8>, b: Seq<i8>)
    requires
        has_nul(a),
        has_nul(b),
    ensures
        compare_all(a, b, false) == 0 <==> a.subrange(0, c_len(a)) == b.subrange(0, c_len(b)),
{
    lemma_c_len(a);
    lemma_c_len(b);
    lemma_compare_zero_from(a, b, 0);
    if a.subrange(0, c_len(a)) == b.subrange(0, c_len(b)) {
        assert(a.subrange(0, c_len(a)).len() == c_len(a));
        assert(b.subrange(0, c_len(b)).len() == c_len(b));
        assert(c_len(a) == c_len(b));
        assert forall|j: int| 0 <= j < c_len(a) implies #[trigger] a[j] == b[j] by {
            assert(a.subrange(0, c_len(a))[j] == b.subrange(0, c_len(b))[j]);
        }
    }
    if compare_all(a, b, false) == 0 {
        assert(a.subrange(0, c_len(a)) =~= b.subrange(0, c_len(b)));
    }
}

/// The outcome of comparing two characters that differ or are both NUL: 0
/// when equal, -1 when the first is smaller, 1 when it is larger.
pub open spec fn char_outcome(a: i8, b: i8) -> i32 {
    if a == b {
        0
    } else if a < b {
        -1i32
    } else {
        1i32
    }
}

proof fn lemma_compare_skip_equal(l: Seq<i8>, r: Seq<i8>, ignore_case: bool, j: int, k: int)
    requires
        0 <= j <= k < l.len(),
        k < r.len(),
        forall|i: int| 0 <= i < k ==> fold(#[trigger] l[i], ignore_case) == fold(r[i], ignore_case) && fold(l[i], ignore_case) != 0,
    ensures
        compare_from(l, r, j, l.len() as int, ignore_case) == compare_from(l, r, k, l.len() as int, ignore_case),
    decreases k - j,
{
    if j < k {
        assert(fold(l[j], ignore_case) == fold(r[j], ignore_case) && fold(l[j], ignore_case) != 0);
        lemma_compare_skip_equal(l, r, ignore_case, j + 1, k);
    }
}

/// The comparison of `strcmp` and `strcasecmp` is decided by the first
/// position at which the (folded) characters differ or are both NUL: equal
/// characters there give 0, otherwise the smaller character gives -1.
pub proof fn lemma_compare_first_difference(l: Seq<i8>, r: Seq<i8>, ignore_case: bool, k: int)
    requires
        0 <= k < l.len(),
        k < r.len(),
        forall|i: int| 0 <= i < k ==> fold(#[trigger] l[i], ignore_case) == fold(r[i], ignore_case) && fold(l[i], ignore_case) != 0,
        fold(l[k], ignore_case) != fold(r[k], ignore_case) || fold(l[k], ignore_case) == 0,
    ensures
        compare_all(l, r, ignore_case) == char_outcome(fold(l[k], ignore_case), fold(r[k], ignore_case)),
{
    lemma_compare_skip_equal(l, r, ignore_case, 0, k);
}

/// `strncmp` compares the characters as they are, without regard to case
/// folding: at the first of the first `count` positions where the strings
/// differ (before either ends), the smaller character decides; characters
/// that differ only in case differ.
pub proof fn lemma_compare_n_raw_difference(l: Seq<i8>, r: Seq<i8>, count: usize, k: int)
    requires
        0 <= k < count,
        k < l.len(),
        k < r.len(),
        forall|j: int| 0 <= j < k ==> #[trigger] l[j] == r[j] && l[j] != 0,
        l[k] != r[k],
    ensures
        compare_n(l, r, count, false) == (if l[k] < r[k] { -1i32 } else { 1i32 }),
{
    lemma_compare_n_skip(l, r, count, 0, k);
}

proof fn lemma_compare_n_skip(l: Seq<i8>, r: Seq<i8>, count: usize, j: int, k: int)
    requires
        0 <= j <= k < count,
        k < l.len(),
        k < r.len(),
        forall|i: int| 0 <= i < k ==> #[trigger] l[i] == r[i] && l[i] != 0,
    ensures
        compare_from(l, r, j, count as int, false) == compare_from(l, r, k, count as int, false),
    decreases k - j,
{
    if j < k {
        assert(l[j] == r[j] && l[j] != 0);
        lemma_compare_n_skip(l, r, count, j + 1, k);
    }
}

/// `strncmp` gives 0 for strings that agree, character for character, on
/// their first `count` characters or up to a NUL they share.
pub proof fn lemma_compare_n_equal(l: Seq<i8>, r: Seq<i8>, count: usize, k: int)
    requires
        0 <= k <= count,
        k <= l.len(),
        k <= r.len(),
        forall|j: int| 0 <= j < k ==> #[trigger] l[j] == r[j] && l[j] != 0,
        k == count || (k < l.len() && k < r.len() && l[k] == 0 && r[k] == 0),
    ensures
        compare_n(l, r, count, false) == 0,
{
    if k < count {
        lemma_compare_n_skip(l, r, count, 0, k);
    } else {
        lemma_compare_n_prefix(l, r, count, 0);
    }
}

proof fn lemma_compare_n_prefix(l: Seq<i8>, r: Seq<i8>, count: usize, j: int)
    requires
        0 <= j <= count,
        count <= l.len(),
        count <= r.len(),
        forall|i: int| 0 <= i < count ==> #[trigger] l[i] == r[i] && l[i] != 0,
    ensures
        compare_from(l, r, j, count as int, false) == 0,
    decreases count - j,
{
    if j < count {
        assert(l[j] == r[j] && l[j] != 0);
        lemma_compare_n_prefix(l, r, count, j + 1);
    }
}

/// Get the length of a string.
pub fn strlen(s: &[i8]) -> (r: usize)
    requires
        has_nul(s@),
    ensures
        r == c_len(s@),
        r < s@.len(),
        s@[r as int] == 0,
        forall|j: int| 0 <= j < r ==> s@[j] != 0,
{
    let mut k: usize = 0;
    while s[k] != 0
        invariant
            has_nul(s@),
            k < s@.len(),
            forall|j: int| 0 <= j < k ==> s@[j] != 0,
        decreases s@.len() - k,
    {
        proof {
            let p = choose|p: int| 0 <= p < s@.len() && s@[p] == 0;
            if k + 1 >= s@.len() {
                assert(s@[p] != 0 || p == k);
            }
            if p <= k {
                assert(p == k || s@[p] != 0);
            }
        }
        k = k + 1;
    }
    proof {
        let q = c_len(s@);
        assert(0 <= q < s@.len() && s@[q] == 0 && forall|j: int| 0 <= j < q ==> s@[j] != 0);
        if q < k {
            assert(s@[q] != 0);
        }
        if q > k {
            assert(s@[k as int] != 0);
        }
    }
    k
}

/// Search for a character in a string: the position of the first occurrence
/// of `ch` (converted to a C character) up to and including the terminating
/// NUL, or `None`.
pub fn strchr(s: &[i8], ch: i32) -> (r: Option<usize>)
    requires
        has_nul(s@),
    ensures
        match r {
            Some(k) => {
                &&& k <= c_len(s@)
                &&& s@[k as int] == ch as i8
                &&& forall|j: int| 0 <= j < k ==> s@[j] != ch as i8
            },
            None => forall|j: int| 0 <= j <= c_len(s@) ==> s@[j] != ch as i8,
        },
{
    let c = ch as i8;
    let n = strlen(s);
    let mut k: usize = 0;
    while k <= n
        invariant
            n == c_len(s@),
            n < s@.len(),
            c == ch as i8,
            k <= n + 1,
            forall|j: int| 0 <= j < k ==> s@[j] != c,
        decreases n + 1 - k,
    {
        if s[k] == c {
            return Some(k);
        }
        k = k + 1;
    }
    None
}

/// Search for the last occurrence of a character in a string, up to and
/// including the terminating NUL.
pub fn strrchr(s: &[i8], ch: i32) -> (r: Option<usize>)
    requires
        has_nul(s@),
    ensures
        match r {
            Some(k) => {
                &&& k <= c_len(s@)
                &&& s@[k as int] == ch as i8
                &&& forall|j: int| k < j <= c_len(s@) ==> s@[j] != ch as i8
            },
            None => forall|j: int| 0 <= j <= c_len(s@) ==> s@[j] != ch as i8,
        },
{
    let c = ch as i8;
    let n = strlen(s);
    let mut result: Option<usize> = None;
    let mut k: usize = 0;
    while k <= n
        invariant
            n == c_len(s@),
            n < s@.len(),
            c == ch as i8,
            k <= n + 1,
            match result {
                Some(p) => p < k && s@[p as int] == c && forall|j: int| p < j < k ==> s@[j] != c,
                None => forall|j: int| 0 <= j < k ==> s@[j] != c,
            },
        decreases n + 1 - k,
    {
        if s[k] == c {
            result = Some(k);
        }
        k = k + 1;
    }
    result
}

/// The `n` characters of `hay` from position `p` on are those of `needle`.
pub open spec fn matches_at(hay: Seq<i8>, needle: Seq<i8>, p: int, n: int) -> bool {
    forall|j: int| 0 <= j < n ==> #[trigger] hay[p + j] == needle[j]
}

/// Search for a substring in a string: the first position before the end of
/// `hay` at which the characters of `needle` follow; an empty `needle` is
/// found at position 0. Every position is compared over the full length of
/// `needle`, so `hay` must hold that much memory behind its last character.
pub fn strstr(hay: &[i8], needle: &[i8]) -> (r: Option<usize>)
    requires
        has_nul(hay@),
        has_nul(needle@),
        c_len(hay@) + c_len(needle@) <= hay@.len() + 1,
    ensures
        c_len(needle@) == 0 ==> r == Some(0usize),
        c_len(needle@) > 0 ==> match r {
            Some(p) => {
                &&& p < c_len(hay@)
                &&& matches_at(hay@, needle@, p as int, c_len(needle@))
                &&& forall|q: int| 0 <= q < p ==> !matches_at(hay@, needle@, q, c_len(needle@))
            },
            None => forall|q: int| 0 <= q < c_len(hay@) ==> !matches_at(hay@, needle@, q, c_len(needle@)),
        },
{
    let len = strlen(needle);
    if len == 0 {
        return Some(0);
    }
    let hay_len = strlen(hay);
    let total = hay.len();
    let mut p: usize = 0;
    while hay[p] != 0
        invariant
            len == c_len(needle@),
            len > 0,
            len < needle@.len(),
            hay_len == c_len(hay@),
            hay_len < hay@.len(),
            hay_len + len <= hay@.len() + 1,
            total == hay@.len(),
            p <= hay_len,
            forall|j: int| 0 <= j < hay_len ==> hay@[j] != 0,
            hay@[hay_len as int] == 0,
            forall|q: int| 0 <= q < p ==> !matches_at(hay@, needle@, q, len as int),
        decreases hay_len - p,
    {
        assert(p < hay_len);
        let mut j: usize = 0;
        let mut same = true;
        while j < len
            invariant
                len < needle@.len(),
                p < hay_len,
                hay_len + len <= hay@.len() + 1,
                total == hay@.len(),
                j <= len,
                same == matches_at(hay@, needle@, p as int, j as int),
            decreases len - j,
        {
            if hay[p + j] != needle[j] {
                same = false;
            }
            j = j + 1;
        }
        if same {
            return Some(p);
        }
        p = p + 1;
    }
    None
}

/// Copy a string: the first `count` characters of `src`, and NUL characters
/// behind its end up to `count` characters. The rest of `dest` is left as it is.
pub fn strncpy(dest: &mut Vec<i8>, src: &[i8], count: usize)
    requires
        has_nul(src@),
        count <= old(dest)@.len(),
    ensures
        final(dest)@.len() == old(dest)@.len(),
        forall|i: int| 0 <= i < count && i < c_len(src@) ==> #[trigger] final(dest)@[i] == src@[i],
        forall|i: int| c_len(src@) <= i < count ==> #[trigger] final(dest)@[i] == 0,
        forall|i: int| count <= i < final(dest)@.len() ==> #[trigger] final(dest)@[i] == old(dest)@[i],
{
    let src_len = strlen(src);
    let bytes_to_copy = if src_len < count { src_len } else { count };
    let mut i: usize = 0;
    while i < bytes_to_copy
        invariant
            bytes_to_copy <= count,
            bytes_to_copy <= src_len,
            src_len == c_len(src@),
            src_len < src@.len(),
            count <= dest@.len(),
            dest@.len() == old(dest)@.len(),
            i <= bytes_to_copy,
            forall|j: int| 0 <= j < i ==> #[trigger] dest@[j] == src@[j],
            forall|j: int| i <= j < dest@.len() ==> #[trigger] dest@[j] == old(dest)@[j],
        decreases bytes_to_copy - i,
    {
        dest.set(i, src[i]);
        i = i + 1;
    }
    if count > src_len {
        let mut k: usize = src_len;
        while k < count
            invariant
                src_len < count,
                src_len == c_len(src@),
                src_len < src@.len(),
                count <= dest@.len(),
                dest@.len() == old(dest)@.len(),
                src_len <= k <= count,
                forall|j: int| 0 <= j < src_len ==> #[trigger] dest@[j] == src@[j],
                forall|j: int| src_len <= j < k ==> #[trigger] dest@[j] == 0,
                forall|j: int| k <= j < dest@.len() ==> #[trigger] dest@[j] == old(dest)@[j],
            decreases count - k,
        {
            dest.set(k, 0);
            k = k + 1;
        }
    }
}

/// Duplicate a string: a copy of its characters up to and including the
/// terminating NUL.
pub fn strdup(s: &[i8]) -> (r: Vec<i8>)
    requires
        has_nul(s@),
    ensures
        r@ == s@.subrange(0, c_len(s@) + 1),
{
    let len = strlen(s);
    let mut dup: Vec<i8> = Vec::new();
    let mut i: usize = 0;
    while i <= len
        invariant
            len == c_len(s@),
            len < s@.len(),
            i <= len + 1,
            dup@ == s@.subrange(0, i as int),
        decreases len + 1 - i,
    {
        dup.push(s[i]);
        assert(dup@ =~= s@.subrange(0, i as int + 1));
        i = i + 1;
    }
    dup
}

} // verus!
