//! Character-level helpers for the text attributes the platform exposes:
//! whitespace trimming and substring search, each with its mathematical
//! meaning over sequences of characters.

use vstd::prelude::*;

verus! {

/// Whether `c` is white space: the code points that carry the Unicode
/// property `White_Space`.
pub open spec fn is_whitespace(c: char) -> bool {
    let n = c as u32;
    ||| 0x09 <= n <= 0x0d
    ||| n == 0x20
    ||| n == 0x85
    ||| n == 0xa0
    ||| n == 0x1680
    ||| 0x2000 <= n <= 0x200a
    ||| n == 0x2028
    ||| n == 0x2029
    ||| n == 0x202f
    ||| n == 0x205f
    ||| n == 0x3000
}

/// `s` without its leading white space.
pub open spec fn trim_start(s: Seq<char>) -> Seq<char>
    decreases s.len(),
{
    if s.len() > 0 && is_whitespace(s.first()) {
        trim_start(s.drop_first())
    } else {
        s
    }
}

/// `s` without its trailing white space.
pub open spec fn trim_end(s: Seq<char>) -> Seq<char>
    decreases s.len(),
{
    if s.len() > 0 && is_whitespace(s.last()) {
        trim_end(s.drop_last())
    } else {
        s
    }
}

/// `s` without its leading and trailing white space.
pub open spec fn trimmed(s: Seq<char>) -> Seq<char> {
    trim_end(trim_start(s))
}

/// Whether `needle` occurs in `haystack` as a contiguous run of characters.
pub open spec fn contains(haystack: Seq<char>, needle: Seq<char>) -> bool {
    exists|i: int| occurs_at(haystack, needle, i)
}

/// Whether `needle` occurs in `haystack` starting at index `i`.
pub open spec fn occurs_at(haystack: Seq<char>, needle: Seq<char>, i: int) -> bool {
    &&& 0 <= i
    &&& i + needle.len() <= haystack.len()
    &&& haystack.subrange(i, i + needle.len()) == needle
}

/// The characters of `s`, in order.
pub fn chars_of(s: &str) -> (out: Vec<char>)
    ensures
        out@ == s@,
{
    let mut out: Vec<char> = Vec::new();
    for c in it: s.chars()
        invariant
            out@ == it.seq().take(it.index() as int),
    {
        out.push(c);
    }
    out
}

/// Decides whether `c` is white space.
pub fn is_whitespace_char(c: char) -> (b: bool)
    ensures
        b == is_whitespace(c),
{
    let n: u32 = c as u32;
    (0x09 <= n && n <= 0x0d) || n == 0x20 || n == 0x85 || n == 0xa0 || n == 0x1680 || (0x2000 <= n
        && n <= 0x200a) || n == 0x2028 || n == 0x2029 || n == 0x202f || n == 0x205f || n == 0x3000
}

/// Trimming from the left drops exactly the first `k` characters when they are
/// all white space and the next one, if any, is not.
pub proof fn lemma_trim_start_skips(s: Seq<char>, k: int)
    requires
        0 <= k <= s.len(),
        forall|j: int| 0 <= j < k ==> is_whitespace(#[trigger] s[j]),
        k < s.len() ==> !is_whitespace(s[k]),
    ensures
        trim_start(s) == s.subrange(k, s.len() as int),
    decreases k,
{
    if k == 0 {
        assert(s.subrange(0, s.len() as int) =~= s);
    } else {
        let t = s.drop_first();
        assert forall|j: int| 0 <= j < k - 1 implies is_whitespace(#[trigger] t[j]) by {
            assert(t[j] == s[j + 1]);
        }
        lemma_trim_start_skips(t, k - 1);
        assert(t.subrange(k - 1, t.len() as int) =~= s.subrange(k, s.len() as int));
    }
}

/// Trimming from the right keeps exactly the first `k` characters when all
/// later ones are white space and the one before `k`, if any, is not.
pub proof fn lemma_trim_end_keeps(s: Seq<char>, k: int)
    requires
        0 <= k <= s.len(),
        forall|j: int| k <= j < s.len() ==> is_whitespace(#[trigger] s[j]),
        0 < k ==> !is_whitespace(s[k - 1]),
    ensures
        trim_end(s) == s.subrange(0, k),
    decreases s.len() - k,
{
    if k == s.len() {
        assert(s.subrange(0, k) =~= s);
    } else {
        let t = s.drop_last();
        assert forall|j: int| k <= j < t.len() implies is_whitespace(#[trigger] t[j]) by {
            assert(t[j] == s[j]);
        }
        lemma_trim_end_keeps(t, k);
        assert(t.subrange(0, k) =~= s.subrange(0, k));
    }
}

/// Trimming removes white space put around a text that neither begins nor
/// ends with white space, and nothing else.
pub proof fn lemma_trimmed_of_padded(before: Seq<char>, core: Seq<char>, after: Seq<char>)
    requires
        forall|i: int| 0 <= i < before.len() ==> is_whitespace(#[trigger] before[i]),
        forall|i: int| 0 <= i < after.len() ==> is_whitespace(#[trigger] after[i]),
        core.len() > 0 ==> !is_whitespace(core.first()) && !is_whitespace(core.last()),
    ensures
        trimmed(before + core + after) == core,
{
    let s = before + core + after;
    let a = before.len() as int;
    let n = core.len() as int;
    assert forall|j: int| 0 <= j < a implies is_whitespace(#[trigger] s[j]) by {
        assert(s[j] == before[j]);
    }
    if n == 0 {
        assert forall|j: int| 0 <= j < s.len() implies is_whitespace(#[trigger] s[j]) by {
            if j >= a {
                assert(s[j] == after[j - a]);
            }
        }
        lemma_trim_start_skips(s, s.len() as int);
        assert(s.subrange(s.len() as int, s.len() as int) =~= core);
        assert(trim_end(core) == core);
    } else {
        assert(s[a] == core.first());
        lemma_trim_start_skips(s, a);
        let rest = s.subrange(a, s.len() as int);
        assert(rest =~= core + after);
        assert(rest[n - 1] == core.last());
        assert forall|j: int| n <= j < rest.len() implies is_whitespace(#[trigger] rest[j]) by {
            assert(rest[j] == after[j - n]);
        }
        lemma_trim_end_keeps(rest, n);
        assert(rest.subrange(0, n) =~= core);
    }
}

/// The bounds of `v` without its leading and trailing white space.
pub fn trim_bounds(v: &Vec<char>) -> (r: (usize, usize))
    ensures
        r.0 <= r.1 <= v.len(),
        v@.subrange(r.0 as int, r.1 as int) == trimmed(v@),
{
    let n = v.len();
    let mut start: usize = 0;
    while start < n && is_whitespace_char(v[start])
        invariant
            n == v.len(),
            start <= n,
            forall|j: int| 0 <= j < start ==> is_whitespace(#[trigger] v@[j]),
        decreases n - start,
    {
        start += 1;
    }
    let mut end: usize = n;
    while end > start && is_whitespace_char(v[end - 1])
        invariant
            n == v.len(),
            start <= end <= n,
            forall|j: int| end <= j < n ==> is_whitespace(#[trigger] v@[j]),
        decreases end,
    {
        end -= 1;
    }
    proof {
        lemma_trim_start_skips(v@, start as int);
        let rest = v@.subrange(start as int, n as int);
        assert forall|j: int| end - start <= j < rest.len() implies is_whitespace(
            #[trigger] rest[j],
        ) by {
            assert(rest[j] == v@[j + start]);
        }
        lemma_trim_end_keeps(rest, end - start);
        assert(rest.subrange(0, end - start) =~= v@.subrange(start as int, end as int));
    }
    (start, end)
}

/// Decides whether `needle` occurs in `haystack` starting at index `i`.
pub fn matches_at(haystack: &Vec<char>, needle: &Vec<char>, i: usize) -> (b: bool)
    ensures
        b == occurs_at(haystack@, needle@, i as int),
{
    let n = haystack.len();
    let m = needle.len();
    if m > n || i > n - m {
        return false;
    }
    let mut k: usize = 0;
    while k < m
        invariant
            m == needle.len(),
            k <= m,
            i + m <= haystack.len(),
            forall|j: int| 0 <= j < k ==> haystack@[i + j] == needle@[j],
        decreases m - k,
    {
        if haystack[i + k] != needle[k] {
            proof {
                let window = haystack@.subrange(i as int, i + m);
                assert(window[k as int] == haystack@[i + k]);
            }
            return false;
        }
        k += 1;
    }
    assert(haystack@.subrange(i as int, i + m) =~= needle@);
    true
}

/// Decides whether `needle` occurs anywhere in `haystack`.
pub fn contains_chars(haystack: &Vec<char>, needle: &Vec<char>) -> (b: bool)
    ensures
        b == contains(haystack@, needle@),
{
    let n = haystack.len();
    let m = needle.len();
    if m > n {
        return false;
    }
    let last: usize = n - m;
    let mut i: usize = 0;
    while i < last
        invariant
            n == haystack.len(),
            m == needle.len(),
            last == n - m,
            i <= last,
            forall|j: int| 0 <= j < i ==> !occurs_at(haystack@, needle@, j),
        decreases last - i,
    {
        if matches_at(haystack, needle, i) {
            return true;
        }
        i += 1;
    }
    matches_at(haystack, needle, last)
}

/// Decides whether `needle` occurs anywhere in `haystack`.
pub fn str_contains(haystack: &str, needle: &str) -> (b: bool)
    ensures
        b == contains(haystack@, needle@),
{
    let h = chars_of(haystack);
    let n = chars_of(needle);
    contains_chars(&h, &n)
}

} // verus!
