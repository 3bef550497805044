use vstd::prelude::*;
use vstd::std_specs::iter::IteratorSpec;

verus! {

broadcast use vstd::string::group_string_axioms;

/// Unicode `White_Space`: the characters that trimming removes.
pub open spec fn is_ws(c: char) -> bool {
    ||| '\t' <= c <= '\r'
    ||| c == ' '
    ||| c == '\u{85}'
    ||| c == '\u{a0}'
    ||| c == '\u{1680}'
    ||| '\u{2000}' <= c <= '\u{200a}'
    ||| c == '\u{2028}'
    ||| c == '\u{2029}'
    ||| c == '\u{202f}'
    ||| c == '\u{205f}'
    ||| c == '\u{3000}'
}

/// First index in `[i, hi)` that holds `c`, or `hi` when there is none.
pub open spec fn find_in(s: Seq<char>, c: char, i: int, hi: int) -> int
    decreases hi - i,
{
    if i >= hi {
        hi
    } else if s[i] == c {
        i
    } else {
        find_in(s, c, i + 1, hi)
    }
}

/// First index in `[i, hi)` that holds no whitespace, or `hi` when there is none.
pub open spec fn skip_ws(s: Seq<char>, i: int, hi: int) -> int
    decreases hi - i,
{
    if i >= hi {
        hi
    } else if !is_ws(s[i]) {
        i
    } else {
        skip_ws(s, i + 1, hi)
    }
}

/// End of `[lo, j)` once trailing whitespace is dropped.
pub open spec fn back_ws(s: Seq<char>, lo: int, j: int) -> int
    decreases j - lo,
{
    if j <= lo {
        lo
    } else if !is_ws(s[j - 1]) {
        j
    } else {
        back_ws(s, lo, j - 1)
    }
}

/// The text of `s` in `[lo, hi)` with leading and trailing whitespace removed.
pub open spec fn trimmed(s: Seq<char>, lo: int, hi: int) -> Seq<char> {
    let a = skip_ws(s, lo, hi);
    s.subrange(a, back_ws(s, a, hi))
}

pub proof fn lemma_find_in_bounds(s: Seq<char>, c: char, i: int, hi: int)
    requires
        i <= hi,
    ensures
        i <= find_in(s, c, i, hi) <= hi,
        find_in(s, c, i, hi) < hi ==> s[find_in(s, c, i, hi)] == c,
        forall|k: int| i <= k < find_in(s, c, i, hi) ==> s[k] != c,
    decreases hi - i,
{
    if i < hi && s[i] != c {
        lemma_find_in_bounds(s, c, i + 1, hi);
    }
}

pub proof fn lemma_skip_ws_bounds(s: Seq<char>, i: int, hi: int)
    requires
        i <= hi,
    ensures
        i <= skip_ws(s, i, hi) <= hi,
        skip_ws(s, i, hi) < hi ==> !is_ws(s[skip_ws(s, i, hi)]),
        forall|k: int| i <= k < skip_ws(s, i, hi) ==> is_ws(s[k]),
    decreases hi - i,
{
    if i < hi && is_ws(s[i]) {
        lemma_skip_ws_bounds(s, i + 1, hi);
    }
}

pub proof fn lemma_back_ws_bounds(s: Seq<char>, lo: int, j: int)
    requires
        lo <= j,
    ensures
        lo <= back_ws(s, lo, j) <= j,
        back_ws(s, lo, j) > lo ==> !is_ws(s[back_ws(s, lo, j) - 1]),
        forall|k: int| back_ws(s, lo, j) <= k < j ==> is_ws(s[k]),
    decreases j - lo,
{
    if lo < j && is_ws(s[j - 1]) {
        lemma_back_ws_bounds(s, lo, j - 1);
    }
}

/// An index that holds `c`, with no `c` before it from `lo` on, is what `find_in` finds.
pub proof fn lemma_find_in_first(s: Seq<char>, c: char, lo: int, p: int, hi: int)
    requires
        lo <= p < hi,
        s[p] == c,
        forall|k: int| lo <= k < p ==> s[k] != c,
    ensures
        find_in(s, c, lo, hi) == p,
    decreases p - lo,
{
    if lo < p {
        lemma_find_in_first(s, c, lo + 1, p, hi);
    }
}

proof fn lemma_skip_ws_tail(s: Seq<char>, i: int, b: int, hi: int)
    requires
        i <= b <= hi,
        forall|k: int| b <= k < hi ==> is_ws(s[k]),
    ensures
        skip_ws(s, i, b) < b ==> skip_ws(s, i, hi) == skip_ws(s, i, b),
        skip_ws(s, i, b) == b ==> skip_ws(s, i, hi) == hi,
    decreases b - i,
{
    lemma_skip_ws_bounds(s, i, b);
    lemma_skip_ws_bounds(s, i, hi);
    if i < b && is_ws(s[i]) {
        lemma_skip_ws_tail(s, i + 1, b, hi);
    }
}

proof fn lemma_back_ws_tail(s: Seq<char>, a: int, b: int, j: int)
    requires
        a <= b <= j,
        forall|k: int| b <= k < j ==> is_ws(s[k]),
    ensures
        back_ws(s, a, j) == back_ws(s, a, b),
    decreases j - b,
{
    if b < j {
        lemma_back_ws_tail(s, a, b, j - 1);
    }
}

/// Whitespace at the end of a range does not change its trimmed text.
pub proof fn lemma_trimmed_ws_tail(s: Seq<char>, lo: int, b: int, hi: int)
    requires
        0 <= lo <= b <= hi <= s.len(),
        forall|k: int| b <= k < hi ==> is_ws(s[k]),
    ensures
        trimmed(s, lo, b) == trimmed(s, lo, hi),
{
    lemma_skip_ws_tail(s, lo, b, hi);
    lemma_skip_ws_bounds(s, lo, b);
    let a = skip_ws(s, lo, b);
    if a < b {
        lemma_back_ws_tail(s, a, b, hi);
        assert(skip_ws(s, lo, hi) == a);
    } else {
        assert(skip_ws(s, lo, hi) == hi);
        assert(trimmed(s, lo, b) =~= Seq::<char>::empty());
        assert(trimmed(s, lo, hi) =~= Seq::<char>::empty());
    }
}

/// The characters of `s`, in order.
pub fn chars_of(s: &str) -> (r: Vec<char>)
    ensures
        r@ == s@,
{
    let mut it = s.chars();
    let mut r: Vec<char> = Vec::new();
    loop
        invariant
            it.obeys_prophetic_iter_laws(),
            it.decrease() is Some,
            r@ + it.remaining() == s@,
        ensures
            r@ == s@,
        decreases it.decrease()->0,
    {
        match it.next() {
            Some(c) => {
                r.push(c);
            },
            None => {
                assert(r@ + it.remaining() =~= r@);
                break;
            },
        }
    }
    r
}

pub fn is_whitespace(c: char) -> (r: bool)
    ensures
        r == is_ws(c),
{
    ('\t' <= c && c <= '\r') || c == ' ' || c == '\u{85}' || c == '\u{a0}' || c == '\u{1680}'
        || ('\u{2000}' <= c && c <= '\u{200a}') || c == '\u{2028}' || c == '\u{2029}'
        || c == '\u{202f}' || c == '\u{205f}' || c == '\u{3000}'
}

/// Exec form of `find_in`.
pub fn find_char(s: &Vec<char>, c: char, i: usize, hi: usize) -> (r: usize)
    requires
        i <= hi <= s@.len(),
    ensures
        r == find_in(s@, c, i as int, hi as int),
{
    let mut k = i;
    while k < hi
        invariant
            i <= k <= hi <= s@.len(),
            find_in(s@, c, i as int, hi as int) == find_in(s@, c, k as int, hi as int),
        decreases hi - k,
    {
        if s[k] == c {
            return k;
        }
        k = k + 1;
    }
    k
}

/// Exec form of `skip_ws`.
pub fn skip_whitespace(s: &Vec<char>, i: usize, hi: usize) -> (r: usize)
    requires
        i <= hi <= s@.len(),
    ensures
        r == skip_ws(s@, i as int, hi as int),
{
    let mut k = i;
    while k < hi
        invariant
            i <= k <= hi <= s@.len(),
            skip_ws(s@, i as int, hi as int) == skip_ws(s@, k as int, hi as int),
        decreases hi - k,
    {
        if !is_whitespace(s[k]) {
            return k;
        }
        k = k + 1;
    }
    k
}

/// Exec form of `back_ws`.
pub fn back_whitespace(s: &Vec<char>, lo: usize, j: usize) -> (r: usize)
    requires
        lo <= j <= s@.len(),
    ensures
        r == back_ws(s@, lo as int, j as int),
{
    let mut k = j;
    while k > lo
        invariant
            lo <= k <= j <= s@.len(),
            back_ws(s@, lo as int, j as int) == back_ws(s@, lo as int, k as int),
        decreases k - lo,
    {
        if !is_whitespace(s[k - 1]) {
            return k;
        }
        k = k - 1;
    }
    k
}

} // verus!
