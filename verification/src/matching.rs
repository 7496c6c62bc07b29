//! Pattern matching on strings: where a pattern occurs, which occurrence a
//! strategy picks, and what the string looks like after a replacement.

use vstd::prelude::*;

verus! {

/// `p` occurs in `s` starting at offset `i` (offsets count characters).
pub open spec fn occurs_at(s: Seq<char>, p: Seq<char>, i: int) -> bool {
    &&& 0 <= i
    &&& i + p.len() <= s.len()
    &&& s.subrange(i, i + p.len() as int) == p
}

/// `p` occurs somewhere in `s`.
pub open spec fn has_match(s: Seq<char>, p: Seq<char>) -> bool {
    exists|i: int| occurs_at(s, p, i)
}

/// `s` with the occurrence of `p` at offset `i` replaced by `q`.
pub open spec fn rewritten(s: Seq<char>, p: Seq<char>, q: Seq<char>, i: int) -> Seq<char> {
    s.subrange(0, i) + q + s.subrange(i + p.len() as int, s.len() as int)
}

/// `i` is the lowest offset at which `p` occurs in `s`.
pub open spec fn is_first_match(s: Seq<char>, p: Seq<char>, i: int) -> bool {
    &&& occurs_at(s, p, i)
    &&& forall|j: int| 0 <= j < i ==> !occurs_at(s, p, j)
}

/// `i` is the highest offset at which `p` occurs in `s`.
pub open spec fn is_last_match(s: Seq<char>, p: Seq<char>, i: int) -> bool {
    &&& occurs_at(s, p, i)
    &&& forall|j: int| i < j ==> !occurs_at(s, p, j)
}

/// Whether `p` occurs in `s` at offset `i`, checked character by character.
/// `m` must be the character length of `p`.
fn matches_at(s: &str, p: &str, i: usize, m: usize) -> (r: bool)
    requires
        m == p@.len(),
        i + m <= s@.len(),
        s@.len() <= usize::MAX,
    ensures
        r == occurs_at(s@, p@, i as int),
{
    let mut j: usize = 0;
    while j < m
        invariant
            m == p@.len(),
            i + m <= s@.len(),
            s@.len() <= usize::MAX,
            j <= m,
            forall|k: int| 0 <= k < j ==> s@[i + k] == p@[k],
        decreases m - j,
    {
        if s.get_char(i + j) != p.get_char(j) {
            proof {
                let ii = i as int;
                if s@.subrange(ii, ii + m) == p@ {
                    assert(s@.subrange(ii, ii + m)[j as int] == s@[ii + j]);
                }
            }
            return false;
        }
        j += 1;
    }
    proof {
        assert(s@.subrange(i as int, i + m as int) =~= p@);
    }
    true
}

/// Two lowest offsets are the same offset.
pub proof fn lemma_first_match_unique(s: Seq<char>, p: Seq<char>, i: int, j: int)
    requires
        is_first_match(s, p, i),
        is_first_match(s, p, j),
    ensures
        i == j,
{
    if i < j {
        assert(!occurs_at(s, p, i));
    }
    if j < i {
        assert(!occurs_at(s, p, j));
    }
}

/// Two highest offsets are the same offset.
pub proof fn lemma_last_match_unique(s: Seq<char>, p: Seq<char>, i: int, j: int)
    requires
        is_last_match(s, p, i),
        is_last_match(s, p, j),
    ensures
        i == j,
{
    if i < j {
        assert(!occurs_at(s, p, j));
    }
    if j < i {
        assert(!occurs_at(s, p, i));
    }
}

/// The lowest offset at which `p` occurs in `s`, as a spec-level value.
pub open spec fn first_match_index(s: Seq<char>, p: Seq<char>) -> int {
    choose|i: int| is_first_match(s, p, i)
}

/// The lowest offset at which `p` occurs in `s`, if any.
pub fn find_first(s: &str, p: &str) -> (r: Option<usize>)
    requires
        p@.len() >= 1,
    ensures
        match r {
            Some(i) => is_first_match(s@, p@, i as int),
            None => !has_match(s@, p@),
        },
{
    let n = s.unicode_len();
    let m = p.unicode_len();
    if m > n {
        return None;
    }
    let mut i: usize = 0;
    while i <= n - m
        invariant
            m == p@.len(),
            n == s@.len(),
            1 <= m <= n,
            i <= n - m + 1,
            forall|j: int| 0 <= j < i ==> !occurs_at(s@, p@, j),
        decreases n - m + 1 - i,
    {
        if matches_at(s, p, i, m) {
            return Some(i);
        }
        i += 1;
    }
    None
}

/// The highest offset at which `p` occurs in `s`, if any.
pub fn find_last(s: &str, p: &str) -> (r: Option<usize>)
    requires
        p@.len() >= 1,
    ensures
        match r {
            Some(i) => is_last_match(s@, p@, i as int),
            None => !has_match(s@, p@),
        },
{
    let n = s.unicode_len();
    let m = p.unicode_len();
    if m > n {
        return None;
    }
    let mut i: usize = n - m + 1;
    while i > 0
        invariant
            m == p@.len(),
            n == s@.len(),
            1 <= m <= n,
            i <= n - m + 1,
            forall|j: int| i <= j ==> !occurs_at(s@, p@, j),
        decreases i,
    {
        i -= 1;
        if matches_at(s, p, i, m) {
            return Some(i);
        }
    }
    None
}

/// Every offset at which `p` occurs in `s`.
pub fn find_all(s: &str, p: &str) -> (v: Vec<usize>)
    requires
        p@.len() >= 1,
    ensures
        forall|k: int| 0 <= k < v@.len() ==> occurs_at(s@, p@, v@[k] as int),
        forall|i: int|
            #[trigger] occurs_at(s@, p@, i) ==> exists|k: int|
                0 <= k < v@.len() && v@[k] as int == i,
{
    let n = s.unicode_len();
    let m = p.unicode_len();
    let mut v: Vec<usize> = Vec::new();
    if m > n {
        return v;
    }
    let mut i: usize = 0;
    while i <= n - m
        invariant
            m == p@.len(),
            n == s@.len(),
            1 <= m <= n,
            i <= n - m + 1,
            forall|k: int| 0 <= k < v@.len() ==> occurs_at(s@, p@, v@[k] as int),
            forall|j: int|
                0 <= j < i && #[trigger] occurs_at(s@, p@, j) ==> exists|k: int|
                    0 <= k < v@.len() && v@[k] as int == j,
        decreases n - m + 1 - i,
    {
        let ghost vold = v@;
        let hit = matches_at(s, p, i, m);
        if hit {
            v.push(i);
        }
        proof {
            assert forall|j: int| 0 <= j < i + 1 && #[trigger] occurs_at(s@, p@, j)
                implies exists|k: int| 0 <= k < v@.len() && v@[k] as int == j by {
                if j < i {
                    let k = choose|k: int| 0 <= k < vold.len() && vold[k] as int == j;
                    assert(v@[k] as int == j);
                } else if hit {
                    assert(v@[v@.len() - 1] as int == j);
                }
            }
        }
        i += 1;
    }
    v
}

/// `s` with the `p@.len()` characters at offset `i` replaced by `q`.
pub fn rewrite_at(s: &str, p: &str, q: &str, i: usize) -> (r: String)
    requires
        i + p@.len() <= s@.len(),
    ensures
        r@ == rewritten(s@, p@, q@, i as int),
{
    let n = s.unicode_len();
    let m = p.unicode_len();
    let mut r = String::from_str(s.substring_char(0, i));
    r.append(q);
    r.append(s.substring_char(i + m, n));
    proof {
        assert(r@ =~= rewritten(s@, p@, q@, i as int));
    }
    r
}

} // verus!
