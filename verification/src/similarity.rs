//! The similarity heuristic behind every "did you mean" hint.
//!
//! Two names are similar when they are not identical but their
//! case-insensitive edit distance stays within a threshold scaled by the
//! longer name's length: 1 for names of up to 4 characters, 2 up to 8,
//! and 3 beyond that.

use vstd::prelude::*;
use vstd::string::*;

verus! {

/// The code point of `c` with an upper-case ASCII letter folded to lower
/// case; other characters keep their code point.
pub open spec fn lower_code(c: char) -> int {
    if 65 <= c as int <= 90 {
        c as int + 32
    } else {
        c as int
    }
}

/// Case-insensitive equality of two character sequences.
pub open spec fn chars_ci_equal(a: Seq<char>, b: Seq<char>) -> bool {
    a.len() == b.len() && forall|i: int| 0 <= i < a.len() ==> lower_code(a[i]) == lower_code(b[i])
}

/// Case-insensitive edit distance: the least number of insertions,
/// deletions and substitutions turning `a` into `b`, where two characters
/// match when their lower-cased code points agree. This equals the plain
/// edit distance of the two lower-cased sequences.
pub open spec fn edit_distance_ci(a: Seq<char>, b: Seq<char>) -> nat
    decreases a.len(), b.len(),
{
    if a.len() == 0 {
        b.len()
    } else if b.len() == 0 {
        a.len()
    } else {
        let del = edit_distance_ci(a.drop_last(), b) + 1;
        let ins = edit_distance_ci(a, b.drop_last()) + 1;
        let sub = edit_distance_ci(a.drop_last(), b.drop_last()) + if lower_code(a.last())
            == lower_code(b.last()) {
            0int
        } else {
            1int
        };
        min3(del as int, ins as int, sub) as nat
    }
}

/// The least of three values.
pub open spec fn min3(a: int, b: int, c: int) -> int {
    if a <= b && a <= c {
        a
    } else if b <= c {
        b
    } else {
        c
    }
}

/// The distance-threshold at which two names of greatest length `len`
/// still count as similar.
pub open spec fn similarity_threshold(len: nat) -> nat {
    if len <= 4 {
        1
    } else if len <= 8 {
        2
    } else {
        3
    }
}

/// Two names are similar when they differ somewhere, yet their
/// case-insensitive edit distance is within the length-scaled threshold.
pub open spec fn spec_is_similar(a: Seq<char>, b: Seq<char>) -> bool {
    &&& a != b
    &&& edit_distance_ci(a, b) <= similarity_threshold(
        if a.len() >= b.len() {
            a.len()
        } else {
            b.len()
        },
    )
}

/// The edit distance never exceeds the sum of the lengths, nor the
/// longer sequence's length.
pub proof fn lemma_edit_distance_bound(a: Seq<char>, b: Seq<char>)
    ensures
        edit_distance_ci(a, b) <= a.len() + b.len(),
        edit_distance_ci(a, b) <= if a.len() >= b.len() {
            a.len()
        } else {
            b.len()
        },
    decreases a.len(), b.len(),
{
    if a.len() == 0 || b.len() == 0 {
    } else {
        lemma_edit_distance_bound(a.drop_last(), b);
        lemma_edit_distance_bound(a, b.drop_last());
        lemma_edit_distance_bound(a.drop_last(), b.drop_last());
    }
}

/// Sequences equal up to case have edit distance zero.
pub proof fn lemma_ci_equal_distance_zero(a: Seq<char>, b: Seq<char>)
    requires
        chars_ci_equal(a, b),
    ensures
        edit_distance_ci(a, b) == 0,
    decreases a.len(),
{
    if a.len() == 0 {
    } else {
        assert(chars_ci_equal(a.drop_last(), b.drop_last()));
        lemma_ci_equal_distance_zero(a.drop_last(), b.drop_last());
        lemma_edit_distance_bound(a.drop_last(), b);
        lemma_edit_distance_bound(a, b.drop_last());
        assert(lower_code(a.last()) == lower_code(b.last()));
    }
}

/// A name is never similar to itself.
pub proof fn lemma_similar_irreflexive(a: Seq<char>)
    ensures
        !spec_is_similar(a, a),
{
}

/// Two distinct names that differ only in letter case are always similar.
pub proof fn lemma_case_variants_similar(a: Seq<char>, b: Seq<char>)
    requires
        a != b,
        chars_ci_equal(a, b),
    ensures
        spec_is_similar(a, b),
{
    lemma_ci_equal_distance_zero(a, b);
}

/// Names whose case-insensitive edit distance exceeds the length-scaled
/// threshold are never similar.
pub proof fn lemma_beyond_threshold_not_similar(a: Seq<char>, b: Seq<char>)
    requires
        edit_distance_ci(a, b) > similarity_threshold(
            if a.len() >= b.len() {
                a.len()
            } else {
                b.len()
            },
        ),
    ensures
        !spec_is_similar(a, b),
{
}

/// Collect the characters of a string slice into a vector.
pub fn chars_of(s: &str) -> (r: Vec<char>)
    ensures
        r@ == s@,
{
    let n = s.unicode_len();
    let mut r: Vec<char> = Vec::new();
    let mut i: usize = 0;
    while i < n
        invariant
            i <= n,
            n == s@.len(),
            r@ =~= s@.take(i as int),
        decreases n - i,
    {
        r.push(s.get_char(i));
        assert(r@ =~= s@.take(i + 1));
        i += 1;
    }
    proof {
        assert(r@ =~= s@);
    }
    r
}

/// Character-sequence equality of two vectors.
pub fn chars_eq(a: &Vec<char>, b: &Vec<char>) -> (r: bool)
    ensures
        r == (a@ == b@),
{
    if a.len() != b.len() {
        return false;
    }
    let mut i: usize = 0;
    while i < a.len()
        invariant
            i <= a.len(),
            a.len() == b.len(),
            forall|j: int| 0 <= j < i ==> a@[j] == b@[j],
        decreases a.len() - i,
    {
        if a[i] != b[i] {
            return false;
        }
        i += 1;
    }
    proof {
        assert(a@ =~= b@);
    }
    true
}

/// Lower-cased code point of a character, as `lower_code` gives it.
fn lower_code_of(c: char) -> (r: u32)
    ensures
        r == lower_code(c),
{
    let code = c as u32;
    if 65 <= code && code <= 90 {
        code + 32
    } else {
        code
    }
}

/// The case-insensitive edit distance of two character vectors.
pub fn edit_distance(a: &Vec<char>, b: &Vec<char>) -> (d: usize)
    ensures
        d == edit_distance_ci(a@, b@),
{
    let a_len = a.len();
    let b_len = b.len();
    if a_len == 0 {
        return b_len;
    }
    if b_len == 0 {
        return a_len;
    }

    let mut prev: Vec<u128> = Vec::new();
    let mut j: usize = 0;
    while j < b_len
        invariant
            j <= b_len,
            b_len == b@.len(),
            prev@.len() == j,
            forall|k: int| 0 <= k < j ==> prev@[k] == k,
        decreases b_len - j,
    {
        prev.push(j as u128);
        j += 1;
    }
    prev.push(b_len as u128);
    proof {
        assert forall|k: int| 0 <= k <= b@.len() implies prev@[k] == edit_distance_ci(
            a@.take(0),
            b@.take(k),
        ) by {
            assert(a@.take(0).len() == 0);
            assert(b@.take(k).len() == k);
        }
    }

    let mut i: usize = 0;
    while i < a_len
        invariant
            i <= a_len,
            a_len == a@.len(),
            b_len == b@.len(),
            prev@.len() == b_len + 1,
            forall|k: int| 0 <= k <= b_len ==> prev@[k] == edit_distance_ci(
                a@.take(i as int),
                b@.take(k),
            ),
        decreases a_len - i,
    {
        let mut curr: Vec<u128> = Vec::new();
        proof {
            lemma_edit_distance_bound(a@.take(i + 1), b@.take(0));
        }
        curr.push((i + 1) as u128);
        proof {
            assert(a@.take(i + 1).len() == i + 1);
            assert(curr@[0] == edit_distance_ci(a@.take(i + 1), b@.take(0)));
        }
        let mut j: usize = 0;
        while j < b_len
            invariant
                j <= b_len,
                i < a_len,
                a_len == a@.len(),
                b_len == b@.len(),
                prev@.len() == b_len + 1,
                forall|k: int| 0 <= k <= b_len ==> prev@[k] == edit_distance_ci(
                    a@.take(i as int),
                    b@.take(k),
                ),
                curr@.len() == j + 1,
                forall|k: int| 0 <= k <= j ==> curr@[k] == edit_distance_ci(
                    a@.take(i + 1),
                    b@.take(k),
                ),
            decreases b_len - j,
        {
            proof {
                lemma_edit_distance_bound(a@.take(i as int), b@.take(j as int));
                lemma_edit_distance_bound(a@.take(i as int), b@.take(j + 1));
                lemma_edit_distance_bound(a@.take(i + 1), b@.take(j as int));
            }
            let cost: u128 = if lower_code_of(a[i]) == lower_code_of(b[j]) {
                0
            } else {
                1
            };
            let sub = prev[j] + cost;
            let del = prev[j + 1] + 1;
            let ins = curr[j] + 1;
            let best = if sub <= del && sub <= ins {
                sub
            } else if del <= ins {
                del
            } else {
                ins
            };
            curr.push(best);
            proof {
                let ap = a@.take(i + 1);
                let bp = b@.take(j + 1);
                assert(ap.len() == i + 1);
                assert(bp.len() == j + 1);
                assert(ap.drop_last() =~= a@.take(i as int));
                assert(bp.drop_last() =~= b@.take(j as int));
                assert(ap.last() == a@[i as int]);
                assert(bp.last() == b@[j as int]);
                assert(edit_distance_ci(ap, bp.drop_last()) == curr@[j as int]);
                assert(best == edit_distance_ci(ap, bp));
            }
            j += 1;
        }
        prev = curr;
        i += 1;
    }
    proof {
        assert(a@.take(a@.len() as int) =~= a@);
        assert(b@.take(b@.len() as int) =~= b@);
        lemma_edit_distance_bound(a@, b@);
    }
    prev[b_len] as usize
}

/// Decide whether two names are similar enough that one is a likely typo
/// of the other. Identical names are not similar; names equal up to case
/// always are; otherwise the case-insensitive edit distance must stay
/// within the length-scaled threshold.
pub fn is_similar(a: &str, b: &str) -> (r: bool)
    ensures
        r == spec_is_similar(a@, b@),
{
    let ca = chars_of(a);
    let cb = chars_of(b);
    if chars_eq(&ca, &cb) {
        return false;
    }
    let dist = edit_distance(&ca, &cb);
    let max_len = if ca.len() >= cb.len() {
        ca.len()
    } else {
        cb.len()
    };
    let threshold: usize = if max_len <= 4 {
        1
    } else if max_len <= 8 {
        2
    } else {
        3
    };
    dist <= threshold
}

} // verus!
