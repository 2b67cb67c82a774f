//! Edit-distance text similarity.
//!
//! Two texts are "alike" when their Levenshtein distance, expressed as a
//! percentage of the longer text's length, reaches a requested minimum.
//! The comparison is carried out exactly over integers: the acceptance test
//! `1 - distance / max_len >= min_percent / 100` is written as
//! `100 * (max_len - distance) >= min_percent * max_len`.

use vstd::prelude::*;

verus! {

use vstd::string::StrSliceExecFns;

/// The larger of two integers.
pub open spec fn max2(a: int, b: int) -> int {
    if a >= b {
        a
    } else {
        b
    }
}

/// The smallest of three integers.
pub open spec fn min3(a: int, b: int, c: int) -> int {
    if a <= b && a <= c {
        a
    } else if b <= c {
        b
    } else {
        c
    }
}

/// Levenshtein edit distance between two character sequences: the least
/// number of single-character insertions, deletions and substitutions that
/// turns one into the other.
pub open spec fn lev(a: Seq<char>, b: Seq<char>) -> int
    decreases a.len() + b.len(),
{
    if a.len() == 0 {
        b.len() as int
    } else if b.len() == 0 {
        a.len() as int
    } else {
        let del = lev(a.drop_last(), b) + 1;
        let ins = lev(a, b.drop_last()) + 1;
        let sub = lev(a.drop_last(), b.drop_last()) + if a.last() == b.last() {
            0int
        } else {
            1int
        };
        min3(del, ins, sub)
    }
}

/// The distance is non-negative, at least the length difference, and at most
/// the longer length.
pub proof fn lemma_lev_bounds(a: Seq<char>, b: Seq<char>)
    ensures
        lev(a, b) <= max2(a.len() as int, b.len() as int),
        lev(a, b) >= a.len() - b.len(),
        lev(a, b) >= b.len() - a.len(),
        lev(a, b) >= 0,
    decreases a.len() + b.len(),
{
    if a.len() == 0 || b.len() == 0 {
    } else {
        lemma_lev_bounds(a.drop_last(), b);
        lemma_lev_bounds(a, b.drop_last());
        lemma_lev_bounds(a.drop_last(), b.drop_last());
    }
}

/// The distance is symmetric in its two arguments.
pub proof fn lemma_lev_symmetric(a: Seq<char>, b: Seq<char>)
    ensures
        lev(a, b) == lev(b, a),
    decreases a.len() + b.len(),
{
    if a.len() == 0 || b.len() == 0 {
    } else {
        lemma_lev_symmetric(a.drop_last(), b);
        lemma_lev_symmetric(a, b.drop_last());
        lemma_lev_symmetric(a.drop_last(), b.drop_last());
    }
}

/// Dropping the last character of the second argument changes the distance
/// by at most one.
pub proof fn lemma_lev_drop_b(a: Seq<char>, b: Seq<char>)
    requires
        b.len() > 0,
    ensures
        lev(a, b.drop_last()) <= lev(a, b) + 1,
    decreases a.len() + b.len(),
{
    let bp = b.drop_last();
    if a.len() == 0 {
        assert(lev(a, bp) == bp.len());
        assert(lev(a, b) == b.len());
    } else if b.len() == 1 {
        assert(bp.len() == 0);
        assert(lev(a, bp) == a.len());
        lemma_lev_bounds(a, b);
    } else {
        let ap = a.drop_last();
        assert(bp.len() > 0);
        assert(lev(a, bp) <= lev(ap, bp) + 1);
        lemma_lev_drop_b(ap, b);
    }
}

/// Dropping the last character of the first argument changes the distance
/// by at most one.
pub proof fn lemma_lev_drop_a(a: Seq<char>, b: Seq<char>)
    requires
        a.len() > 0,
    ensures
        lev(a.drop_last(), b) <= lev(a, b) + 1,
{
    lemma_lev_symmetric(a, b);
    lemma_lev_symmetric(a.drop_last(), b);
    lemma_lev_drop_b(b, a);
}

/// When the two sequences end in the same character, the distance equals the
/// distance of the two shortened sequences.
pub proof fn lemma_lev_equal_last(a: Seq<char>, b: Seq<char>)
    requires
        a.len() > 0,
        b.len() > 0,
        a.last() == b.last(),
    ensures
        lev(a, b) == lev(a.drop_last(), b.drop_last()),
{
    lemma_lev_drop_b(a.drop_last(), b);
    lemma_lev_drop_a(a, b.drop_last());
}

/// Computes the Levenshtein distance between two strings, by the usual
/// single-row dynamic program over prefixes.
pub fn levenshtein(a: &str, b: &str) -> (d: usize)
    requires
        a@.len() < usize::MAX,
        b@.len() < usize::MAX,
    ensures
        d as int == lev(a@, b@),
{
    let av: Vec<char> = crate::text::chars_of(a);
    let bv: Vec<char> = crate::text::chars_of(b);
    let n: usize = av.len();
    let m: usize = bv.len();

    let mut costs: Vec<usize> = Vec::new();
    let mut j: usize = 0;
    while j <= m
        invariant
            m == b@.len(),
            m < usize::MAX,
            j <= m + 1,
            costs@.len() == j,
            forall|k: int| 0 <= k < j ==> costs@[k] == k,
        decreases m + 1 - j,
    {
        costs.push(j);
        j = j + 1;
    }
    proof {
        assert(a@.take(0) =~= Seq::<char>::empty());
        assert forall|k: int| 0 <= k <= m implies costs@[k] == lev(a@.take(0), b@.take(k)) by {
            assert(b@.take(k).len() == k);
        }
    }

    let mut i: usize = 0;
    while i < n
        invariant
            av@ == a@,
            bv@ == b@,
            n == a@.len(),
            m == b@.len(),
            n < usize::MAX,
            m < usize::MAX,
            i <= n,
            costs@.len() == m + 1,
            forall|k: int| 0 <= k <= m ==> costs@[k] == lev(a@.take(i as int), b@.take(k)),
        decreases n - i,
    {
        let mut last_cost: usize = i;
        costs.set(0, i + 1);
        proof {
            assert(b@.take(0) =~= Seq::<char>::empty());
            assert(lev(a@.take(i + 1), b@.take(0)) == i + 1);
            assert(lev(a@.take(i as int), b@.take(0)) == i);
        }
        let mut j2: usize = 0;
        while j2 < m
            invariant
                av@ == a@,
                bv@ == b@,
                n == a@.len(),
                m == b@.len(),
                n < usize::MAX,
                m < usize::MAX,
                i < n,
                j2 <= m,
                costs@.len() == m + 1,
                forall|k: int| 0 <= k <= j2 ==> costs@[k] == lev(a@.take(i + 1), b@.take(k)),
                forall|k: int| j2 < k <= m ==> costs@[k] == lev(a@.take(i as int), b@.take(k)),
                last_cost as int == lev(a@.take(i as int), b@.take(j2 as int)),
            decreases m - j2,
        {
            let ca: char = av[i];
            let cb: char = bv[j2];
            proof {
                assert(a@.take(i + 1).drop_last() =~= a@.take(i as int));
                assert(b@.take(j2 + 1).drop_last() =~= b@.take(j2 as int));
                assert(a@.take(i + 1).last() == a@[i as int]);
                assert(b@.take(j2 + 1).last() == b@[j2 as int]);
                lemma_lev_bounds(a@.take(i as int), b@.take(j2 as int));
                lemma_lev_bounds(a@.take(i as int), b@.take(j2 + 1));
                lemma_lev_bounds(a@.take(i + 1), b@.take(j2 as int));
            }
            let new_cost: usize;
            if ca == cb {
                proof {
                    lemma_lev_equal_last(a@.take(i + 1), b@.take(j2 + 1));
                }
                new_cost = last_cost;
            } else {
                let up: usize = costs[j2 + 1];
                let left: usize = costs[j2];
                let diag: usize = last_cost;
                let mut best: usize = up;
                if left < best {
                    best = left;
                }
                if diag < best {
                    best = diag;
                }
                new_cost = 1 + best;
            }
            proof {
                assert(new_cost as int == lev(a@.take(i + 1), b@.take(j2 + 1)));
            }
            last_cost = costs[j2 + 1];
            costs.set(j2 + 1, new_cost);
            j2 = j2 + 1;
        }
        i = i + 1;
    }
    proof {
        assert(a@.take(n as int) =~= a@);
        assert(b@.take(m as int) =~= b@);
    }
    costs[m]
}

/// The acceptance predicate of [`is_alike`]: two empty texts are always
/// alike; otherwise the similarity `1 - distance / max_len`, as an exact
/// rational, must reach `min_percent` percent.
pub open spec fn alike_spec(a: Seq<char>, b: Seq<char>, min_percent: int) -> bool {
    let l = max2(a.len() as int, b.len() as int);
    l == 0 || 100 * (l - lev(a, b)) >= min_percent * l
}

/// Checks if two texts are alike based on the percentage of the Levenshtein
/// distance relative to the longer text's length.
///
/// Returns `true` if the similarity percentage between `target` and
/// `comparison` is greater than or equal to `min_percent_to_reach`.
pub fn is_alike(target: &str, comparison: &str, min_percent_to_reach: isize) -> (r: bool)
    requires
        target@.len() < usize::MAX,
        comparison@.len() < usize::MAX,
    ensures
        r == alike_spec(target@, comparison@, min_percent_to_reach as int),
{
    let la: usize = target.unicode_len();
    let lb: usize = comparison.unicode_len();
    let l: usize = if la >= lb {
        la
    } else {
        lb
    };
    if l == 0 {
        return true;
    }
    let d: usize = levenshtein(target, comparison);
    proof {
        lemma_lev_bounds(target@, comparison@);
    }
    let num: u128 = 100u128 * ((l - d) as u128);
    proof {
        let mv = min_percent_to_reach as int;
        let lv = l as int;
        assert(-0x80000000000000000000000000000000 <= mv * lv
            <= 0x7fffffffffffffffffffffffffffffff) by (nonlinear_arith)
            requires
                -0x8000000000000000 <= mv <= 0x7fffffffffffffff,
                0 < lv < 0x10000000000000000,
        ;
    }
    let rhs: i128 = (min_percent_to_reach as i128) * (l as i128);
    (num as i128) >= rhs
}

/// Being alike does not depend on the order of the two texts.
pub proof fn lemma_alike_symmetric(a: Seq<char>, b: Seq<char>, min_percent: int)
    ensures
        alike_spec(a, b, min_percent) == alike_spec(b, a, min_percent),
{
    lemma_lev_symmetric(a, b);
}

/// A text has distance zero to itself.
pub proof fn lemma_lev_self(a: Seq<char>)
    ensures
        lev(a, a) == 0,
    decreases a.len(),
{
    if a.len() > 0 {
        lemma_lev_self(a.drop_last());
        lemma_lev_equal_last(a, a);
    }
}

/// Every text reaches full similarity with itself, at any threshold up to
/// one hundred percent.
pub proof fn lemma_alike_self(a: Seq<char>, min_percent: int)
    requires
        min_percent <= 100,
    ensures
        alike_spec(a, a, min_percent),
{
    lemma_lev_self(a);
    if a.len() > 0 {
        assert(100 * (a.len() as int) >= min_percent * (a.len() as int)) by (nonlinear_arith)
            requires
                min_percent <= 100,
                a.len() > 0,
        ;
    }
}

/// Texts that disagree everywhere (distance equal to the longer length)
/// never reach a positive similarity threshold.
pub proof fn lemma_alike_total_mismatch(a: Seq<char>, b: Seq<char>, min_percent: int)
    requires
        max2(a.len() as int, b.len() as int) > 0,
        lev(a, b) == max2(a.len() as int, b.len() as int),
        min_percent >= 1,
    ensures
        !alike_spec(a, b, min_percent),
{
    let l = max2(a.len() as int, b.len() as int);
    assert(min_percent * l >= 1 * l) by (nonlinear_arith)
        requires
            min_percent >= 1,
            l > 0,
    ;
}

} // verus!
