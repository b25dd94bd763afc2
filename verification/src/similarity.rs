//! Character-overlap similarity between two strings.
//!
//! The metric is the Sorensen-Dice coefficient over the multisets of
//! characters of the two strings: twice the number of characters they share
//! (counted with multiplicity) divided by the sum of their lengths. The
//! result is an exact fraction in [0, 1]; two empty strings score 1, an
//! empty string against a non-empty one scores 0. The metric is symmetric.
//! The rest of the library depends only on this module's contracts, so the
//! metric can be swapped without touching the callers.

use vstd::multiset::Multiset;
use vstd::prelude::*;

verus! {

/// Index of the first occurrence of `c` in `b`, or -1 when `c` does not
/// occur in `b`.
pub open spec fn first_occurrence(b: Seq<char>, c: char) -> int
    decreases b.len(),
{
    if b.len() == 0 {
        -1
    } else if b[0] == c {
        0
    } else if first_occurrence(b.drop_first(), c) < 0 {
        -1
    } else {
        first_occurrence(b.drop_first(), c) + 1
    }
}

/// Number of characters shared by `a` and `b`, counted with multiplicity:
/// each character of `a` consumes one still-unconsumed occurrence of the
/// same character in `b`, when one is left. This equals the size of the
/// intersection of the two character multisets.
pub open spec fn common_count(a: Seq<char>, b: Seq<char>) -> nat
    decreases a.len(),
{
    if a.len() == 0 {
        0
    } else if first_occurrence(b, a[0]) >= 0 {
        1 + common_count(a.drop_first(), b.remove(first_occurrence(b, a[0])))
    } else {
        common_count(a.drop_first(), b)
    }
}

/// Numerator of the similarity of `a` and `b`.
pub open spec fn score_num(a: Seq<char>, b: Seq<char>) -> nat {
    if a.len() + b.len() == 0 {
        1
    } else {
        2 * common_count(a, b)
    }
}

/// Denominator of the similarity of `a` and `b`; always at least 1.
pub open spec fn score_den(a: Seq<char>, b: Seq<char>) -> nat {
    if a.len() + b.len() == 0 {
        1
    } else {
        a.len() + b.len()
    }
}

/// A similarity value, kept as the exact fraction `num / den`.
#[derive(Debug, Clone, Copy, PartialEq, Eq, Structural)]
pub struct Score {
    pub num: u64,
    pub den: u64,
}

impl Score {
    /// A well-formed score is a fraction in [0, 1].
    pub open spec fn wf(self) -> bool {
        1 <= self.den && self.num <= self.den
    }

    /// `self >= other` as fractions, by cross-multiplication.
    pub open spec fn spec_ge(self, other: Score) -> bool {
        self.num * other.den >= other.num * self.den
    }

    pub fn ge(&self, other: &Score) -> (r: bool)
        ensures
            r == self.spec_ge(*other),
    {
        proof {
            lemma_mul_u64_fits(self.num, other.den);
            lemma_mul_u64_fits(other.num, self.den);
        }
        (self.num as u128) * (other.den as u128) >= (other.num as u128) * (self.den as u128)
    }

    /// Whether the fraction equals 1.
    pub open spec fn is_one(self) -> bool {
        self.num == self.den
    }
}

pub(crate) proof fn lemma_mul_u64_fits(x: u64, y: u64)
    ensures
        (x as int) * (y as int) <= u128::MAX,
{
    assert((x as int) * (y as int) <= (u64::MAX as int) * (u64::MAX as int)) by (nonlinear_arith)
        requires
            0 <= x <= u64::MAX,
            0 <= y <= u64::MAX,
    ;
}

proof fn lemma_first_occurrence_in_range(b: Seq<char>, c: char)
    ensures
        first_occurrence(b, c) == -1 || (0 <= first_occurrence(b, c) < b.len() && b[
            first_occurrence(b, c)
        ] == c),
    decreases b.len(),
{
    if b.len() > 0 && b[0] != c {
        lemma_first_occurrence_in_range(b.drop_first(), c);
    }
}

proof fn lemma_first_occurrence_found(b: Seq<char>, c: char, j: int)
    requires
        0 <= j < b.len(),
        b[j] == c,
        forall|k: int| 0 <= k < j ==> b[k] != c,
    ensures
        first_occurrence(b, c) == j,
    decreases j,
{
    if j > 0 {
        assert(forall|k: int| 0 <= k < j - 1 ==> b.drop_first()[k] != c);
        lemma_first_occurrence_found(b.drop_first(), c, j - 1);
    }
}

proof fn lemma_first_occurrence_missing(b: Seq<char>, c: char)
    requires
        forall|k: int| 0 <= k < b.len() ==> b[k] != c,
    ensures
        first_occurrence(b, c) == -1,
    decreases b.len(),
{
    if b.len() > 0 {
        assert(forall|k: int| 0 <= k < b.len() - 1 ==> b.drop_first()[k] != c);
        lemma_first_occurrence_missing(b.drop_first(), c);
    }
}

proof fn lemma_first_occurrence_absent(b: Seq<char>, c: char)
    requires
        first_occurrence(b, c) == -1,
    ensures
        forall|k: int| 0 <= k < b.len() ==> b[k] != c,
    decreases b.len(),
{
    if b.len() > 0 {
        lemma_first_occurrence_absent(b.drop_first(), c);
        assert forall|k: int| 0 <= k < b.len() implies b[k] != c by {
            if k > 0 {
                assert(b.drop_first()[k - 1] == b[k]);
            }
        }
    }
}

/// The greedy count is exactly the size of the intersection of the two
/// character multisets.
pub proof fn lemma_common_count_is_intersection(a: Seq<char>, b: Seq<char>)
    ensures
        common_count(a, b) == a.to_multiset().intersection_with(b.to_multiset()).len(),
    decreases a.len(),
{
    broadcast use vstd::seq_lib::group_to_multiset_ensures;

    let am = a.to_multiset();
    let bm = b.to_multiset();
    let ix = am.intersection_with(bm);
    if a.len() == 0 {
        assert forall|x: char| ix.count(x) == 0 by {
            vstd::multiset::lemma_intersection_count(am, bm, x);
            assert(!a.contains(x));
        }
        assert(ix =~= Multiset::<char>::empty());
    } else {
        let c = a[0];
        let a1 = a.drop_first();
        assert(a.contains(c)) by {
            assert(0 <= 0 < a.len() && a[0] == c);
        }
        assert(a.remove(0) =~= a1);
        assert(a.remove(0).to_multiset() =~= am.remove(c));
        let fo = first_occurrence(b, c);
        lemma_first_occurrence_in_range(b, c);
        if fo >= 0 {
            let b1 = b.remove(fo);
            assert(b.contains(c)) by {
                assert(0 <= fo < b.len() && b[fo] == c);
            }
            assert(b.remove(fo).to_multiset() =~= bm.remove(c));
            lemma_common_count_is_intersection(a1, b1);
            let ix1 = a1.to_multiset().intersection_with(b1.to_multiset());
            assert(am.count(c) > 0);
            assert(bm.count(c) > 0);
            assert forall|x: char| ix1.insert(c).count(x) == ix.count(x) by {
                vstd::multiset::lemma_intersection_count(am.remove(c), bm.remove(c), x);
                vstd::multiset::lemma_intersection_count(am, bm, x);
            }
            assert(ix =~= ix1.insert(c));
        } else {
            lemma_first_occurrence_absent(b, c);
            assert(!b.contains(c));
            assert(bm.count(c) == 0);
            lemma_common_count_is_intersection(a1, b);
            let ix1 = a1.to_multiset().intersection_with(bm);
            assert forall|x: char| ix1.count(x) == ix.count(x) by {
                vstd::multiset::lemma_intersection_count(am.remove(c), bm, x);
                vstd::multiset::lemma_intersection_count(am, bm, x);
            }
            assert(ix =~= ix1);
        }
    }
}

/// The metric is symmetric: the shared-character count, and with it the
/// whole similarity score, is the same in either order.
pub proof fn lemma_score_symmetric(a: Seq<char>, b: Seq<char>)
    ensures
        common_count(a, b) == common_count(b, a),
        score_num(a, b) == score_num(b, a),
        score_den(a, b) == score_den(b, a),
{
    lemma_common_count_is_intersection(a, b);
    lemma_common_count_is_intersection(b, a);
    let am = a.to_multiset();
    let bm = b.to_multiset();
    assert forall|x: char|
        am.intersection_with(bm).count(x) == bm.intersection_with(am).count(x) by {
        vstd::multiset::lemma_intersection_count(am, bm, x);
        vstd::multiset::lemma_intersection_count(bm, am, x);
    }
    assert(am.intersection_with(bm) =~= bm.intersection_with(am));
}

/// The shared-character count never exceeds either string's length.
pub proof fn lemma_common_count_bounds(a: Seq<char>, b: Seq<char>)
    ensures
        common_count(a, b) <= a.len(),
        common_count(a, b) <= b.len(),
    decreases a.len(),
{
    if a.len() > 0 {
        let fo = first_occurrence(b, a[0]);
        lemma_first_occurrence_in_range(b, a[0]);
        if fo >= 0 {
            lemma_common_count_bounds(a.drop_first(), b.remove(fo));
        } else {
            lemma_common_count_bounds(a.drop_first(), b);
        }
    }
}

/// Every string shares all its characters with itself.
pub proof fn lemma_common_count_self(a: Seq<char>)
    ensures
        common_count(a, a) == a.len(),
    decreases a.len(),
{
    if a.len() > 0 {
        assert(first_occurrence(a, a[0]) == 0);
        assert(a.remove(0) =~= a.drop_first());
        lemma_common_count_self(a.drop_first());
    }
}

/// A string's similarity with itself is 1, and every similarity value lies
/// in [0, 1]: the numerator never exceeds the denominator, which is
/// positive.
pub proof fn lemma_score_bounds(a: Seq<char>, b: Seq<char>)
    ensures
        score_den(a, b) >= 1,
        score_num(a, b) <= score_den(a, b),
        score_num(a, a) == score_den(a, a),
{
    lemma_common_count_bounds(a, b);
    lemma_common_count_self(a);
}

/// The characters of `s`, in order.
fn chars_of(s: &str) -> (r: Vec<char>)
    ensures
        r@ == s@,
{
    let n = s.unicode_len();
    let mut v: Vec<char> = Vec::new();
    let mut i: usize = 0;
    while i < n
        invariant
            i <= n,
            n == s@.len(),
            v@ =~= s@.take(i as int),
        decreases n - i,
    {
        v.push(s.get_char(i));
        proof {
            assert(v@ =~= s@.take(i + 1 as int));
        }
        i = i + 1;
    }
    proof {
        assert(v@ =~= s@);
    }
    v
}

fn find_first(v: &Vec<char>, c: char) -> (r: Option<usize>)
    ensures
        match r {
            Some(j) => j < v@.len() && j as int == first_occurrence(v@, c),
            None => first_occurrence(v@, c) == -1,
        },
{
    let mut j: usize = 0;
    while j < v.len()
        invariant
            j <= v@.len(),
            forall|k: int| 0 <= k < j ==> v@[k] != c,
        decreases v@.len() - j,
    {
        if v[j] == c {
            proof {
                lemma_first_occurrence_found(v@, c, j as int);
            }
            return Some(j);
        }
        j = j + 1;
    }
    proof {
        lemma_first_occurrence_missing(v@, c);
    }
    None
}

fn common_count_exec(a: &Vec<char>, b: &Vec<char>) -> (r: usize)
    ensures
        r == common_count(a@, b@),
{
    let mut rem: Vec<char> = Vec::new();
    let mut i: usize = 0;
    while i < b.len()
        invariant
            i <= b@.len(),
            rem@ =~= b@.take(i as int),
        decreases b@.len() - i,
    {
        rem.push(b[i]);
        proof {
            assert(rem@ =~= b@.take(i + 1 as int));
        }
        i = i + 1;
    }
    proof {
        assert(rem@ =~= b@);
    }
    let mut count: usize = 0;
    i = 0;
    proof {
        assert(a@.skip(0) =~= a@);
    }
    while i < a.len()
        invariant
            i <= a@.len(),
            count <= i,
            count + common_count(a@.skip(i as int), rem@) == common_count(a@, b@),
        decreases a@.len() - i,
    {
        let ghost s = a@.skip(i as int);
        let c = a[i];
        proof {
            assert(s[0] == a@[i as int]);
            assert(s.drop_first() =~= a@.skip(i + 1 as int));
        }
        match find_first(&rem, c) {
            Some(j) => {
                proof {
                    lemma_first_occurrence_in_range(rem@, c);
                }
                rem.remove(j);
                count = count + 1;
            },
            None => {},
        }
        i = i + 1;
    }
    proof {
        assert(a@.skip(a@.len() as int) =~= Seq::<char>::empty());
    }
    count
}

/// Similarity of `a` and `b`: the Sorensen-Dice coefficient over character
/// multisets, as an exact fraction. The result is well-formed (a fraction
/// in [0, 1]) and equals 1 whenever `a` and `b` hold the same characters in
/// the same order.
pub fn score(a: &str, b: &str) -> (r: Score)
    requires
        a@.len() + b@.len() <= u64::MAX,
    ensures
        r.num == score_num(a@, b@),
        r.den == score_den(a@, b@),
        r.wf(),
        a@ == b@ ==> r.is_one(),
{
    let av = chars_of(a);
    let bv = chars_of(b);
    proof {
        lemma_score_bounds(a@, b@);
        if a@ == b@ {
            lemma_common_count_self(a@);
        }
    }
    if av.len() == 0 && bv.len() == 0 {
        Score { num: 1, den: 1 }
    } else {
        let c = common_count_exec(&av, &bv);
        Score { num: 2 * (c as u64), den: (av.len() as u64) + (bv.len() as u64) }
    }
}

} // verus!
