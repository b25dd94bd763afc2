//! The aligner: scores an utterance against every corpus line and returns
//! the top-k candidates, best first.
//!
//! Ranking is total over candidates with distinct line indices: higher
//! similarity first, ties broken by the earlier script line.

use vstd::prelude::*;

use crate::script::{ScriptContainer, ScriptLineView};
use crate::similarity::{lemma_score_bounds, score, score_den, score_num, Score};

verus! {

/// One scored pairing of the utterance with a corpus line.
#[derive(Debug, Clone, Copy, PartialEq, Eq, Structural)]
pub struct Candidate {
    pub index: usize,
    pub score: Score,
}

/// `c` is the candidate the aligner builds for line `c.index` of `corpus`
/// when matching `utt`.
pub open spec fn is_candidate_for(c: Candidate, utt: Seq<char>, corpus: Seq<ScriptLineView>) -> bool {
    &&& c.index < corpus.len()
    &&& c.score.num == score_num(utt, corpus[c.index as int].text)
    &&& c.score.den == score_den(utt, corpus[c.index as int].text)
}

/// Strict ranking order: `a` comes before `b` when its score is strictly
/// higher (compared as fractions, by cross-multiplication), or the scores
/// are equal and `a` points at the earlier script line.
pub open spec fn ranks_before(a: Candidate, b: Candidate) -> bool {
    ||| a.score.num * b.score.den > b.score.num * a.score.den
    ||| (a.score.num * b.score.den == b.score.num * a.score.den && a.index < b.index)
}

/// `c` ranks before the candidate that line `m` of `corpus` would yield.
pub open spec fn outranks_line(
    c: Candidate,
    utt: Seq<char>,
    corpus: Seq<ScriptLineView>,
    m: int,
) -> bool {
    let mn = score_num(utt, corpus[m].text);
    let md = score_den(utt, corpus[m].text);
    ||| c.score.num * md > mn * c.score.den
    ||| (c.score.num * md == mn * c.score.den && c.index < m)
}

/// The candidates stand best first: every earlier entry ranks before every
/// later one.
pub open spec fn sorted_ranked(r: Seq<Candidate>) -> bool {
    forall|i: int, j: int| 0 <= i < j < r.len() ==> ranks_before(r[i], r[j])
}

/// Line `m` appears among the candidates.
pub open spec fn in_result(r: Seq<Candidate>, m: int) -> bool {
    exists|i: int| 0 <= i < r.len() && r[i].index == m
}

/// Machine bound: every similarity denominator fits in a `u64`.
pub open spec fn texts_fit(utt: Seq<char>, corpus: Seq<ScriptLineView>) -> bool {
    forall|i: int| 0 <= i < corpus.len() ==> utt.len() + #[trigger] corpus[i].text.len()
        <= u64::MAX
}

proof fn lemma_frac_ge_trans(an: int, ad: int, bn: int, bd: int, cn: int, cd: int)
    requires
        ad >= 1,
        bd >= 1,
        cd >= 1,
        an * bd >= bn * ad,
        bn * cd >= cn * bd,
    ensures
        an * cd >= cn * ad,
        an * bd > bn * ad ==> an * cd > cn * ad,
        bn * cd > cn * bd ==> an * cd > cn * ad,
{
    assert(an * cd >= cn * ad && (an * bd > bn * ad ==> an * cd > cn * ad) && (bn * cd > cn * bd
        ==> an * cd > cn * ad)) by (nonlinear_arith)
        requires
            ad >= 1,
            bd >= 1,
            cd >= 1,
            an * bd >= bn * ad,
            bn * cd >= cn * bd,
    ;
}

/// Ranking is transitive on candidates with well-formed scores.
pub proof fn lemma_ranks_before_trans(a: Candidate, b: Candidate, c: Candidate)
    requires
        a.score.den >= 1,
        b.score.den >= 1,
        c.score.den >= 1,
        ranks_before(a, b),
        ranks_before(b, c),
    ensures
        ranks_before(a, c),
{
    lemma_frac_ge_trans(
        a.score.num as int,
        a.score.den as int,
        b.score.num as int,
        b.score.den as int,
        c.score.num as int,
        c.score.den as int,
    );
}

/// Whoever ranks before a candidate also ranks before every line that the
/// candidate outranks.
pub proof fn lemma_outranks_trans(
    a: Candidate,
    b: Candidate,
    utt: Seq<char>,
    corpus: Seq<ScriptLineView>,
    m: int,
)
    requires
        a.score.den >= 1,
        b.score.den >= 1,
        0 <= m < corpus.len(),
        ranks_before(a, b),
        outranks_line(b, utt, corpus, m),
    ensures
        outranks_line(a, utt, corpus, m),
{
    lemma_score_bounds(utt, corpus[m].text);
    lemma_frac_ge_trans(
        a.score.num as int,
        a.score.den as int,
        b.score.num as int,
        b.score.den as int,
        score_num(utt, corpus[m].text) as int,
        score_den(utt, corpus[m].text) as int,
    );
}

fn ranks_before_exec(a: &Candidate, b: &Candidate) -> (r: bool)
    ensures
        r == ranks_before(*a, *b),
{
    proof {
        crate::similarity::lemma_mul_u64_fits(a.score.num, b.score.den);
        crate::similarity::lemma_mul_u64_fits(b.score.num, a.score.den);
    }
    let l = (a.score.num as u128) * (b.score.den as u128);
    let rgt = (b.score.num as u128) * (a.score.den as u128);
    l > rgt || (l == rgt && a.index < b.index)
}

/// Where `cand` belongs in the rank-sorted `r`: past every entry that
/// ranks before it.
fn insertion_point(r: &Vec<Candidate>, cand: &Candidate) -> (pos: usize)
    ensures
        pos <= r@.len(),
        forall|e: int| 0 <= e < pos ==> ranks_before(#[trigger] r@[e], *cand),
        pos < r@.len() ==> !ranks_before(r@[pos as int], *cand),
{
    let mut pos: usize = 0;
    loop
        invariant
            pos <= r@.len(),
            forall|e: int| 0 <= e < pos ==> ranks_before(#[trigger] r@[e], *cand),
        decreases r@.len() - pos,
    {
        if pos == r.len() {
            return pos;
        }
        if !ranks_before_exec(&r[pos], cand) {
            return pos;
        }
        pos = pos + 1;
    }
}

/// Scores `utterance` against every line of `corpus` and returns the top
/// `k` candidates, best first.
///
/// The result has length `min(k, corpus len)`, so it is empty exactly when
/// the corpus is empty or `k` is 0, and never empty for a non-empty corpus
/// and `k >= 1`. Every returned candidate carries the exact similarity of
/// the utterance with its line, the sequence is strictly rank-descending,
/// its line indices are distinct, and every line left out is outranked by
/// every candidate returned.
pub fn align(utterance: &str, corpus: &ScriptContainer, k: usize) -> (r: Vec<Candidate>)
    requires
        texts_fit(utterance@, corpus@),
    ensures
        r@.len() == if corpus@.len() < k {
            corpus@.len()
        } else {
            k as nat
        },
        k >= 1 && corpus@.len() >= 1 ==> r@.len() >= 1,
        forall|i: int| 0 <= i < r@.len() ==> is_candidate_for(#[trigger] r@[i], utterance@, corpus@),
        sorted_ranked(r@),
        forall|i: int, j: int| 0 <= i < j < r@.len() ==> r@[i].index != r@[j].index,
        forall|m: int|
            0 <= m < corpus@.len() && !in_result(r@, m) ==> forall|i: int|
                0 <= i < r@.len() ==> outranks_line(#[trigger] r@[i], utterance@, corpus@, m),
{
    let ghost utt = utterance@;
    let ghost cv = corpus@;
    let n = corpus.len();
    let mut r: Vec<Candidate> = Vec::new();
    let mut m: usize = 0;
    while m < n
        invariant
            n == cv.len(),
            texts_fit(utt, cv),
            utt == utterance@,
            cv == corpus@,
            m <= n,
            r@.len() == if m < k {
                m as nat
            } else {
                k as nat
            },
            forall|i: int| 0 <= i < r@.len() ==> is_candidate_for(#[trigger] r@[i], utt, cv),
            forall|i: int| 0 <= i < r@.len() ==> #[trigger] r@[i].index < m,
            sorted_ranked(r@),
            forall|i: int, j: int| 0 <= i < j < r@.len() ==> r@[i].index != r@[j].index,
            forall|mm: int| 0 <= mm < m ==> in_result(r@, mm) || r@.len() == k as nat,
            forall|mm: int|
                0 <= mm < m && !in_result(r@, mm) ==> forall|i: int|
                    0 <= i < r@.len() ==> outranks_line(#[trigger] r@[i], utt, cv, mm),
        decreases n - m,
    {
        let line = corpus.line_at(m);
        let sc = score(utterance, line.get_text());
        let cand = Candidate { index: m, score: sc };
        proof {
            assert(is_candidate_for(cand, utt, cv));
            lemma_score_bounds(utt, cv[m as int].text);
        }
        let ghost r0 = r@;
        let pos = insertion_point(&r, &cand);
        proof {
            // The new candidate ranks before everything from `pos` on:
            // ranking is total on distinct indices, and the tail is sorted.
            assert forall|j: int| pos <= j < r0.len() implies ranks_before(
                cand,
                #[trigger] r0[j],
            ) by {
                assert(is_candidate_for(r0[j], utt, cv));
                lemma_score_bounds(utt, cv[r0[j].index as int].text);
                if j == pos {
                    assert(r0[j].index < m && cand.index == m);
                    assert(ranks_before(cand, r0[j]));
                } else {
                    lemma_score_bounds(utt, cv[r0[pos as int].index as int].text);
                    assert(ranks_before(cand, r0[pos as int]));
                    lemma_ranks_before_trans(cand, r0[pos as int], r0[j]);
                }
            }
        }
        r.insert(pos, cand);
        let ghost r1 = r@;
        proof {
            assert(r1 == r0.insert(pos as int, cand));
            assert(r1.len() == r0.len() + 1);
            assert(r1[pos as int] == cand);
            assert(forall|i: int| 0 <= i < pos ==> r1[i] == r0[i]);
            assert(forall|i: int| pos < i < r1.len() ==> r1[i] == r0[i - 1]);
            assert(sorted_ranked(r1)) by {
                assert forall|i: int, j: int| 0 <= i < j < r1.len() implies ranks_before(
                    r1[i],
                    r1[j],
                ) by {
                    if j < pos {
                    } else if i == pos {
                        assert(ranks_before(cand, r0[j - 1]));
                    } else if j == pos {
                        assert(ranks_before(r0[i], cand));
                    } else if i < pos && j > pos {
                        assert(ranks_before(r0[i], r0[j - 1]));
                    } else {
                        assert(ranks_before(r0[i - 1], r0[j - 1]));
                    }
                }
            }
            assert(forall|i: int| 0 <= i < r1.len() ==> is_candidate_for(
                #[trigger] r1[i],
                utt,
                cv,
            ));
            assert(forall|i: int| 0 <= i < r1.len() ==> #[trigger] r1[i].index < m + 1);
            assert forall|i: int, j: int| 0 <= i < j < r1.len() implies r1[i].index
                != r1[j].index by {
                assert(ranks_before(r1[i], r1[j]) && ranks_before(r1[j], r1[i]) ==> false);
                if r1[i].index == r1[j].index {
                    assert(!ranks_before(r1[i], r1[j]));
                }
            }
            // Old members stay members after the insert.
            assert forall|mm: int| in_result(r0, mm) implies in_result(r1, mm) by {
                let i = choose|i: int| 0 <= i < r0.len() && r0[i].index == mm;
                if i < pos {
                    assert(r1[i].index == mm);
                } else {
                    assert(r1[i + 1].index == mm);
                }
            }
            assert(in_result(r1, m as int)) by {
                assert(r1[pos as int].index == m);
            }
        }
        if r.len() > k {
            let ghost last = r1[r1.len() - 1];
            let _dropped = r.pop();
            proof {
                assert(r@ =~= r1.drop_last());
                assert(r@.len() == k as nat);
                assert(forall|i: int| 0 <= i < r@.len() ==> r@[i] == r1[i]);
                assert(is_candidate_for(last, utt, cv));
                // Members that are not the dropped line were members before
                // the insert too.
                assert forall|mm: int| in_result(r1, mm) && mm != last.index implies in_result(
                    r@,
                    mm,
                ) by {
                    let j = choose|j: int| 0 <= j < r1.len() && r1[j].index == mm;
                    assert(j < r1.len() - 1);
                    assert(r@[j].index == mm);
                }
                // Everything kept ranks before the dropped candidate, so
                // the dropped line is outranked by the whole result.
                assert forall|i: int| 0 <= i < r@.len() implies outranks_line(
                    #[trigger] r@[i],
                    utt,
                    cv,
                    last.index as int,
                ) by {
                    assert(ranks_before(r1[i], last));
                }
                // And lines that were outranked before stay outranked: the
                // only new member is `cand`, which ranks before an old
                // member whenever any old member is left.
                assert forall|mm: int|
                    0 <= mm < m + 1 && !in_result(r@, mm) implies forall|i: int|
                        0 <= i < r@.len() ==> outranks_line(#[trigger] r@[i], utt, cv, mm) by {
                    if mm != last.index {
                        assert(!in_result(r1, mm));
                        assert(!in_result(r0, mm));
                        assert(mm != m);
                        assert forall|i: int| 0 <= i < r@.len() implies outranks_line(
                            #[trigger] r@[i],
                            utt,
                            cv,
                            mm,
                        ) by {
                            if i == pos {
                                assert(r@[i] == cand);
                                assert(pos < r1.len() - 1);
                                assert(r1[pos + 1] == r0[pos as int]);
                                assert(outranks_line(r0[pos as int], utt, cv, mm));
                                lemma_score_bounds(utt, cv[r0[pos as int].index as int].text);
                                lemma_outranks_trans(cand, r0[pos as int], utt, cv, mm);
                            } else if i < pos {
                                assert(r@[i] == r0[i]);
                                assert(outranks_line(r0[i], utt, cv, mm));
                            } else {
                                assert(r@[i] == r0[i - 1]);
                                assert(outranks_line(r0[i - 1], utt, cv, mm));
                            }
                        }
                    }
                }
                assert(forall|mm: int| 0 <= mm < m + 1 ==> in_result(r@, mm) || r@.len()
                    == k as nat);
            }
        } else {
            proof {
                assert(r1.len() <= k);
                assert(r0.len() < k);
                // The result was not full, so every processed line was (and
                // stays) a member; nothing is excluded yet.
                assert forall|mm: int| 0 <= mm < m + 1 implies in_result(r1, mm) by {
                    if mm < m {
                        assert(in_result(r0, mm));
                        assert(in_result(r1, mm));
                    }
                }
            }
        }
        m = m + 1;
    }
    r
}

} // verus!
