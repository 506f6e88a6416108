//! The step of one group of a beam search, as mathematics: the ways a group
//! can go on, their order, and the best of them.
//!
//! A group is the handful of hypotheses kept for one prompt. A step looks at
//! every candidate: each unfinished hypothesis followed by each token,
//! scored by the sum of the hypothesis and the token, and each finished
//! hypothesis as it stands. The best candidates, best first, are the group's
//! ranking, and the hypotheses they stand for are the group after the step.

use vstd::prelude::*;

verus! {

/// One hypothesis as plain mathematics.
pub struct HypothesisView {
    /// Its tokens, prompt first.
    pub tokens: Seq<usize>,
    /// The sum of the scores of the tokens it has taken.
    pub score: int,
    /// Whether it has taken the end-of-sequence token.
    pub finished: bool,
}

/// Whether `c` is a way for a group to go on. A candidate `(h, t)` is
/// hypothesis `h` followed by token `t` of its row, or a finished hypothesis
/// `h` as it stands, which is written with `t == 0`.
pub open spec fn is_candidate(hyps: Seq<HypothesisView>, rows: Seq<Seq<i64>>, c: (usize, usize))
    -> bool {
    &&& c.0 < hyps.len()
    &&& if hyps[c.0 as int].finished {
        c.1 == 0
    } else {
        c.1 < rows[c.0 as int].len()
    }
}

/// The score of a candidate.
pub open spec fn candidate_score(
    hyps: Seq<HypothesisView>,
    rows: Seq<Seq<i64>>,
    c: (usize, usize),
) -> int {
    if hyps[c.0 as int].finished {
        hyps[c.0 as int].score
    } else {
        hyps[c.0 as int].score + rows[c.0 as int][c.1 as int]
    }
}

/// Whether candidate `a` comes before candidate `b`: it has the larger
/// score, or the same score and the earlier hypothesis, or the same score
/// and hypothesis and the smaller token.
pub open spec fn outranks(
    hyps: Seq<HypothesisView>,
    rows: Seq<Seq<i64>>,
    a: (usize, usize),
    b: (usize, usize),
) -> bool {
    let sa = candidate_score(hyps, rows, a);
    let sb = candidate_score(hyps, rows, b);
    sa > sb || (sa == sb && (a.0 < b.0 || (a.0 == b.0 && a.1 < b.1)))
}

/// The hypothesis that a candidate stands for.
pub open spec fn grown(
    hyps: Seq<HypothesisView>,
    rows: Seq<Seq<i64>>,
    c: (usize, usize),
    eos_token: usize,
) -> HypothesisView {
    if hyps[c.0 as int].finished {
        hyps[c.0 as int]
    } else {
        HypothesisView {
            tokens: hyps[c.0 as int].tokens.push(c.1),
            score: hyps[c.0 as int].score + rows[c.0 as int][c.1 as int],
            finished: c.1 == eos_token,
        }
    }
}

/// Whether `picks` are the best candidates of a group, best first: as many
/// as `width` allows, each before the next, and every candidate left out
/// behind the last of them.
pub open spec fn is_ranking(
    hyps: Seq<HypothesisView>,
    rows: Seq<Seq<i64>>,
    picks: Seq<(usize, usize)>,
    width: nat,
) -> bool {
    &&& picks.len() <= width
    &&& forall|j: int| 0 <= j < picks.len() ==> is_candidate(hyps, rows, #[trigger] picks[j])
    &&& forall|i: int, j: int|
        0 <= i < j < picks.len() ==> outranks(hyps, rows, #[trigger] picks[i], #[trigger] picks[j])
    &&& forall|c: (usize, usize)| #[trigger]
        is_candidate(hyps, rows, c) ==> picks.contains(c) || (picks.len() == width && (width == 0
            || outranks(hyps, rows, picks.last(), c)))
}

/// The best `width` candidates of a group, best first.
pub open spec fn ranking(hyps: Seq<HypothesisView>, rows: Seq<Seq<i64>>, width: nat) -> Seq<
    (usize, usize),
> {
    choose|picks: Seq<(usize, usize)>| is_ranking(hyps, rows, picks, width)
}

/// The hypotheses of a group after one step: its best `width` candidates,
/// best first.
pub open spec fn group_step(
    hyps: Seq<HypothesisView>,
    rows: Seq<Seq<i64>>,
    width: nat,
    eos_token: usize,
) -> Seq<HypothesisView> {
    let picks = ranking(hyps, rows, width);
    Seq::new(picks.len(), |j: int| grown(hyps, rows, picks[j], eos_token))
}

/// For every hypothesis of a group after one step, the hypothesis that it
/// grew from.
pub open spec fn group_parents(hyps: Seq<HypothesisView>, rows: Seq<Seq<i64>>, width: nat) -> Seq<
    usize,
> {
    let picks = ranking(hyps, rows, width);
    Seq::new(picks.len(), |j: int| picks[j].0)
}

/// The candidates of a group.
pub open spec fn candidates(hyps: Seq<HypothesisView>, rows: Seq<Seq<i64>>) -> Set<(usize, usize)> {
    Set::new(|c: (usize, usize)| is_candidate(hyps, rows, c))
}

/// Every group has a ranking of every width: `ranking` is one.
pub proof fn lemma_ranking_exists(hyps: Seq<HypothesisView>, rows: Seq<Seq<i64>>, width: nat)
    ensures
        is_ranking(hyps, rows, ranking(hyps, rows, width), width),
    decreases width,
{
    if width == 0 {
        assert(is_ranking(hyps, rows, Seq::<(usize, usize)>::empty(), 0));
    } else {
        let narrow = (width - 1) as nat;
        lemma_ranking_exists(hyps, rows, narrow);
        let p = ranking(hyps, rows, narrow);
        let rest = Set::new(|c: (usize, usize)| is_candidate(hyps, rows, c) && !p.contains(c));
        lemma_candidates_finite(hyps, rows);
        vstd::set_lib::lemma_len_subset(rest, candidates(hyps, rows));
        if rest.len() == 0 {
            assert forall|c: (usize, usize)| #[trigger]
                is_candidate(hyps, rows, c) implies p.contains(c) by {
                if !p.contains(c) {
                    assert(rest.contains(c));
                    rest.lemma_len0_is_empty();
                }
            }
            assert(is_ranking(hyps, rows, p, width));
        } else {
            let leq = |a: (usize, usize), b: (usize, usize)| a == b || outranks(hyps, rows, a, b);
            assert(vstd::relations::total_ordering(leq)) by {
                assert(vstd::relations::reflexive(leq));
            }
            rest.find_unique_minimal_ensures(leq);
            let m = rest.find_unique_minimal(leq);
            let q = p.push(m);
            assert forall|j: int| 0 <= j < q.len() implies is_candidate(
                hyps,
                rows,
                #[trigger] q[j],
            ) by {
                if j < p.len() {
                    assert(q[j] == p[j]);
                }
            }
            assert forall|i: int, j: int| 0 <= i < j < q.len() implies outranks(
                hyps,
                rows,
                #[trigger] q[i],
                #[trigger] q[j],
            ) by {
                if j < p.len() {
                    assert(q[j] == p[j]);
                } else {
                    if i < p.len() - 1 {
                        assert(outranks(hyps, rows, p[i], p[p.len() - 1]));
                    }
                }
            }
            assert forall|c: (usize, usize)| #[trigger]
                is_candidate(hyps, rows, c) implies q.contains(c) || outranks(
                hyps,
                rows,
                q.last(),
                c,
            ) by {
                if p.contains(c) {
                    let i = choose|i: int| 0 <= i < p.len() && p[i] == c;
                    assert(q[i] == c);
                } else if c == m {
                    assert(q[q.len() - 1] == c);
                } else {
                    assert(leq(c, m) || leq(m, c));
                    assert(leq(m, c));
                }
            }
            assert(is_ranking(hyps, rows, q, width));
        }
    }
}

/// A group has one ranking, and `ranking` is it.
pub proof fn lemma_ranking_unique(
    hyps: Seq<HypothesisView>,
    rows: Seq<Seq<i64>>,
    picks: Seq<(usize, usize)>,
    width: nat,
)
    requires
        is_ranking(hyps, rows, picks, width),
    ensures
        ranking(hyps, rows, width) == picks,
{
    let other = ranking(hyps, rows, width);
    let n = if picks.len() <= other.len() {
        picks.len() as int
    } else {
        other.len() as int
    };
    lemma_rankings_agree(hyps, rows, picks, other, width, n);
    lemma_ranking_no_shorter(hyps, rows, picks, other, width);
    lemma_ranking_no_shorter(hyps, rows, other, picks, width);
}

/// Whether the scores of a group go down from each hypothesis to the next.
pub open spec fn descending(hyps: Seq<HypothesisView>) -> bool {
    forall|a: int, b: int|
        0 <= a < b < hyps.len() ==> (#[trigger] hyps[a]).score >= (#[trigger] hyps[b]).score
}

/// Whether no two hypotheses of a group hold the same tokens.
pub open spec fn distinct(hyps: Seq<HypothesisView>) -> bool {
    forall|a: int, b: int|
        0 <= a < b < hyps.len() ==> (#[trigger] hyps[a]).tokens != (#[trigger] hyps[b]).tokens
}

/// Whether no hypothesis of a group is longer than an unfinished one.
pub open spec fn live_longest(hyps: Seq<HypothesisView>) -> bool {
    forall|a: int, b: int|
        0 <= a < hyps.len() && 0 <= b < hyps.len() && !(#[trigger] hyps[a]).finished ==> (
        #[trigger] hyps[b]).tokens.len() <= hyps[a].tokens.len()
}

/// The hypotheses that a ranking stands for have scores that go down.
pub proof fn lemma_ranking_descends(
    hyps: Seq<HypothesisView>,
    rows: Seq<Seq<i64>>,
    picks: Seq<(usize, usize)>,
    width: nat,
    eos_token: usize,
)
    requires
        is_ranking(hyps, rows, picks, width),
    ensures
        descending(Seq::new(picks.len(), |j: int| grown(hyps, rows, picks[j], eos_token))),
{
    let next = Seq::new(picks.len(), |j: int| grown(hyps, rows, picks[j], eos_token));
    assert forall|a: int, b: int| 0 <= a < b < next.len() implies (#[trigger] next[a]).score >= (
    #[trigger] next[b]).score by {
        assert(outranks(hyps, rows, picks[a], picks[b]));
    }
}

/// A step keeps the hypotheses of a group apart: where no two held the same
/// tokens before, no two do afterwards.
pub proof fn lemma_ranking_stays_distinct(
    hyps: Seq<HypothesisView>,
    rows: Seq<Seq<i64>>,
    picks: Seq<(usize, usize)>,
    width: nat,
    eos_token: usize,
)
    requires
        is_ranking(hyps, rows, picks, width),
        distinct(hyps),
        live_longest(hyps),
    ensures
        distinct(Seq::new(picks.len(), |j: int| grown(hyps, rows, picks[j], eos_token))),
        live_longest(Seq::new(picks.len(), |j: int| grown(hyps, rows, picks[j], eos_token))),
{
    let next = Seq::new(picks.len(), |j: int| grown(hyps, rows, picks[j], eos_token));
    assert forall|a: int, b: int| 0 <= a < b < next.len() implies (#[trigger] next[a]).tokens != (
    #[trigger] next[b]).tokens by {
        let pa = picks[a];
        let pb = picks[b];
        let ha = hyps[pa.0 as int];
        let hb = hyps[pb.0 as int];
        if ha.finished && hb.finished {
            assert(pa.0 != pb.0);
        } else if ha.finished && !hb.finished {
            assert(ha.tokens.len() <= hb.tokens.len());
        } else if !ha.finished && hb.finished {
            assert(hb.tokens.len() <= ha.tokens.len());
        } else {
            let ta = ha.tokens.push(pa.1);
            let tb = hb.tokens.push(pb.1);
            if pa.0 == pb.0 {
                assert(ta[ha.tokens.len() as int] == pa.1);
            } else {
                assert(ta.drop_last() =~= ha.tokens);
                assert(tb.drop_last() =~= hb.tokens);
            }
        }
    }
    assert forall|a: int, b: int|
        0 <= a < next.len() && 0 <= b < next.len() && !(#[trigger] next[a]).finished implies (
    #[trigger] next[b]).tokens.len() <= next[a].tokens.len() by {
        let pa = picks[a];
        let pb = picks[b];
        let ha = hyps[pa.0 as int];
        let hb = hyps[pb.0 as int];
        assert(hb.tokens.len() <= ha.tokens.len());
    }
}

/// A ranking is as long as its width allows wherever there are that many
/// candidates.
pub proof fn lemma_ranking_fills(
    hyps: Seq<HypothesisView>,
    rows: Seq<Seq<i64>>,
    width: nat,
    some: Seq<(usize, usize)>,
)
    requires
        some.len() >= width,
        some.no_duplicates(),
        forall|i: int| 0 <= i < some.len() ==> is_candidate(hyps, rows, #[trigger] some[i]),
    ensures
        ranking(hyps, rows, width).len() == width,
{
    lemma_ranking_exists(hyps, rows, width);
    let picks = ranking(hyps, rows, width);
    if picks.len() < width {
        assert forall|c: (usize, usize)| some.to_set().contains(c) implies picks.to_set().contains(
            c,
        ) by {
            let i = choose|i: int| 0 <= i < some.len() && some[i] == c;
            assert(is_candidate(hyps, rows, some[i]));
        }
        some.unique_seq_to_set();
        picks.lemma_cardinality_of_set();
        vstd::seq_lib::seq_to_set_is_finite(picks);
        vstd::set_lib::lemma_len_subset(some.to_set(), picks.to_set());
    }
}

/// A full beam stays full: a group that holds as many hypotheses as the
/// width allows, each of them finished or with a token to take, holds as
/// many after the step.
pub proof fn lemma_full_beam_stays_full(
    hyps: Seq<HypothesisView>,
    rows: Seq<Seq<i64>>,
    width: nat,
    eos_token: usize,
)
    requires
        hyps.len() == width <= usize::MAX,
        forall|h: int| 0 <= h < hyps.len() ==> hyps[h].finished || (#[trigger] rows[h]).len() > 0,
    ensures
        group_step(hyps, rows, width, eos_token).len() == width,
{
    let some = Seq::new(width, |h: int| (h as usize, 0usize));
    assert forall|i: int| 0 <= i < some.len() implies is_candidate(
        hyps,
        rows,
        #[trigger] some[i],
    ) by {
        assert(hyps[i].finished || rows[i].len() > 0);
    }
    lemma_ranking_fills(hyps, rows, width, some);
}

/// The first wide row fills the beam: a group in which some unfinished
/// hypothesis has at least as many tokens to choose from as the width
/// allows holds that many hypotheses after the step.
pub proof fn lemma_wide_row_fills_beam(
    hyps: Seq<HypothesisView>,
    rows: Seq<Seq<i64>>,
    width: nat,
    eos_token: usize,
    h: int,
)
    requires
        0 <= h < hyps.len(),
        h <= usize::MAX,
        !hyps[h].finished,
        width <= rows[h].len(),
        width <= usize::MAX,
    ensures
        group_step(hyps, rows, width, eos_token).len() == width,
{
    let some = Seq::new(width, |t: int| (h as usize, t as usize));
    assert forall|i: int| 0 <= i < some.len() implies is_candidate(
        hyps,
        rows,
        #[trigger] some[i],
    ) by {}
    lemma_ranking_fills(hyps, rows, width, some);
}

/// A group has finitely many candidates.
pub proof fn lemma_candidates_finite(hyps: Seq<HypothesisView>, rows: Seq<Seq<i64>>)
    ensures
        candidates(hyps, rows).finite(),
{
    let all = Set::<u128>::full();
    <u128 as vstd::set_lib::FiniteFull>::full_properties();
    all.lemma_map_finite(|x: u128| unpack(x));
    let image = all.map(|x: u128| unpack(x));
    let cands = candidates(hyps, rows);
    assert forall|c: (usize, usize)| cands.contains(c) implies image.contains(c) by {
        let x = (c.0 * 0x1_0000_0000_0000_0000 + c.1) as u128;
        assert(all.contains(x));
    }
    vstd::set_lib::lemma_len_subset(cands, image);
}

/// Two rankings of the same candidates agree up to any place that both have.
proof fn lemma_rankings_agree(
    hyps: Seq<HypothesisView>,
    rows: Seq<Seq<i64>>,
    p: Seq<(usize, usize)>,
    q: Seq<(usize, usize)>,
    width: nat,
    n: int,
)
    requires
        is_ranking(hyps, rows, p, width),
        is_ranking(hyps, rows, q, width),
        0 <= n <= p.len(),
        n <= q.len(),
    ensures
        forall|j: int| 0 <= j < n ==> p[j] == q[j],
    decreases n,
{
    if n > 0 {
        lemma_rankings_agree(hyps, rows, p, q, width, n - 1);
        let j = n - 1;
        let a = p[j];
        let b = q[j];
        if a != b {
            if outranks(hyps, rows, a, b) {
                // `a` stands in `q` before place `j`, or behind `b`
                if q.contains(a) {
                    let i = choose|i: int| 0 <= i < q.len() && q[i] == a;
                    if i < j {
                        assert(p[i] == q[i]);
                    } else if i > j {
                        assert(outranks(hyps, rows, q[j], q[i]));
                    }
                } else {
                    if j < q.len() - 1 {
                        assert(outranks(hyps, rows, q[j], q[q.len() - 1]));
                    }
                }
            } else {
                if p.contains(b) {
                    let i = choose|i: int| 0 <= i < p.len() && p[i] == b;
                    if i < j {
                        assert(p[i] == q[i]);
                    } else if i > j {
                        assert(outranks(hyps, rows, p[j], p[i]));
                    }
                } else {
                    if j < p.len() - 1 {
                        assert(outranks(hyps, rows, p[j], p[p.len() - 1]));
                    }
                }
            }
        }
    }
}

/// Of two rankings that agree wherever both have a place, the first is no
/// shorter than the second.
proof fn lemma_ranking_no_shorter(
    hyps: Seq<HypothesisView>,
    rows: Seq<Seq<i64>>,
    p: Seq<(usize, usize)>,
    q: Seq<(usize, usize)>,
    width: nat,
)
    requires
        is_ranking(hyps, rows, p, width),
        is_ranking(hyps, rows, q, width),
        forall|j: int| 0 <= j < p.len() && j < q.len() ==> p[j] == q[j],
    ensures
        p.len() >= q.len(),
{
    if p.len() < q.len() {
        let extra = q[p.len() as int];
        if p.contains(extra) {
            let i = choose|i: int| 0 <= i < p.len() && p[i] == extra;
            assert(q[i] == extra);
        }
    }
}

/// The pair of places that a number stands for: its upper and its lower
/// half.
spec fn unpack(x: u128) -> (usize, usize) {
    ((x / 0x1_0000_0000_0000_0000) as usize, (x % 0x1_0000_0000_0000_0000) as usize)
}

} // verus!
