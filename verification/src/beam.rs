//! Beam search: for every prompt a handful of hypotheses, the best-scored
//! continuations found so far, grown token by token.
//!
//! The search is a state machine. Whoever runs the language model scores the
//! next token of every hypothesis and hands the scores to `advance`, which
//! ranks the candidates of every group and gives back the search one step
//! on. A hypothesis that took the end-of-sequence token is finished: it
//! keeps its place among the candidates and grows no further.

use vstd::prelude::*;
use crate::error::AttentionError;
use crate::generation::{
    GenerateConfig, copy_tokens, decodable, longest, longest_prompt, rows_of,
};
use crate::ranking::{
    HypothesisView, candidate_score, descending, distinct, group_parents, group_step, grown,
    is_candidate, is_ranking, lemma_ranking_descends, lemma_ranking_stays_distinct,
    lemma_ranking_unique, live_longest, outranks, ranking,
};

verus! {

/// A beam search under way.
#[derive(Debug)]
pub struct BeamSearch {
    groups: Vec<Vec<Hypothesis>>,
    steps: usize,
    cur_len: usize,
    max_length: usize,
    num_beams: usize,
    num_return_sequences: usize,
    eos_token: usize,
    exhausted: bool,
}

/// A beam search as plain mathematics.
pub struct BeamView {
    /// For every prompt its hypotheses, best first.
    pub groups: Seq<Seq<HypothesisView>>,
    /// Length of the longest prompt plus the number of steps taken.
    pub cur_len: nat,
    /// Length at which every hypothesis stops.
    pub max_length: nat,
    /// Number of hypotheses kept for each prompt.
    pub num_beams: nat,
    /// Number of sequences handed back for each prompt.
    pub num_return_sequences: nat,
    /// The token that ends a hypothesis.
    pub eos_token: usize,
    /// Whether the search was stopped for want of a continuation.
    pub exhausted: bool,
}

impl View for BeamSearch {
    type V = BeamView;

    closed spec fn view(&self) -> BeamView {
        BeamView {
            groups: group_views(self.groups@),
            cur_len: self.cur_len as nat,
            max_length: self.max_length as nat,
            num_beams: self.num_beams as nat,
            num_return_sequences: self.num_return_sequences as nat,
            eos_token: self.eos_token,
            exhausted: self.exhausted,
        }
    }
}

/// The rows of every group of a vector of groups of rows.
pub open spec fn cube_of<T>(groups: Seq<Vec<Vec<T>>>) -> Seq<Seq<Seq<T>>> {
    Seq::new(groups.len(), |g: int| rows_of(groups[g]@))
}

/// The search before its first step: for every prompt one hypothesis, the
/// prompt itself, with score 0.
pub open spec fn beam_start(prompts: Seq<Seq<usize>>, config: GenerateConfig, eos_token: usize)
    -> BeamView {
    BeamView {
        groups: Seq::new(
            prompts.len(),
            |g: int| seq![HypothesisView { tokens: prompts[g], score: 0, finished: false }],
        ),
        cur_len: longest(prompts),
        max_length: config.max_length as nat,
        num_beams: config.num_beams as nat,
        num_return_sequences: config.num_return_sequences as nat,
        eos_token: eos_token,
        exhausted: false,
    }
}

/// Whether every hypothesis of every group is finished.
pub open spec fn all_beams_finished(groups: Seq<Seq<HypothesisView>>) -> bool {
    forall|g: int, h: int|
        0 <= g < groups.len() && 0 <= h < groups[g].len() ==> (#[trigger] groups[g][h]).finished
}

/// Whether the search is over: it was stopped, the greatest length is
/// reached, or every hypothesis is finished.
pub open spec fn beam_done(v: BeamView) -> bool {
    v.exhausted || v.cur_len >= v.max_length || all_beams_finished(v.groups)
}

/// Whether `scores` holds one row for every hypothesis of every group.
pub open spec fn beam_fits(v: BeamView, scores: Seq<Seq<Seq<i64>>>) -> bool {
    &&& scores.len() == v.groups.len()
    &&& forall|g: int| 0 <= g < v.groups.len() ==> (#[trigger] scores[g]).len() == v.groups[g].len()
}

/// Whether some unfinished hypothesis has no token to choose from.
pub open spec fn beam_starved(v: BeamView, scores: Seq<Seq<Seq<i64>>>) -> bool {
    exists|g: int, h: int|
        0 <= g < v.groups.len() && 0 <= h < v.groups[g].len() && !v.groups[g][h].finished && (
        #[trigger] scores[g][h]).len() == 0
}

/// The search after a step that every unfinished hypothesis can take.
pub open spec fn beam_step(v: BeamView, scores: Seq<Seq<Seq<i64>>>) -> BeamView {
    BeamView {
        groups: Seq::new(
            v.groups.len(),
            |g: int| group_step(v.groups[g], scores[g], v.num_beams, v.eos_token),
        ),
        cur_len: v.cur_len + 1,
        ..v
    }
}

/// For every hypothesis after the step, the place in its group of the
/// hypothesis that it grew from.
pub open spec fn beam_parents(v: BeamView, scores: Seq<Seq<Seq<i64>>>) -> Seq<Seq<usize>> {
    Seq::new(v.groups.len(), |g: int| group_parents(v.groups[g], scores[g], v.num_beams))
}

/// What `advance` answers to `scores`.
pub open spec fn beam_verdict(v: BeamView, scores: Seq<Seq<Seq<i64>>>) -> Result<
    Seq<Seq<usize>>,
    AttentionError,
> {
    if beam_done(v) {
        Err(AttentionError::GenerationExhausted)
    } else if !beam_fits(v, scores) {
        Err(AttentionError::ShapeMismatch)
    } else if beam_starved(v, scores) {
        Err(AttentionError::GenerationExhausted)
    } else {
        Ok(beam_parents(v, scores))
    }
}

/// The search that `advance` gives back for `scores`: unchanged where the
/// search is over or the scores do not fit, stopped where an unfinished
/// hypothesis has nothing to choose from, and one step on otherwise.
pub open spec fn beam_after(v: BeamView, scores: Seq<Seq<Seq<i64>>>) -> BeamView {
    if beam_done(v) || !beam_fits(v, scores) {
        v
    } else if beam_starved(v, scores) {
        BeamView { exhausted: true, ..v }
    } else {
        beam_step(v, scores)
    }
}

/// The sequences that a search hands back: of every group the tokens of its
/// first `num_return_sequences` hypotheses, or of all where it has fewer.
pub open spec fn beam_outputs(v: BeamView) -> Seq<Seq<Seq<usize>>> {
    Seq::new(
        v.groups.len(),
        |g: int|
            Seq::new(
                if v.groups[g].len() <= v.num_return_sequences {
                    v.groups[g].len()
                } else {
                    v.num_return_sequences
                },
                |j: int| v.groups[g][j].tokens,
            ),
    )
}

impl BeamSearch {
    #[verifier::type_invariant]
    spec fn well_formed(self) -> bool {
        &&& self.steps <= self.cur_len
        &&& 1 <= self.num_return_sequences <= self.num_beams
        &&& forall|g: int|
            0 <= g < self.groups@.len() ==> bounded(
                views((#[trigger] self.groups@[g])@),
                self.steps as nat,
            )
        &&& forall|g: int|
            0 <= g < self.groups@.len() ==> descending(views((#[trigger] self.groups@[g])@))
        &&& forall|g: int|
            0 <= g < self.groups@.len() ==> distinct(views((#[trigger] self.groups@[g])@))
        &&& forall|g: int|
            0 <= g < self.groups@.len() ==> live_longest(views((#[trigger] self.groups@[g])@))
    }

    /// A search for `prompts` that keeps `config.num_beams` hypotheses for
    /// each, and stops at `config.max_length` tokens and at `eos_token`.
    ///
    /// Fails with `GenerationExhausted` where the settings ask for a random
    /// draw, for no sequence, or for more sequences than beams.
    pub fn start(prompts: Vec<Vec<usize>>, config: &GenerateConfig, eos_token: usize) -> (res:
        Result<BeamSearch, AttentionError>)
        ensures
            res is Ok <==> decodable(*config),
            res matches Err(e) ==> e == AttentionError::GenerationExhausted,
            res matches Ok(search) ==> search@ == beam_start(rows_of(prompts@), *config, eos_token),
    {
        if !config.decodes() {
            return Err(AttentionError::GenerationExhausted);
        }
        let cur_len = longest_prompt(&prompts);
        let ghost want = beam_start(rows_of(prompts@), *config, eos_token);
        let mut groups: Vec<Vec<Hypothesis>> = Vec::new();
        let mut g: usize = 0;
        while g < prompts.len()
            invariant
                g <= prompts.len(),
                groups@.len() == g,
                want == beam_start(rows_of(prompts@), *config, eos_token),
                forall|i: int| 0 <= i < g ==> views((#[trigger] groups@[i])@) == want.groups[i],
                forall|i: int| 0 <= i < g ==> bounded(views((#[trigger] groups@[i])@), 0),
                forall|i: int| 0 <= i < g ==> descending(views((#[trigger] groups@[i])@)),
                forall|i: int| 0 <= i < g ==> distinct(views((#[trigger] groups@[i])@)),
                forall|i: int| 0 <= i < g ==> live_longest(views((#[trigger] groups@[i])@)),
            decreases prompts.len() - g,
        {
            let mut group: Vec<Hypothesis> = Vec::new();
            group.push(Hypothesis { tokens: copy_tokens(&prompts[g]), score: 0, finished: false });
            groups.push(group);
            g += 1;
        }
        let search = BeamSearch {
            groups,
            steps: 0,
            cur_len,
            max_length: config.max_length,
            num_beams: config.num_beams,
            num_return_sequences: config.num_return_sequences,
            eos_token,
            exhausted: false,
        };
        assert(search@.groups =~= want.groups);
        Ok(search)
    }

    /// Whether the search is over.
    pub fn is_done(&self) -> (done: bool)
        ensures
            done == beam_done(self@),
    {
        if self.exhausted || self.cur_len >= self.max_length {
            return true;
        }
        let mut g: usize = 0;
        while g < self.groups.len()
            invariant
                g <= self.groups.len(),
                !self.exhausted,
                self.cur_len < self.max_length,
                forall|i: int, h: int|
                    0 <= i < g && 0 <= h < self.groups@[i]@.len() ==> (
                    #[trigger] self.groups@[i]@[h]).finished,
            decreases self.groups.len() - g,
        {
            let group = &self.groups[g];
            let mut h: usize = 0;
            while h < group.len()
                invariant
                    h <= group.len(),
                    g < self.groups.len(),
                    group == &self.groups@[g as int],
                    !self.exhausted,
                    self.cur_len < self.max_length,
                    forall|k: int| 0 <= k < h ==> (#[trigger] group@[k]).finished,
                decreases group.len() - h,
            {
                if !group[h].finished {
                    proof {
                        assert(self@.groups[g as int][h as int] == group@[h as int]@);
                    }
                    return false;
                }
                h += 1;
            }
            g += 1;
        }
        proof {
            assert forall|i: int, h: int|
                0 <= i < self@.groups.len() && 0 <= h < self@.groups[i].len() implies (
            #[trigger] self@.groups[i][h]).finished by {}
        }
        true
    }

    /// Whether the search was stopped for want of a continuation.
    pub fn is_exhausted(&self) -> (b: bool)
        ensures
            b == self@.exhausted,
    {
        self.exhausted
    }

    /// The number of hypotheses of every group.
    pub fn sizes(&self) -> (out: Vec<usize>)
        ensures
            out@.len() == self@.groups.len(),
            forall|g: int| 0 <= g < out@.len() ==> #[trigger] out@[g] == self@.groups[g].len(),
    {
        let mut out: Vec<usize> = Vec::new();
        let mut g: usize = 0;
        while g < self.groups.len()
            invariant
                g <= self.groups.len(),
                out@.len() == g,
                forall|i: int| 0 <= i < g ==> #[trigger] out@[i] == self.groups@[i]@.len(),
            decreases self.groups.len() - g,
        {
            out.push(self.groups[g].len());
            g += 1;
        }
        proof {
            assert forall|g: int| 0 <= g < out@.len() implies #[trigger] out@[g]
                == self@.groups[g].len() by {}
        }
        out
    }

    /// Length of the longest prompt plus the number of steps taken.
    pub fn cur_len(&self) -> (n: usize)
        ensures
            n == self@.cur_len,
    {
        self.cur_len
    }

    /// The tokens of the first `limit` hypotheses of every group, or of all
    /// where a group has fewer.
    fn tokens_upto(&self, limit: usize) -> (out: Vec<Vec<Vec<usize>>>)
        ensures
            out@.len() == self@.groups.len(),
            forall|g: int|
                0 <= g < out@.len() ==> (#[trigger] out@[g])@.len() == if self@.groups[g].len()
                    <= limit {
                    self@.groups[g].len()
                } else {
                    limit as nat
                },
            forall|g: int, j: int|
                0 <= g < out@.len() && 0 <= j < out@[g]@.len() ==> (#[trigger] out@[g]@[j])@
                    == self@.groups[g][j].tokens,
    {
        let mut out: Vec<Vec<Vec<usize>>> = Vec::new();
        let mut g: usize = 0;
        while g < self.groups.len()
            invariant
                g <= self.groups.len(),
                out@.len() == g,
                forall|i: int|
                    0 <= i < g ==> (#[trigger] out@[i])@.len() == if self.groups@[i]@.len()
                        <= limit {
                        self.groups@[i]@.len()
                    } else {
                        limit as nat
                    },
                forall|i: int, j: int|
                    0 <= i < g && 0 <= j < out@[i]@.len() ==> (#[trigger] out@[i]@[j])@
                        == self.groups@[i]@[j].tokens@,
            decreases self.groups.len() - g,
        {
            let group = &self.groups[g];
            let count = if group.len() <= limit {
                group.len()
            } else {
                limit
            };
            let mut rows: Vec<Vec<usize>> = Vec::new();
            let mut j: usize = 0;
            while j < count
                invariant
                    j <= count <= group.len(),
                    rows@.len() == j,
                    forall|k: int| 0 <= k < j ==> (#[trigger] rows@[k])@ == group@[k].tokens@,
                decreases count - j,
            {
                rows.push(copy_tokens(&group[j].tokens));
                j += 1;
            }
            out.push(rows);
            g += 1;
        }
        proof {
            assert forall|g: int, j: int|
                0 <= g < out@.len() && 0 <= j < out@[g]@.len() implies (#[trigger] out@[g]@[j])@
                == self@.groups[g][j].tokens by {}
        }
        out
    }

    /// The sequences that the search hands back: for every prompt, in the
    /// order of the prompts, the tokens of its best `num_return_sequences`
    /// hypotheses, best first, prompt included.
    pub fn outputs(&self) -> (out: Vec<Vec<Vec<usize>>>)
        ensures
            Seq::new(out@.len(), |g: int| rows_of(out@[g]@)) == beam_outputs(self@),
            forall|g: int, a: int, b: int|
                0 <= g < out@.len() && 0 <= a < b < out@[g]@.len() ==> (#[trigger] out@[g]@[a])@
                    != (#[trigger] out@[g]@[b])@,
    {
        let out = self.tokens_upto(self.num_return_sequences);
        proof {
            use_type_invariant(self);
            assert forall|g: int, a: int, b: int|
                0 <= g < out@.len() && 0 <= a < b < out@[g]@.len() implies (
            #[trigger] out@[g]@[a])@ != (#[trigger] out@[g]@[b])@ by {}
            let got = Seq::new(out@.len(), |g: int| rows_of(out@[g]@));
            let want = beam_outputs(self@);
            assert forall|g: int| 0 <= g < got.len() implies got[g] == want[g] by {
                assert forall|j: int| 0 <= j < got[g].len() implies got[g][j] == want[g][j] by {}
            }
        }
        out
    }

    /// The tokens of every hypothesis of every group, best first in each
    /// group: what the language model scores next.
    pub fn hypotheses(&self) -> (out: Vec<Vec<Vec<usize>>>)
        ensures
            out@.len() == self@.groups.len(),
            forall|g: int|
                0 <= g < out@.len() ==> (#[trigger] out@[g])@.len() == self@.groups[g].len(),
            forall|g: int, j: int|
                0 <= g < out@.len() && 0 <= j < out@[g]@.len() ==> (#[trigger] out@[g]@[j])@
                    == self@.groups[g][j].tokens,
            forall|g: int, a: int, b: int|
                0 <= g < out@.len() && 0 <= a < b < out@[g]@.len() ==> (#[trigger] out@[g]@[a])@
                    != (#[trigger] out@[g]@[b])@,
    {
        let out = self.tokens_upto(usize::MAX);
        proof {
            use_type_invariant(self);
            assert forall|g: int, a: int, b: int|
                0 <= g < out@.len() && 0 <= a < b < out@[g]@.len() implies (
            #[trigger] out@[g]@[a])@ != (#[trigger] out@[g]@[b])@ by {}
            assert forall|g: int| 0 <= g < out@.len() implies (#[trigger] out@[g])@.len()
                == self@.groups[g].len() by {
                assert(self.groups@[g].len() == self.groups@[g]@.len());
            }
        }
        out
    }

    /// For every hypothesis of every group its score and whether it is
    /// finished. In each group the scores go down.
    pub fn standings(&self) -> (out: Vec<Vec<(i128, bool)>>)
        ensures
            out@.len() == self@.groups.len(),
            forall|g: int|
                0 <= g < out@.len() ==> (#[trigger] out@[g])@.len() == self@.groups[g].len(),
            forall|g: int, j: int|
                0 <= g < out@.len() && 0 <= j < out@[g]@.len() ==> (#[trigger] out@[g]@[j]).0
                    == self@.groups[g][j].score && out@[g]@[j].1 == self@.groups[g][j].finished,
            forall|g: int, a: int, b: int|
                0 <= g < out@.len() && 0 <= a < b < out@[g]@.len() ==> (#[trigger] out@[g]@[a]).0
                    >= (#[trigger] out@[g]@[b]).0,
    {
        proof {
            use_type_invariant(self);
        }
        let mut out: Vec<Vec<(i128, bool)>> = Vec::new();
        let mut g: usize = 0;
        while g < self.groups.len()
            invariant
                g <= self.groups.len(),
                out@.len() == g,
                forall|i: int|
                    0 <= i < g ==> (#[trigger] out@[i])@.len() == self.groups@[i]@.len(),
                forall|i: int, j: int|
                    0 <= i < g && 0 <= j < out@[i]@.len() ==> (#[trigger] out@[i]@[j]).0
                        == self.groups@[i]@[j].score && out@[i]@[j].1
                        == self.groups@[i]@[j].finished,
            decreases self.groups.len() - g,
        {
            let group = &self.groups[g];
            let mut rows: Vec<(i128, bool)> = Vec::new();
            let mut j: usize = 0;
            while j < group.len()
                invariant
                    j <= group.len(),
                    rows@.len() == j,
                    forall|k: int|
                        0 <= k < j ==> (#[trigger] rows@[k]).0 == group@[k].score && rows@[k].1
                            == group@[k].finished,
                decreases group.len() - j,
            {
                rows.push((group[j].score, group[j].finished));
                j += 1;
            }
            out.push(rows);
            g += 1;
        }
        proof {
            assert forall|g: int| 0 <= g < out@.len() implies (#[trigger] out@[g])@.len()
                == self@.groups[g].len() by {}
            assert forall|g: int, j: int|
                0 <= g < out@.len() && 0 <= j < out@[g]@.len() implies (#[trigger] out@[g]@[j]).0
                == self@.groups[g][j].score && out@[g]@[j].1 == self@.groups[g][j].finished by {}
            assert forall|g: int, a: int, b: int|
                0 <= g < out@.len() && 0 <= a < b < out@[g]@.len() implies (
            #[trigger] out@[g]@[a]).0 >= (#[trigger] out@[g]@[b]).0 by {}
        }
        out
    }

    /// The search after the step that `scores` decides, and for every
    /// hypothesis of the new search the place in its group of the hypothesis
    /// that it grew from.
    ///
    /// `scores` holds, for every group, one row for every hypothesis,
    /// finished or not, and in each row one score for every token of the
    /// vocabulary. The candidates of a group are its unfinished hypotheses
    /// followed by each token, scored by the sum of both, and its finished
    /// hypotheses as they stand. The best `num_beams` of them, best first,
    /// are its hypotheses afterwards: see `is_ranking`.
    ///
    /// Fails with `GenerationExhausted` where the search is over, with
    /// `ShapeMismatch` where `scores` does not hold one row for every
    /// hypothesis, and with `GenerationExhausted` where the row of an
    /// unfinished hypothesis is empty: the search is then stopped with what
    /// it has.
    pub fn advance(self, scores: &Vec<Vec<Vec<i64>>>) -> (next: (
        BeamSearch,
        Result<Vec<Vec<usize>>, AttentionError>,
    ))
        ensures
            next.0@ == beam_after(self@, cube_of(scores@)),
            match next.1 {
                Ok(parents) => beam_verdict(self@, cube_of(scores@)) == Ok::<
                    Seq<Seq<usize>>,
                    AttentionError,
                >(rows_of(parents@)),
                Err(e) => beam_verdict(self@, cube_of(scores@)) == Err::<
                    Seq<Seq<usize>>,
                    AttentionError,
                >(e),
            },
    {
        proof {
            use_type_invariant(&self);
        }
        let ghost before = self@;
        let ghost cube = cube_of(scores@);
        if self.is_done() {
            return (self, Err(AttentionError::GenerationExhausted));
        }
        if scores.len() != self.groups.len() {
            return (self, Err(AttentionError::ShapeMismatch));
        }
        let mut g: usize = 0;
        while g < scores.len()
            invariant
                g <= scores.len(),
                scores@.len() == self.groups@.len(),
                before == self@,
                cube == cube_of(scores@),
                !beam_done(before),
                forall|i: int| 0 <= i < g ==> (#[trigger] cube[i]).len() == before.groups[i].len(),
            decreases scores.len() - g,
        {
            proof {
                assert(cube[g as int] == rows_of(scores@[g as int]@));
            }
            if scores[g].len() != self.groups[g].len() {
                return (self, Err(AttentionError::ShapeMismatch));
            }
            g += 1;
        }
        let mut g: usize = 0;
        while g < scores.len()
            invariant
                g <= scores.len(),
                scores@.len() == self.groups@.len(),
                before == self@,
                cube == cube_of(scores@),
                !beam_done(before),
                beam_fits(before, cube),
                forall|i: int, h: int|
                    0 <= i < g && 0 <= h < before.groups[i].len() ==> before.groups[i][h].finished
                        || (#[trigger] cube[i][h]).len() > 0,
            decreases scores.len() - g,
        {
            proof {
                assert(cube[g as int] == rows_of(scores@[g as int]@));
            }
            let group = &self.groups[g];
            let rows = &scores[g];
            let mut h: usize = 0;
            while h < group.len()
                invariant
                    h <= group.len(),
                    g < scores.len(),
                    scores@.len() == self.groups@.len(),
                    group == &self.groups@[g as int],
                    rows == &scores@[g as int],
                    rows@.len() == group@.len(),
                    before == self@,
                    cube == cube_of(scores@),
                    cube[g as int] == rows_of(rows@),
                    before.groups[g as int] == views(group@),
                    !beam_done(before),
                    beam_fits(before, cube),
                    forall|k: int|
                        0 <= k < h ==> before.groups[g as int][k].finished || (
                        #[trigger] cube[g as int][k]).len() > 0,
                decreases group.len() - h,
            {
                if !group[h].finished && rows[h].len() == 0 {
                    proof {
                        assert(!before.groups[g as int][h as int].finished && cube[g as int][h as int].len()
                            == 0);
                        use_type_invariant(&self);
                    }
                    let BeamSearch {
                        groups,
                        steps,
                        cur_len,
                        max_length,
                        num_beams,
                        num_return_sequences,
                        eos_token,
                        exhausted,
                    } = self;
                    let stopped = BeamSearch {
                        groups,
                        steps,
                        cur_len,
                        max_length,
                        num_beams,
                        num_return_sequences,
                        eos_token,
                        exhausted: true,
                    };
                    return (stopped, Err(AttentionError::GenerationExhausted));
                }
                h += 1;
            }
            g += 1;
        }
        let BeamSearch {
            groups,
            steps,
            cur_len,
            max_length,
            num_beams,
            num_return_sequences,
            eos_token,
            exhausted,
        } = self;
        let ghost want = beam_step(before, cube);
        let ghost from = beam_parents(before, cube);
        let mut grown: Vec<Vec<Hypothesis>> = Vec::new();
        let mut parents: Vec<Vec<usize>> = Vec::new();
        let mut g: usize = 0;
        while g < groups.len()
            invariant
                g <= groups.len(),
                grown@.len() == g,
                parents@.len() == g,
                scores@.len() == groups@.len(),
                before.groups == group_views(groups@),
                before.num_beams == num_beams,
                before.eos_token == eos_token,
                cube == cube_of(scores@),
                beam_fits(before, cube),
                want == beam_step(before, cube),
                from == beam_parents(before, cube),
                steps < usize::MAX,
                forall|i: int|
                    0 <= i < groups@.len() ==> bounded(
                        views((#[trigger] groups@[i])@),
                        steps as nat,
                    ),
                forall|i: int| 0 <= i < g ==> views((#[trigger] grown@[i])@) == want.groups[i],
                forall|i: int| 0 <= i < g ==> (#[trigger] parents@[i])@ == from[i],
                forall|i: int|
                    0 <= i < g ==> bounded(views((#[trigger] grown@[i])@), (steps + 1) as nat),
                forall|i: int| 0 <= i < g ==> descending(views((#[trigger] grown@[i])@)),
                forall|i: int| 0 <= i < g ==> distinct(views((#[trigger] grown@[i])@)),
                forall|i: int| 0 <= i < g ==> live_longest(views((#[trigger] grown@[i])@)),
                forall|i: int|
                    0 <= i < groups@.len() ==> distinct(views((#[trigger] groups@[i])@)),
                forall|i: int|
                    0 <= i < groups@.len() ==> live_longest(views((#[trigger] groups@[i])@)),
            decreases groups.len() - g,
        {
            proof {
                assert(cube[g as int] == rows_of(scores@[g as int]@));
            }
            let picks = rank_group(&groups[g], &scores[g], num_beams, steps);
            let next = grow_group(&groups[g], &scores[g], &picks, eos_token, steps);
            let mut origin: Vec<usize> = Vec::new();
            let mut j: usize = 0;
            while j < picks.len()
                invariant
                    j <= picks.len(),
                    origin@.len() == j,
                    forall|k: int| 0 <= k < j ==> (#[trigger] origin@[k]) == picks@[k].0,
                decreases picks.len() - j,
            {
                origin.push(picks[j].0);
                j += 1;
            }
            proof {
                lemma_ranking_descends(
                    before.groups[g as int],
                    cube[g as int],
                    picks@,
                    num_beams as nat,
                    eos_token,
                );
                lemma_ranking_stays_distinct(
                    before.groups[g as int],
                    cube[g as int],
                    picks@,
                    num_beams as nat,
                    eos_token,
                );
            }
            grown.push(next);
            parents.push(origin);
            g += 1;
        }
        let next = BeamSearch {
            groups: grown,
            steps: steps + 1,
            cur_len: cur_len + 1,
            max_length,
            num_beams,
            num_return_sequences,
            eos_token,
            exhausted,
        };
        proof {
            assert(next@.groups =~= want.groups);
            assert(rows_of(parents@) =~= from);
        }
        (next, Ok(parents))
    }
}

#[derive(Debug)]
struct Hypothesis {
    tokens: Vec<usize>,
    score: i128,
    finished: bool,
}

impl View for Hypothesis {
    type V = HypothesisView;

    closed spec fn view(&self) -> HypothesisView {
        HypothesisView { tokens: self.tokens@, score: self.score as int, finished: self.finished }
    }
}

spec fn views(hyps: Seq<Hypothesis>) -> Seq<HypothesisView> {
    Seq::new(hyps.len(), |h: int| hyps[h]@)
}

spec fn group_views(groups: Seq<Vec<Hypothesis>>) -> Seq<Seq<HypothesisView>> {
    Seq::new(groups.len(), |g: int| views(groups[g]@))
}

/// The largest step that a score can make in either direction.
spec fn span() -> int {
    0x8000_0000_0000_0000
}

/// Whether no score has moved further than `steps` steps can take it.
spec fn bounded(hyps: Seq<HypothesisView>, steps: nat) -> bool {
    forall|h: int| 0 <= h < hyps.len() ==> -steps * span() <= (#[trigger] hyps[h]).score <= steps * span()
}

/// Whether `c` is a candidate behind `prev`, or any candidate where there is
/// no `prev`.
spec fn follows(
    hyps: Seq<HypothesisView>,
    rows: Seq<Seq<i64>>,
    prev: Option<(usize, usize)>,
    c: (usize, usize),
) -> bool {
    &&& is_candidate(hyps, rows, c)
    &&& prev matches Some(p) ==> outranks(hyps, rows, p, c)
}

/// Whether `pick` is the first of the candidates behind `prev`, or nothing
/// where there is none.
spec fn is_next(
    hyps: Seq<HypothesisView>,
    rows: Seq<Seq<i64>>,
    prev: Option<(usize, usize)>,
    pick: Option<(usize, usize)>,
) -> bool {
    match pick {
        Some(c) => {
            &&& follows(hyps, rows, prev, c)
            &&& forall|x: (usize, usize)| #[trigger]
                follows(hyps, rows, prev, x) ==> x == c || outranks(hyps, rows, c, x)
        },
        None => forall|x: (usize, usize)| !#[trigger] follows(hyps, rows, prev, x),
    }
}

/// Whether candidate `c` comes before place `(h, t)` of a walk through all
/// hypotheses and, for each, through all tokens.
spec fn walked(c: (usize, usize), h: int, t: int) -> bool {
    c.0 < h || (c.0 == h && c.1 < t)
}

/// Whether `best`, with its score, is the first of the candidates behind
/// `prev` that a walk has met before place `(h, t)`.
spec fn best_so_far(
    hyps: Seq<HypothesisView>,
    rows: Seq<Seq<i64>>,
    prev: Option<(usize, usize)>,
    best: Option<(usize, usize)>,
    best_score: int,
    h: int,
    t: int,
) -> bool {
    &&& best matches Some(c) ==> {
        &&& follows(hyps, rows, prev, c)
        &&& walked(c, h, t)
        &&& best_score == candidate_score(hyps, rows, c)
    }
    &&& forall|x: (usize, usize)| #[trigger]
        follows(hyps, rows, prev, x) && walked(x, h, t) ==> best is Some && (x == best->0
            || outranks(hyps, rows, best->0, x))
}

/// The first of the candidates behind `prev`.
fn next_pick(
    hyps: &Vec<Hypothesis>,
    rows: &Vec<Vec<i64>>,
    prev: Option<(usize, usize)>,
    steps: usize,
) -> (pick: Option<(usize, usize)>)
    requires
        rows@.len() == hyps@.len(),
        bounded(views(hyps@), steps as nat),
        steps < usize::MAX,
        prev matches Some(p) ==> is_candidate(views(hyps@), rows_of(rows@), p),
    ensures
        is_next(views(hyps@), rows_of(rows@), prev, pick),
{
    let ghost hv = views(hyps@);
    let ghost rv = rows_of(rows@);
    let prev_score: i128 = match prev {
        None => 0,
        Some((ph, pt)) => {
            if hyps[ph].finished {
                hyps[ph].score
            } else {
                hyps[ph].score + rows[ph][pt] as i128
            }
        },
    };
    let mut best: Option<(usize, usize)> = None;
    let mut best_score: i128 = 0;
    let mut h: usize = 0;
    while h < hyps.len()
        invariant
            h <= hyps.len(),
            rows@.len() == hyps@.len(),
            hv == views(hyps@),
            rv == rows_of(rows@),
            bounded(hv, steps as nat),
            steps < usize::MAX,
            prev matches Some(p) ==> is_candidate(hv, rv, p) && prev_score == candidate_score(
                hv,
                rv,
                p,
            ),
            best_so_far(hv, rv, prev, best, best_score as int, h as int, 0),
        decreases hyps.len() - h,
    {
        let live = !hyps[h].finished;
        let width = if live {
            rows[h].len()
        } else {
            1
        };
        let mut t: usize = 0;
        while t < width
            invariant
                h < hyps.len(),
                t <= width,
                rows@.len() == hyps@.len(),
                hv == views(hyps@),
                rv == rows_of(rows@),
                hv[h as int] == hyps@[h as int]@,
                rv[h as int] == rows@[h as int]@,
                live == !hyps@[h as int].finished,
                width == if live {
                    rows@[h as int]@.len()
                } else {
                    1
                },
                bounded(hv, steps as nat),
                steps < usize::MAX,
                prev matches Some(p) ==> is_candidate(hv, rv, p) && prev_score == candidate_score(
                    hv,
                    rv,
                    p,
                ),
                best_so_far(hv, rv, prev, best, best_score as int, h as int, t as int),
            decreases width - t,
        {
            let score: i128 = if live {
                hyps[h].score + rows[h][t] as i128
            } else {
                hyps[h].score
            };
            let behind = match prev {
                None => true,
                Some((ph, pt)) => score < prev_score || (score == prev_score && (h > ph || (h == ph
                    && t > pt))),
            };
            if behind {
                let better = match best {
                    None => true,
                    Some(_) => score > best_score,
                };
                if better {
                    best = Some((h, t));
                    best_score = score;
                }
            }
            proof {
                assert forall|x: (usize, usize)| #[trigger]
                    follows(hv, rv, prev, x) && walked(x, h as int, t + 1) implies best is Some
                    && (x == best->0 || outranks(hv, rv, best->0, x)) by {}
            }
            t += 1;
        }
        proof {
            assert forall|x: (usize, usize)| #[trigger]
                follows(hv, rv, prev, x) && walked(x, h + 1, 0) implies best is Some && (x
                == best->0 || outranks(hv, rv, best->0, x)) by {}
        }
        h += 1;
    }
    proof {
        assert forall|x: (usize, usize)| #[trigger] follows(hv, rv, prev, x) implies walked(
            x,
            hyps@.len() as int,
            0,
        ) by {}
    }
    best
}

/// The best `width` candidates of a group, best first.
fn rank_group(hyps: &Vec<Hypothesis>, rows: &Vec<Vec<i64>>, width: usize, steps: usize) -> (picks:
    Vec<(usize, usize)>)
    requires
        rows@.len() == hyps@.len(),
        bounded(views(hyps@), steps as nat),
        steps < usize::MAX,
    ensures
        is_ranking(views(hyps@), rows_of(rows@), picks@, width as nat),
        picks@ == ranking(views(hyps@), rows_of(rows@), width as nat),
{
    let ghost hv = views(hyps@);
    let ghost rv = rows_of(rows@);
    let mut picks: Vec<(usize, usize)> = Vec::new();
    let mut prev: Option<(usize, usize)> = None;
    let mut more = true;
    while more && picks.len() < width
        invariant
            picks@.len() <= width,
            rows@.len() == hyps@.len(),
            hv == views(hyps@),
            rv == rows_of(rows@),
            bounded(hv, steps as nat),
            steps < usize::MAX,
            prev == if picks@.len() == 0 {
                None
            } else {
                Some(picks@.last())
            },
            forall|j: int| 0 <= j < picks@.len() ==> is_candidate(hv, rv, #[trigger] picks@[j]),
            forall|i: int, j: int|
                0 <= i < j < picks@.len() ==> outranks(
                    hv,
                    rv,
                    #[trigger] picks@[i],
                    #[trigger] picks@[j],
                ),
            forall|c: (usize, usize)| #[trigger]
                is_candidate(hv, rv, c) ==> picks@.contains(c) || (more && follows(hv, rv, prev, c)),
        decreases width - picks@.len() + if more { 1int } else { 0int },
    {
        let ghost before = picks@;
        match next_pick(hyps, rows, prev, steps) {
            None => {
                more = false;
                proof {
                    assert forall|c: (usize, usize)| #[trigger]
                        is_candidate(hv, rv, c) implies picks@.contains(c) by {}
                }
            },
            Some(c) => {
                picks.push(c);
                prev = Some(c);
                proof {
                    assert(picks@.last() == c);
                    assert forall|i: int, j: int| 0 <= i < j < picks@.len() implies outranks(
                        hv,
                        rv,
                        #[trigger] picks@[i],
                        #[trigger] picks@[j],
                    ) by {}
                    assert forall|x: (usize, usize)| #[trigger]
                        is_candidate(hv, rv, x) implies picks@.contains(x) || follows(
                        hv,
                        rv,
                        prev,
                        x,
                    ) by {
                        if before.contains(x) {
                            let i = choose|i: int| 0 <= i < before.len() && before[i] == x;
                            assert(picks@[i] == x);
                        }
                    }
                }
            },
        }
    }
    proof {
        assert forall|c: (usize, usize)| #[trigger]
            is_candidate(hv, rv, c) implies picks@.contains(c) || (picks@.len() == width && (width
            == 0 || outranks(hv, rv, picks@.last(), c))) by {}
        lemma_ranking_unique(hv, rv, picks@, width as nat);
    }
    picks
}

/// The hypotheses that the picked candidates stand for.
fn grow_group(
    hyps: &Vec<Hypothesis>,
    rows: &Vec<Vec<i64>>,
    picks: &Vec<(usize, usize)>,
    eos_token: usize,
    steps: usize,
) -> (next: Vec<Hypothesis>)
    requires
        rows@.len() == hyps@.len(),
        bounded(views(hyps@), steps as nat),
        steps < usize::MAX,
        forall|j: int|
            0 <= j < picks@.len() ==> is_candidate(
                views(hyps@),
                rows_of(rows@),
                #[trigger] picks@[j],
            ),
    ensures
        views(next@) == Seq::new(
            picks@.len(),
            |j: int| grown(views(hyps@), rows_of(rows@), picks@[j], eos_token),
        ),
        bounded(views(next@), (steps + 1) as nat),
{
    let ghost hv = views(hyps@);
    let ghost rv = rows_of(rows@);
    let ghost want = Seq::new(picks@.len(), |j: int| grown(hv, rv, picks@[j], eos_token));
    let mut next: Vec<Hypothesis> = Vec::new();
    let mut j: usize = 0;
    while j < picks.len()
        invariant
            j <= picks.len(),
            next@.len() == j,
            rows@.len() == hyps@.len(),
            hv == views(hyps@),
            rv == rows_of(rows@),
            want == Seq::new(picks@.len(), |j: int| grown(hv, rv, picks@[j], eos_token)),
            bounded(hv, steps as nat),
            steps < usize::MAX,
            forall|i: int| 0 <= i < picks@.len() ==> is_candidate(hv, rv, #[trigger] picks@[i]),
            forall|i: int| 0 <= i < j ==> (#[trigger] next@[i])@ == want[i],
            forall|i: int|
                0 <= i < j ==> -(steps + 1) * span() <= (#[trigger] next@[i])@.score <= (steps + 1)
                    * span(),
        decreases picks.len() - j,
    {
        let (h, t) = picks[j];
        let mut tokens = copy_tokens(&hyps[h].tokens);
        let grown = if hyps[h].finished {
            Hypothesis { tokens, score: hyps[h].score, finished: true }
        } else {
            tokens.push(t);
            Hypothesis {
                tokens,
                score: hyps[h].score + rows[h][t] as i128,
                finished: t == eos_token,
            }
        };
        next.push(grown);
        j += 1;
    }
    proof {
        assert forall|h: int| 0 <= h < views(next@).len() implies -(steps + 1) * span() <= (
        #[trigger] views(next@)[h]).score <= (steps + 1) * span() by {}
    }
    next
}

} // verus!
