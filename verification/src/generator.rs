//! The generator: one run of greedy decoding or of beam search, fed row by
//! row.
//!
//! A language model scores a batch of token sequences at once, one row for
//! each. The generator holds a search, lays its sequences out as such rows,
//! takes the scores back in the same order, and says for every row after the
//! step which row before the step it grew from, so that whatever the model
//! keeps between steps can be put in the same order.

use vstd::prelude::*;
use crate::beam::{
    BeamSearch, BeamView, beam_after, beam_done, beam_outputs, beam_start, beam_verdict, cube_of,
};
use crate::error::AttentionError;
use crate::generation::{GenerateConfig, copy_tokens, decodable, rows_of};
use crate::greedy::{GreedySearch, GreedyView, greedy_after, greedy_done, greedy_start, greedy_verdict};
use crate::ranking::lemma_ranking_exists;

verus! {

/// A generation run under way.
#[derive(Debug)]
pub enum Generator {
    /// Every sequence follows its best token.
    Greedy(GreedySearch),
    /// Every prompt keeps several hypotheses.
    Beam(BeamSearch),
}

/// A generation run as plain mathematics.
pub enum GeneratorView {
    Greedy(GreedyView),
    Beam(BeamView),
}

impl View for Generator {
    type V = GeneratorView;

    open spec fn view(&self) -> GeneratorView {
        match self {
            Generator::Greedy(search) => GeneratorView::Greedy(search@),
            Generator::Beam(search) => GeneratorView::Beam(search@),
        }
    }
}

/// The run before its first step: a greedy search where the settings ask
/// for one beam, a beam search where they ask for more.
pub open spec fn generator_start(prompts: Seq<Seq<usize>>, config: GenerateConfig, eos_token: usize)
    -> GeneratorView {
    if config.num_beams == 1 {
        GeneratorView::Greedy(greedy_start(prompts, config.max_length as nat, eos_token))
    } else {
        GeneratorView::Beam(beam_start(prompts, config, eos_token))
    }
}

/// Whether the run is over.
pub open spec fn generator_done(v: GeneratorView) -> bool {
    match v {
        GeneratorView::Greedy(g) => greedy_done(g),
        GeneratorView::Beam(b) => beam_done(b),
    }
}

/// The number of hypotheses of every group of a beam search.
pub open spec fn group_sizes(b: BeamView) -> Seq<nat> {
    Seq::new(b.groups.len(), |g: int| b.groups[g].len())
}

/// The tokens of every hypothesis of every group of a beam search.
pub open spec fn group_tokens(b: BeamView) -> Seq<Seq<Seq<usize>>> {
    Seq::new(b.groups.len(), |g: int| Seq::new(b.groups[g].len(), |h: int| b.groups[g][h].tokens))
}

/// The place of the first row of group `g` where groups of these sizes
/// follow one another; with `g` the number of groups, the number of rows.
pub open spec fn first_row(sizes: Seq<nat>, g: int) -> nat
    decreases g,
{
    if g <= 0 {
        0
    } else {
        first_row(sizes, g - 1) + sizes[g - 1]
    }
}

/// Rows cut into groups of the given sizes, one after the other.
pub open spec fn grouped<T>(rows: Seq<T>, sizes: Seq<nat>) -> Seq<Seq<T>> {
    Seq::new(
        sizes.len(),
        |g: int| rows.subrange(first_row(sizes, g) as int, (first_row(sizes, g) + sizes[g]) as int),
    )
}

/// For every row after a step of a beam search the row before the step
/// that it grew from: the place of its parent in its group, counted on from
/// the first row of the group.
pub open spec fn parent_rows(parents: Seq<Seq<usize>>, sizes: Seq<nat>) -> Seq<usize> {
    Seq::new(
        parents.len(),
        |g: int| Seq::new(parents[g].len(), |j: int| (first_row(sizes, g) + parents[g][j]) as usize),
    ).flatten()
}

/// The sequences that the language model scores next, one row for each: the
/// sequences of a greedy search, the hypotheses of a beam search group after
/// group.
pub open spec fn generator_rows(v: GeneratorView) -> Seq<Seq<usize>> {
    match v {
        GeneratorView::Greedy(g) => g.sequences,
        GeneratorView::Beam(b) => group_tokens(b).flatten(),
    }
}

/// The sequences that the run hands back: one for every prompt of a greedy
/// search, the best `num_return_sequences` for every prompt of a beam
/// search, prompt after prompt.
pub open spec fn generator_outputs(v: GeneratorView) -> Seq<Seq<usize>> {
    match v {
        GeneratorView::Greedy(g) => g.sequences,
        GeneratorView::Beam(b) => beam_outputs(b).flatten(),
    }
}

/// Whether `scores` holds one row for every row of the run.
pub open spec fn generator_fits(v: GeneratorView, scores: Seq<Seq<i64>>) -> bool {
    match v {
        GeneratorView::Greedy(g) => scores.len() == g.sequences.len(),
        GeneratorView::Beam(b) => scores.len() == first_row(
            group_sizes(b),
            b.groups.len() as int,
        ),
    }
}

/// The run that `advance` gives back for `scores`.
pub open spec fn generator_after(v: GeneratorView, scores: Seq<Seq<i64>>) -> GeneratorView {
    match v {
        GeneratorView::Greedy(g) => GeneratorView::Greedy(greedy_after(g, scores)),
        GeneratorView::Beam(b) => if generator_fits(v, scores) {
            GeneratorView::Beam(beam_after(b, grouped(scores, group_sizes(b))))
        } else {
            v
        },
    }
}

/// What `advance` answers to `scores`: for every row after the step the row
/// that it grew from, or why no step was taken.
pub open spec fn generator_verdict(v: GeneratorView, scores: Seq<Seq<i64>>) -> Result<
    Seq<usize>,
    AttentionError,
> {
    match v {
        GeneratorView::Greedy(g) => match greedy_verdict(g, scores) {
            Ok(_) => Ok(Seq::new(g.sequences.len(), |i: int| i as usize)),
            Err(e) => Err(e),
        },
        GeneratorView::Beam(b) => if beam_done(b) {
            Err(AttentionError::GenerationExhausted)
        } else if !generator_fits(v, scores) {
            Err(AttentionError::ShapeMismatch)
        } else {
            match beam_verdict(b, grouped(scores, group_sizes(b))) {
                Ok(parents) => Ok(parent_rows(parents, group_sizes(b))),
                Err(e) => Err(e),
            }
        },
    }
}

impl Generator {
    /// A run for `prompts` under `config` that stops at `eos_token`.
    ///
    /// Fails with `GenerationExhausted` where the settings ask for a random
    /// draw, for no sequence, or for more sequences than beams.
    pub fn start(prompts: Vec<Vec<usize>>, config: &GenerateConfig, eos_token: usize) -> (res:
        Result<Generator, AttentionError>)
        ensures
            res is Ok <==> decodable(*config),
            res matches Err(e) ==> e == AttentionError::GenerationExhausted,
            res matches Ok(run) ==> run@ == generator_start(rows_of(prompts@), *config, eos_token),
    {
        if config.num_beams == 1 {
            match GreedySearch::start(prompts, config, eos_token) {
                Ok(search) => Ok(Generator::Greedy(search)),
                Err(e) => Err(e),
            }
        } else {
            match BeamSearch::start(prompts, config, eos_token) {
                Ok(search) => Ok(Generator::Beam(search)),
                Err(e) => Err(e),
            }
        }
    }

    /// Whether the run is over.
    pub fn is_done(&self) -> (done: bool)
        ensures
            done == generator_done(self@),
    {
        match self {
            Generator::Greedy(search) => search.is_done(),
            Generator::Beam(search) => search.is_done(),
        }
    }

    /// The sequences that the language model scores next, one row for each.
    pub fn rows(&self) -> (out: Vec<Vec<usize>>)
        ensures
            rows_of(out@) == generator_rows(self@),
    {
        match self {
            Generator::Greedy(search) => search.outputs(),
            Generator::Beam(search) => {
                let nested = search.hypotheses();
                proof {
                    assert(cube_of(nested@) =~~= group_tokens(search@)) by {
                        assert forall|g: int| 0 <= g < nested@.len() implies rows_of(nested@[g]@)
                            =~= group_tokens(search@)[g] by {
                            assert forall|h: int| 0 <= h < nested@[g]@.len() implies rows_of(
                                nested@[g]@,
                            )[h] == group_tokens(search@)[g][h] by {}
                        }
                    }
                }
                flatten_rows(&nested)
            },
        }
    }

    /// The sequences that the run hands back, prompt after prompt.
    pub fn outputs(&self) -> (out: Vec<Vec<usize>>)
        ensures
            rows_of(out@) == generator_outputs(self@),
    {
        match self {
            Generator::Greedy(search) => search.outputs(),
            Generator::Beam(search) => {
                let nested = search.outputs();
                flatten_rows(&nested)
            },
        }
    }

    /// The run after the step that `scores` decides, and for every row of
    /// the new run the row of the old run that it grew from.
    ///
    /// `scores` holds one row for every row of `rows`, in the same order,
    /// and in each row one score for every token of the vocabulary. A greedy
    /// search steps as `GreedySearch::advance` does, and every row grows
    /// from itself. A beam search steps as `BeamSearch::advance` does on the
    /// rows cut into its groups.
    ///
    /// Fails with `GenerationExhausted` where the run is over, with
    /// `ShapeMismatch` where the number of rows is not that of `rows`, and
    /// with `GenerationExhausted` where the row of an unfinished sequence is
    /// empty: the run is then stopped with what it has.
    pub fn advance(self, scores: &Vec<Vec<i64>>) -> (next: (
        Generator,
        Result<Vec<usize>, AttentionError>,
    ))
        ensures
            next.0@ == generator_after(self@, rows_of(scores@)),
            match next.1 {
                Ok(parents) => generator_verdict(self@, rows_of(scores@)) == Ok::<
                    Seq<usize>,
                    AttentionError,
                >(parents@),
                Err(e) => generator_verdict(self@, rows_of(scores@)) == Err::<
                    Seq<usize>,
                    AttentionError,
                >(e),
            },
    {
        match self {
            Generator::Greedy(search) => {
                let count = scores.len();
                let (after, answer) = search.advance(scores);
                match answer {
                    Err(e) => (Generator::Greedy(after), Err(e)),
                    Ok(_) => {
                        let mut same: Vec<usize> = Vec::new();
                        let mut i: usize = 0;
                        while i < count
                            invariant
                                i <= count,
                                same@.len() == i,
                                forall|k: int| 0 <= k < i ==> same@[k] == k,
                            decreases count - i,
                        {
                            same.push(i);
                            i += 1;
                        }
                        assert(same@ =~= Seq::new(count as nat, |i: int| i as usize));
                        (Generator::Greedy(after), Ok(same))
                    },
                }
            },
            Generator::Beam(search) => {
                let ghost before = search@;
                let ghost flat = rows_of(scores@);
                if search.is_done() {
                    return (Generator::Beam(search), Err(AttentionError::GenerationExhausted));
                }
                let sizes = search.sizes();
                proof {
                    assert(sizes@.map_values(|n: usize| n as nat) =~= group_sizes(before));
                }
                let cube = match regroup(scores, &sizes) {
                    Some(cube) => cube,
                    None => {
                        return (Generator::Beam(search), Err(AttentionError::ShapeMismatch));
                    },
                };
                let (after, answer) = search.advance(&cube);
                match answer {
                    Err(e) => (Generator::Beam(after), Err(e)),
                    Ok(parents) => {
                        proof {
                            let want = grouped(flat, group_sizes(before));
                            assert forall|g: int, j: int|
                                0 <= g < parents@.len() && 0 <= j < parents@[g]@.len() implies (
                            #[trigger] parents@[g]@[j]) < sizes@[g] by {
                                lemma_ranking_exists(
                                    before.groups[g],
                                    want[g],
                                    before.num_beams,
                                );
                                assert(rows_of(parents@)[g] == parents@[g]@);
                            }
                        }
                        let rows = flatten_parents(&parents, &sizes, scores.len());
                        (Generator::Beam(after), Ok(rows))
                    },
                }
            },
        }
    }
}

/// A copy of a row of scores.
fn copy_scores(row: &Vec<i64>) -> (copy: Vec<i64>)
    ensures
        copy@ == row@,
{
    let mut copy: Vec<i64> = Vec::new();
    let mut i: usize = 0;
    while i < row.len()
        invariant
            i <= row.len(),
            copy@ == row@.take(i as int),
        decreases row.len() - i,
    {
        copy.push(row[i]);
        i += 1;
    }
    copy
}

/// The sizes as numbers without bound.
spec fn unbounded(sizes: Seq<usize>) -> Seq<nat> {
    sizes.map_values(|n: usize| n as nat)
}

/// Rows of scores cut into groups of the given sizes, or nothing where the
/// sizes do not add up to the number of rows.
fn regroup(scores: &Vec<Vec<i64>>, sizes: &Vec<usize>) -> (out: Option<Vec<Vec<Vec<i64>>>>)
    ensures
        out is Some <==> scores@.len() == first_row(unbounded(sizes@), sizes@.len() as int),
        out matches Some(cube) ==> cube_of(cube@) == grouped(rows_of(scores@), unbounded(sizes@)),
{
    let ghost all = unbounded(sizes@);
    let ghost want = grouped(rows_of(scores@), all);
    let total = scores.len();
    let mut cube: Vec<Vec<Vec<i64>>> = Vec::new();
    let mut first: usize = 0;
    let mut g: usize = 0;
    while g < sizes.len()
        invariant
            g <= sizes.len(),
            all == unbounded(sizes@),
            want == grouped(rows_of(scores@), all),
            first == first_row(all, g as int),
            first <= total == scores@.len(),
            cube@.len() == g,
            forall|i: int| 0 <= i < g ==> rows_of((#[trigger] cube@[i])@) == want[i],
        decreases sizes.len() - g,
    {
        let size = sizes[g];
        if size > total - first {
            proof {
                lemma_first_row_grows(all, g + 1, sizes@.len() as int);
            }
            return None;
        }
        let mut group: Vec<Vec<i64>> = Vec::new();
        let mut h: usize = 0;
        while h < size
            invariant
                h <= size,
                first + size <= total == scores@.len(),
                group@.len() == h,
                forall|k: int| 0 <= k < h ==> (#[trigger] group@[k])@ == scores@[first + k]@,
            decreases size - h,
        {
            group.push(copy_scores(&scores[first + h]));
            h += 1;
        }
        proof {
            assert(rows_of(group@) =~= want[g as int]) by {
                assert forall|k: int| 0 <= k < size implies rows_of(group@)[k] == want[g as int][k] by {}
            }
        }
        cube.push(group);
        first = first + size;
        g += 1;
    }
    if first != total {
        return None;
    }
    Some(cube)
}

/// The first row of a later group is no earlier than that of an earlier one.
proof fn lemma_first_row_grows(sizes: Seq<nat>, a: int, b: int)
    requires
        0 <= a <= b,
    ensures
        first_row(sizes, a) <= first_row(sizes, b),
    decreases b - a,
{
    if a < b {
        lemma_first_row_grows(sizes, a, b - 1);
    }
}

/// The rows of every group, group after group.
fn flatten_rows(nested: &Vec<Vec<Vec<usize>>>) -> (out: Vec<Vec<usize>>)
    ensures
        rows_of(out@) == cube_of(nested@).flatten(),
{
    let ghost cube = cube_of(nested@);
    let mut out: Vec<Vec<usize>> = Vec::new();
    let mut g: usize = 0;
    while g < nested.len()
        invariant
            g <= nested.len(),
            cube == cube_of(nested@),
            rows_of(out@) == cube.take(g as int).flatten(),
        decreases nested.len() - g,
    {
        let group = &nested[g];
        let ghost done = rows_of(out@);
        let mut h: usize = 0;
        while h < group.len()
            invariant
                h <= group.len(),
                group == &nested@[g as int],
                cube == cube_of(nested@),
                g < nested.len(),
                rows_of(out@) == done + cube[g as int].take(h as int),
            decreases group.len() - h,
        {
            let ghost old_rows = rows_of(out@);
            out.push(copy_tokens(&group[h]));
            h += 1;
            proof {
                assert(rows_of(out@) =~= done + cube[g as int].take(h as int)) by {
                    assert(rows_of(out@).len() == old_rows.len() + 1);
                    assert forall|k: int| 0 <= k < rows_of(out@).len() implies rows_of(out@)[k] == (
                    done + cube[g as int].take(h as int))[k] by {
                        if k < old_rows.len() {
                            assert(old_rows[k] == out@[k]@);
                        }
                    }
                }
            }
        }
        proof {
            assert(cube.take(g + 1) =~= cube.take(g as int).push(cube[g as int]));
            cube.take(g as int).lemma_flatten_push(cube[g as int]);
        }
        g += 1;
    }
    proof {
        assert(cube.take(g as int) =~= cube);
    }
    out
}

/// For every row after a step the row before the step that it grew from.
fn flatten_parents(parents: &Vec<Vec<usize>>, sizes: &Vec<usize>, total: usize) -> (out: Vec<usize>)
    requires
        parents@.len() == sizes@.len(),
        total == first_row(unbounded(sizes@), sizes@.len() as int),
        forall|g: int, j: int|
            0 <= g < parents@.len() && 0 <= j < parents@[g]@.len() ==> (#[trigger] parents@[g]@[j])
                < sizes@[g],
    ensures
        out@ == parent_rows(rows_of(parents@), unbounded(sizes@)),
{
    let ghost all = unbounded(sizes@);
    let ghost nested = Seq::new(
        parents@.len(),
        |g: int|
            Seq::new(
                rows_of(parents@)[g].len(),
                |j: int| (first_row(all, g) + rows_of(parents@)[g][j]) as usize,
            ),
    );
    let mut out: Vec<usize> = Vec::new();
    let mut first: usize = 0;
    let mut g: usize = 0;
    while g < parents.len()
        invariant
            g <= parents.len(),
            parents@.len() == sizes@.len(),
            all == unbounded(sizes@),
            total == first_row(all, sizes@.len() as int),
            nested == Seq::new(
                parents@.len(),
                |g: int|
                    Seq::new(
                        rows_of(parents@)[g].len(),
                        |j: int| (first_row(all, g) + rows_of(parents@)[g][j]) as usize,
                    ),
            ),
            first == first_row(all, g as int),
            forall|g: int, j: int|
                0 <= g < parents@.len() && 0 <= j < parents@[g]@.len() ==> (
                #[trigger] parents@[g]@[j]) < sizes@[g],
            out@ == nested.take(g as int).flatten(),
        decreases parents.len() - g,
    {
        let group = &parents[g];
        let size = sizes[g];
        let ghost done = out@;
        proof {
            lemma_first_row_grows(all, g + 1, sizes@.len() as int);
        }
        let mut j: usize = 0;
        while j < group.len()
            invariant
                j <= group.len(),
                g < parents.len(),
                group == &parents@[g as int],
                first + size <= total,
                first == first_row(all, g as int),
                rows_of(parents@)[g as int] == group@,
                nested == Seq::new(
                    parents@.len(),
                    |g: int|
                        Seq::new(
                            rows_of(parents@)[g].len(),
                            |j: int| (first_row(all, g) + rows_of(parents@)[g][j]) as usize,
                        ),
                ),
                forall|k: int| 0 <= k < group@.len() ==> (#[trigger] group@[k]) < size,
                out@ == done + nested[g as int].take(j as int),
            decreases group.len() - j,
        {
            out.push(first + group[j]);
            j += 1;
        }
        proof {
            assert(nested.take(g + 1) =~= nested.take(g as int).push(nested[g as int]));
            nested.take(g as int).lemma_flatten_push(nested[g as int]);
        }
        first = first + size;
        g += 1;
    }
    proof {
        assert(nested.take(g as int) =~= nested);
    }
    out
}

} // verus!
