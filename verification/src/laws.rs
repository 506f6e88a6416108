//! What holds of whole decoding runs: a beam search with a single beam goes
//! the way of the greedy search, and a run is fixed by what goes into it.
//!
//! A run is a search followed through a list of events, the scores that
//! came back from the language model step after step.

use vstd::prelude::*;
use crate::beam::{
    BeamView, all_beams_finished, beam_after, beam_done, beam_fits, beam_outputs, beam_start,
    beam_starved, beam_step, beam_verdict,
};
use crate::ranking::{
    HypothesisView, group_step, is_candidate, lemma_full_beam_stays_full, lemma_ranking_unique,
    outranks,
};
use crate::error::AttentionError;
use crate::generation::{GenerateConfig, argmax, lemma_argmax_exists};
use crate::generator::{GeneratorView, generator_after, generator_outputs, generator_start};
use crate::greedy::{
    GreedyView, all_finished, greedy_after, greedy_extend, greedy_finishes, greedy_start,
    greedy_starved, greedy_step, greedy_verdict,
};

verus! {

/// Whether a beam search stands where a greedy search stands: it has one
/// beam, and the one hypothesis of each of its groups is the sequence of
/// that place, finished or not as that sequence is.
pub open spec fn mirrors(b: BeamView, g: GreedyView) -> bool {
    &&& b.num_beams == 1
    &&& b.groups.len() == g.sequences.len()
    &&& g.finished.len() == g.sequences.len()
    &&& forall|i: int|
        0 <= i < b.groups.len() ==> {
            &&& (#[trigger] b.groups[i]).len() == 1
            &&& b.groups[i][0].tokens == g.sequences[i]
            &&& b.groups[i][0].finished == g.finished[i]
        }
    &&& b.cur_len == g.cur_len
    &&& b.max_length == g.max_length
    &&& b.eos_token == g.eos_token
    &&& b.exhausted == g.exhausted
}

/// The scores of a greedy step as a beam search with one beam takes them:
/// each row as the only row of its group.
pub open spec fn one_row_each(scores: Seq<Seq<i64>>) -> Seq<Seq<Seq<i64>>> {
    Seq::new(scores.len(), |i: int| seq![scores[i]])
}

/// Whether every row of scores is short enough to be held in memory.
pub open spec fn rows_fit_memory(scores: Seq<Seq<i64>>) -> bool {
    forall|i: int| 0 <= i < scores.len() ==> (#[trigger] scores[i]).len() <= usize::MAX
}

/// The one hypothesis of a group with one beam takes the token that the
/// greedy search takes.
proof fn lemma_single_group_step(hyp: HypothesisView, row: Seq<i64>, eos_token: usize)
    requires
        hyp.finished || 0 < row.len() <= usize::MAX,
    ensures
        group_step(seq![hyp], seq![row], 1, eos_token).len() == 1,
        group_step(seq![hyp], seq![row], 1, eos_token)[0].tokens == greedy_extend(
            hyp.tokens,
            hyp.finished,
            row,
        ),
        group_step(seq![hyp], seq![row], 1, eos_token)[0].finished == greedy_finishes(
            hyp.finished,
            row,
            eos_token,
        ),
{
    let hyps = seq![hyp];
    let rows = seq![row];
    let pick: (usize, usize) = if hyp.finished {
        (0usize, 0usize)
    } else {
        (0usize, argmax(row) as usize)
    };
    if !hyp.finished {
        lemma_argmax_exists(row);
    }
    let picks = seq![pick];
    assert forall|c: (usize, usize)| #[trigger] is_candidate(hyps, rows, c) implies picks.contains(
        c,
    ) || outranks(hyps, rows, picks.last(), c) by {}
    lemma_ranking_unique(hyps, rows, picks, 1);
}

/// A beam search with one beam starts where the greedy search starts.
pub proof fn lemma_single_beam_starts_as_greedy(
    prompts: Seq<Seq<usize>>,
    config: GenerateConfig,
    eos_token: usize,
)
    requires
        config.num_beams == 1,
    ensures
        mirrors(
            beam_start(prompts, config, eos_token),
            greedy_start(prompts, config.max_length as nat, eos_token),
        ),
{
}

/// A beam search with one beam that stands where a greedy search stands,
/// and is handed the same scores, answers as the greedy search answers and
/// stands afterwards where the greedy search stands.
pub proof fn lemma_single_beam_steps_as_greedy(b: BeamView, g: GreedyView, scores: Seq<Seq<i64>>)
    requires
        mirrors(b, g),
        rows_fit_memory(scores),
    ensures
        mirrors(beam_after(b, one_row_each(scores)), greedy_after(g, scores)),
        beam_verdict(b, one_row_each(scores)) is Ok <==> greedy_verdict(g, scores) is Ok,
        beam_verdict(b, one_row_each(scores)) matches Err(e) ==> greedy_verdict(g, scores) == Err::<
            (),
            AttentionError,
        >(e),
{
    let cube = one_row_each(scores);
    // both are over, or neither
    if all_finished(g.finished) {
        assert forall|i: int, h: int|
            0 <= i < b.groups.len() && 0 <= h < b.groups[i].len() implies (
        #[trigger] b.groups[i][h]).finished by {}
    }
    if all_beams_finished(b.groups) {
        assert forall|i: int| 0 <= i < g.finished.len() implies g.finished[i] by {
            assert(b.groups[i].len() == 1);
        }
    }
    if !beam_done(b) {
        // the scores fit both, or neither
        if scores.len() == g.sequences.len() {
            assert forall|i: int| 0 <= i < b.groups.len() implies (#[trigger] cube[i]).len()
                == b.groups[i].len() by {}
        }
        if beam_fits(b, cube) {
            // both are starved, or neither
            if greedy_starved(g, scores) {
                let i = choose|i: int|
                    0 <= i < g.sequences.len() && !g.finished[i] && (#[trigger] scores[i]).len()
                        == 0;
                assert(cube[i][0] == scores[i]);
            }
            if !beam_starved(b, cube) {
                let after_b = beam_step(b, cube);
                let after_g = greedy_step(g, scores);
                assert forall|i: int| 0 <= i < after_b.groups.len() implies {
                    &&& (#[trigger] after_b.groups[i]).len() == 1
                    &&& after_b.groups[i][0].tokens == after_g.sequences[i]
                    &&& after_b.groups[i][0].finished == after_g.finished[i]
                } by {
                    assert(b.groups[i] =~= seq![b.groups[i][0]]);
                    lemma_single_group_step(b.groups[i][0], scores[i], b.eos_token);
                }
            }
        }
    }
}

/// A beam search with one beam that stands where a greedy search stands
/// hands back, for every prompt, the one sequence that the greedy search
/// hands back.
pub proof fn lemma_single_beam_outputs_as_greedy(b: BeamView, g: GreedyView)
    requires
        mirrors(b, g),
        b.num_return_sequences == 1,
    ensures
        beam_outputs(b) == Seq::new(g.sequences.len(), |i: int| seq![g.sequences[i]]),
{
    let got = beam_outputs(b);
    let want = Seq::new(g.sequences.len(), |i: int| seq![g.sequences[i]]);
    assert forall|i: int| 0 <= i < got.len() implies got[i] == want[i] by {}
}

/// A greedy search followed through a list of events.
pub open spec fn greedy_run(g: GreedyView, events: Seq<Seq<Seq<i64>>>) -> GreedyView
    decreases events.len(),
{
    if events.len() == 0 {
        g
    } else {
        greedy_run(greedy_after(g, events[0]), events.skip(1))
    }
}

/// A beam search followed through a list of events.
pub open spec fn beam_run(b: BeamView, events: Seq<Seq<Seq<Seq<i64>>>>) -> BeamView
    decreases events.len(),
{
    if events.len() == 0 {
        b
    } else {
        beam_run(beam_after(b, events[0]), events.skip(1))
    }
}

/// The events of a greedy run as a beam search with one beam takes them.
pub open spec fn one_row_each_step(events: Seq<Seq<Seq<i64>>>) -> Seq<Seq<Seq<Seq<i64>>>> {
    Seq::new(events.len(), |k: int| one_row_each(events[k]))
}

/// Whether every row of every event is short enough to be held in memory.
pub open spec fn events_fit_memory(events: Seq<Seq<Seq<i64>>>) -> bool {
    forall|k: int| 0 <= k < events.len() ==> rows_fit_memory(#[trigger] events[k])
}

/// A beam search with one beam that stands where a greedy search stands
/// still does after any run through the same events.
pub proof fn lemma_single_beam_follows_greedy(
    b: BeamView,
    g: GreedyView,
    events: Seq<Seq<Seq<i64>>>,
)
    requires
        mirrors(b, g),
        events_fit_memory(events),
    ensures
        mirrors(beam_run(b, one_row_each_step(events)), greedy_run(g, events)),
    decreases events.len(),
{
    if events.len() > 0 {
        let wide = one_row_each_step(events);
        lemma_single_beam_steps_as_greedy(b, g, events[0]);
        let rest = events.skip(1);
        assert forall|k: int| 0 <= k < rest.len() implies rows_fit_memory(#[trigger] rest[k]) by {}
        assert(wide.skip(1) =~= one_row_each_step(rest));
        lemma_single_beam_follows_greedy(
            beam_after(b, wide[0]),
            greedy_after(g, events[0]),
            rest,
        );
    }
}

/// With one beam, beam search hands back what greedy decoding hands back:
/// for the same prompts, the same settings and the same scores step after
/// step, the one sequence of every prompt is the same, token for token.
pub proof fn lemma_single_beam_is_greedy(
    prompts: Seq<Seq<usize>>,
    config: GenerateConfig,
    eos_token: usize,
    events: Seq<Seq<Seq<i64>>>,
)
    requires
        config.num_beams == 1,
        config.num_return_sequences == 1,
        events_fit_memory(events),
    ensures
        beam_outputs(
            beam_run(beam_start(prompts, config, eos_token), one_row_each_step(events)),
        ) == Seq::new(
            prompts.len(),
            |i: int|
                seq![
                    greedy_run(
                        greedy_start(prompts, config.max_length as nat, eos_token),
                        events,
                    ).sequences[i],
                ],
        ),
{
    let b0 = beam_start(prompts, config, eos_token);
    let g0 = greedy_start(prompts, config.max_length as nat, eos_token);
    lemma_single_beam_starts_as_greedy(prompts, config, eos_token);
    lemma_single_beam_follows_greedy(b0, g0, events);
    let b = beam_run(b0, one_row_each_step(events));
    let g = greedy_run(g0, events);
    lemma_beam_run_keeps_settings(b0, one_row_each_step(events));
    lemma_greedy_run_keeps_count(g0, events);
    lemma_single_beam_outputs_as_greedy(b, g);
}

/// A run changes neither the number of beams nor the number of sequences
/// to hand back.
pub proof fn lemma_beam_run_keeps_settings(b: BeamView, events: Seq<Seq<Seq<Seq<i64>>>>)
    ensures
        beam_run(b, events).num_beams == b.num_beams,
        beam_run(b, events).num_return_sequences == b.num_return_sequences,
        beam_run(b, events).max_length == b.max_length,
        beam_run(b, events).eos_token == b.eos_token,
        beam_run(b, events).groups.len() == b.groups.len(),
    decreases events.len(),
{
    if events.len() > 0 {
        lemma_beam_run_keeps_settings(beam_after(b, events[0]), events.skip(1));
    }
}

/// A run changes neither the number of sequences nor where they stop.
pub proof fn lemma_greedy_run_keeps_count(g: GreedyView, events: Seq<Seq<Seq<i64>>>)
    ensures
        greedy_run(g, events).sequences.len() == g.sequences.len(),
        greedy_run(g, events).max_length == g.max_length,
        greedy_run(g, events).eos_token == g.eos_token,
    decreases events.len(),
{
    if events.len() > 0 {
        lemma_greedy_run_keeps_count(greedy_after(g, events[0]), events.skip(1));
    }
}

/// A generation run followed through a list of events.
pub open spec fn generator_run(v: GeneratorView, events: Seq<Seq<Seq<i64>>>) -> GeneratorView
    decreases events.len(),
{
    if events.len() == 0 {
        v
    } else {
        generator_run(generator_after(v, events[0]), events.skip(1))
    }
}

/// Decoding twice gives the same twice: two runs from the same prompts,
/// with the same settings, through the same events hand back the same
/// sequences, token for token. The same holds of two greedy searches and of
/// two beam searches.
pub proof fn lemma_run_repeats(
    prompts: Seq<Seq<usize>>,
    again: Seq<Seq<usize>>,
    config: GenerateConfig,
    eos_token: usize,
    events: Seq<Seq<Seq<i64>>>,
    events_again: Seq<Seq<Seq<i64>>>,
    beam_events: Seq<Seq<Seq<Seq<i64>>>>,
    beam_events_again: Seq<Seq<Seq<Seq<i64>>>>,
)
    requires
        !config.do_sample,
        prompts =~~= again,
        events =~~= events_again,
        beam_events =~~= beam_events_again,
    ensures
        generator_outputs(generator_run(generator_start(prompts, config, eos_token), events))
            == generator_outputs(
            generator_run(generator_start(again, config, eos_token), events_again),
        ),
        greedy_run(greedy_start(prompts, config.max_length as nat, eos_token), events)
            == greedy_run(greedy_start(again, config.max_length as nat, eos_token), events_again),
        beam_run(beam_start(prompts, config, eos_token), beam_events) == beam_run(
            beam_start(again, config, eos_token),
            beam_events_again,
        ),
{
}

/// What a greedy step does to a sequence depends on that sequence and on
/// its row of scores, and on nothing else in the batch: two searches that
/// hold the same sequence, at whatever places, and are handed the same row
/// for it, hold the same sequence afterwards.
pub proof fn lemma_greedy_step_is_per_sequence(
    v: GreedyView,
    scores_v: Seq<Seq<i64>>,
    i: int,
    w: GreedyView,
    scores_w: Seq<Seq<i64>>,
    j: int,
)
    requires
        0 <= i < v.sequences.len(),
        0 <= j < w.sequences.len(),
        v.sequences[i] == w.sequences[j],
        v.finished[i] == w.finished[j],
        scores_v[i] == scores_w[j],
        v.eos_token == w.eos_token,
    ensures
        greedy_step(v, scores_v).sequences[i] == greedy_step(w, scores_w).sequences[j],
        greedy_step(v, scores_v).finished[i] == greedy_step(w, scores_w).finished[j],
{
}

/// What a beam step does to the hypotheses of a prompt depends on those
/// hypotheses and on their rows of scores, and on nothing else in the batch.
pub proof fn lemma_beam_step_is_per_group(
    v: BeamView,
    scores_v: Seq<Seq<Seq<i64>>>,
    i: int,
    w: BeamView,
    scores_w: Seq<Seq<Seq<i64>>>,
    j: int,
)
    requires
        0 <= i < v.groups.len(),
        0 <= j < w.groups.len(),
        v.groups[i] == w.groups[j],
        scores_v[i] == scores_w[j],
        v.num_beams == w.num_beams,
        v.eos_token == w.eos_token,
    ensures
        beam_step(v, scores_v).groups[i] == beam_step(w, scores_w).groups[j],
{
}

/// A full beam stays full through a step: a group that holds `num_beams`
/// hypotheses holds `num_beams` hypotheses afterwards.
pub proof fn lemma_beams_stay_full(v: BeamView, scores: Seq<Seq<Seq<i64>>>, g: int)
    requires
        0 <= g < v.groups.len(),
        beam_fits(v, scores),
        !beam_starved(v, scores),
        v.groups[g].len() == v.num_beams <= usize::MAX,
    ensures
        beam_step(v, scores).groups[g].len() == v.num_beams,
{
    assert forall|h: int| 0 <= h < v.groups[g].len() implies v.groups[g][h].finished || (
    #[trigger] scores[g][h]).len() > 0 by {}
    lemma_full_beam_stays_full(v.groups[g], scores[g], v.num_beams, v.eos_token);
}

} // verus!
