//! Greedy decoding: every sequence of a batch takes its best-scored token,
//! step by step, until it has produced the end-of-sequence token or the
//! batch has reached its greatest length.
//!
//! The search is a state machine. Whoever runs the language model scores the
//! next token of every sequence and hands the scores to `advance`, which
//! gives back the search one step on.

use vstd::prelude::*;
use crate::error::AttentionError;
use crate::generation::{
    GenerateConfig, argmax, best_token, copy_tokens, longest, longest_prompt, rows_of,
};

verus! {

/// A greedy search under way.
#[derive(Debug)]
pub struct GreedySearch {
    sequences: Vec<Vec<usize>>,
    finished: Vec<bool>,
    cur_len: usize,
    max_length: usize,
    eos_token: usize,
    exhausted: bool,
}

/// A greedy search as plain mathematics.
pub struct GreedyView {
    /// The tokens of every sequence, prompt first.
    pub sequences: Seq<Seq<usize>>,
    /// For every sequence, whether it has produced the end-of-sequence token.
    pub finished: Seq<bool>,
    /// Length of the longest prompt plus the number of steps taken.
    pub cur_len: nat,
    /// Length at which every sequence stops.
    pub max_length: nat,
    /// The token that ends a sequence.
    pub eos_token: usize,
    /// Whether the search was stopped for want of a continuation.
    pub exhausted: bool,
}

impl View for GreedySearch {
    type V = GreedyView;

    closed spec fn view(&self) -> GreedyView {
        GreedyView {
            sequences: rows_of(self.sequences@),
            finished: self.finished@,
            cur_len: self.cur_len as nat,
            max_length: self.max_length as nat,
            eos_token: self.eos_token,
            exhausted: self.exhausted,
        }
    }
}

/// Whether a greedy search can start under these settings: nothing is drawn
/// at random, there is one beam, and one sequence is handed back.
pub open spec fn greedy_decodable(config: GenerateConfig) -> bool {
    !config.do_sample && config.num_beams == 1 && config.num_return_sequences == 1
}

/// The search before its first step: the prompts, none of them finished.
pub open spec fn greedy_start(prompts: Seq<Seq<usize>>, max_length: nat, eos_token: usize)
    -> GreedyView {
    GreedyView {
        sequences: prompts,
        finished: Seq::new(prompts.len(), |i: int| false),
        cur_len: longest(prompts),
        max_length: max_length,
        eos_token: eos_token,
        exhausted: false,
    }
}

/// Whether every sequence has produced the end-of-sequence token.
pub open spec fn all_finished(finished: Seq<bool>) -> bool {
    forall|i: int| 0 <= i < finished.len() ==> finished[i]
}

/// Whether the search is over: it was stopped, the greatest length is
/// reached, or every sequence is finished.
pub open spec fn greedy_done(v: GreedyView) -> bool {
    v.exhausted || v.cur_len >= v.max_length || all_finished(v.finished)
}

/// Whether some unfinished sequence has no token to choose from.
pub open spec fn greedy_starved(v: GreedyView, scores: Seq<Seq<i64>>) -> bool {
    exists|i: int|
        0 <= i < v.sequences.len() && !v.finished[i] && (#[trigger] scores[i]).len() == 0
}

/// One sequence after one step: a finished sequence stays as it is, an
/// unfinished one takes the best-scored token of its row.
pub open spec fn greedy_extend(tokens: Seq<usize>, finished: bool, row: Seq<i64>) -> Seq<usize> {
    if finished {
        tokens
    } else {
        tokens.push(argmax(row) as usize)
    }
}

/// Whether a sequence is finished after one step: it was, or the token it
/// took ends it.
pub open spec fn greedy_finishes(finished: bool, row: Seq<i64>, eos_token: usize) -> bool {
    finished || argmax(row) == eos_token
}

/// The search after a step that every unfinished sequence can take.
pub open spec fn greedy_step(v: GreedyView, scores: Seq<Seq<i64>>) -> GreedyView {
    GreedyView {
        sequences: Seq::new(
            v.sequences.len(),
            |i: int| greedy_extend(v.sequences[i], v.finished[i], scores[i]),
        ),
        finished: Seq::new(
            v.sequences.len(),
            |i: int| greedy_finishes(v.finished[i], scores[i], v.eos_token),
        ),
        cur_len: v.cur_len + 1,
        max_length: v.max_length,
        eos_token: v.eos_token,
        exhausted: v.exhausted,
    }
}

/// What `advance` answers to `scores`, one row for every sequence.
pub open spec fn greedy_verdict(v: GreedyView, scores: Seq<Seq<i64>>) -> Result<
    (),
    AttentionError,
> {
    if greedy_done(v) {
        Err(AttentionError::GenerationExhausted)
    } else if scores.len() != v.sequences.len() {
        Err(AttentionError::ShapeMismatch)
    } else if greedy_starved(v, scores) {
        Err(AttentionError::GenerationExhausted)
    } else {
        Ok(())
    }
}

/// The search that `advance` gives back for `scores`: unchanged where the
/// search is over or the scores do not fit, stopped where an unfinished
/// sequence has nothing to choose from, and one step on otherwise.
pub open spec fn greedy_after(v: GreedyView, scores: Seq<Seq<i64>>) -> GreedyView {
    if greedy_done(v) || scores.len() != v.sequences.len() {
        v
    } else if greedy_starved(v, scores) {
        GreedyView { exhausted: true, ..v }
    } else {
        greedy_step(v, scores)
    }
}

impl GreedySearch {
    #[verifier::type_invariant]
    spec fn well_formed(self) -> bool {
        self.finished@.len() == self.sequences@.len()
    }

    /// A search for `prompts` that stops at `config.max_length` tokens and at
    /// `eos_token`.
    ///
    /// Fails with `GenerationExhausted` unless the settings ask for one beam,
    /// one sequence for each prompt and no random draw.
    pub fn start(prompts: Vec<Vec<usize>>, config: &GenerateConfig, eos_token: usize) -> (res:
        Result<GreedySearch, AttentionError>)
        ensures
            res is Ok <==> greedy_decodable(*config),
            res matches Err(e) ==> e == AttentionError::GenerationExhausted,
            res matches Ok(search) ==> search@ == greedy_start(
                rows_of(prompts@),
                config.max_length as nat,
                eos_token,
            ),
    {
        if config.do_sample || config.num_beams != 1 || config.num_return_sequences != 1 {
            return Err(AttentionError::GenerationExhausted);
        }
        let cur_len = longest_prompt(&prompts);
        let mut finished: Vec<bool> = Vec::new();
        let mut i: usize = 0;
        while i < prompts.len()
            invariant
                i <= prompts.len(),
                finished@.len() == i,
                forall|j: int| 0 <= j < i ==> !finished@[j],
            decreases prompts.len() - i,
        {
            finished.push(false);
            i += 1;
        }
        let search = GreedySearch {
            sequences: prompts,
            finished,
            cur_len,
            max_length: config.max_length,
            eos_token,
            exhausted: false,
        };
        assert(search@.finished =~= Seq::new(prompts@.len(), |i: int| false));
        Ok(search)
    }

    /// Whether the search is over.
    pub fn is_done(&self) -> (done: bool)
        ensures
            done == greedy_done(self@),
    {
        if self.exhausted || self.cur_len >= self.max_length {
            return true;
        }
        let mut i: usize = 0;
        while i < self.finished.len()
            invariant
                i <= self.finished.len(),
                !self.exhausted,
                self.cur_len < self.max_length,
                forall|j: int| 0 <= j < i ==> self.finished@[j],
            decreases self.finished.len() - i,
        {
            if !self.finished[i] {
                return false;
            }
            i += 1;
        }
        true
    }

    /// Whether the search was stopped for want of a continuation.
    pub fn is_exhausted(&self) -> (b: bool)
        ensures
            b == self@.exhausted,
    {
        self.exhausted
    }

    /// Length of the longest prompt plus the number of steps taken.
    pub fn cur_len(&self) -> (n: usize)
        ensures
            n == self@.cur_len,
    {
        self.cur_len
    }

    /// For every sequence, whether it has produced the end-of-sequence token.
    pub fn finished(&self) -> (flags: Vec<bool>)
        ensures
            flags@ == self@.finished,
    {
        let mut flags: Vec<bool> = Vec::new();
        let mut i: usize = 0;
        while i < self.finished.len()
            invariant
                i <= self.finished.len(),
                flags@ == self.finished@.take(i as int),
            decreases self.finished.len() - i,
        {
            flags.push(self.finished[i]);
            i += 1;
        }
        flags
    }

    /// The tokens of every sequence so far, prompt first, in the order of
    /// the prompts.
    pub fn outputs(&self) -> (out: Vec<Vec<usize>>)
        ensures
            rows_of(out@) == self@.sequences,
    {
        let mut out: Vec<Vec<usize>> = Vec::new();
        let mut i: usize = 0;
        while i < self.sequences.len()
            invariant
                i <= self.sequences.len(),
                out@.len() == i,
                forall|j: int| 0 <= j < i ==> (#[trigger] out@[j])@ == self.sequences@[j]@,
            decreases self.sequences.len() - i,
        {
            out.push(copy_tokens(&self.sequences[i]));
            i += 1;
        }
        out
    }

    /// The search after the step that `scores` decides.
    ///
    /// `scores` holds one row for every sequence, finished or not, and in
    /// each row one score for every token of the vocabulary. Every
    /// unfinished sequence takes the first best-scored token of its row, and
    /// is finished if that is the end-of-sequence token.
    ///
    /// Fails with `GenerationExhausted` where the search is over, with
    /// `ShapeMismatch` where the number of rows is not the number of
    /// sequences, and with `GenerationExhausted` where the row of an
    /// unfinished sequence is empty: the search is then stopped with what it
    /// has.
    pub fn advance(self, scores: &Vec<Vec<i64>>) -> (next: (
        GreedySearch,
        Result<(), AttentionError>,
    ))
        ensures
            next.0@ == greedy_after(self@, rows_of(scores@)),
            next.1 == greedy_verdict(self@, rows_of(scores@)),
    {
        proof {
            use_type_invariant(&self);
        }
        let ghost before = self@;
        let ghost rows = rows_of(scores@);
        if self.is_done() {
            return (self, Err(AttentionError::GenerationExhausted));
        }
        if scores.len() != self.sequences.len() {
            return (self, Err(AttentionError::ShapeMismatch));
        }
        let mut i: usize = 0;
        while i < scores.len()
            invariant
                i <= scores.len(),
                scores@.len() == self.sequences@.len(),
                self.finished@.len() == self.sequences@.len(),
                rows == rows_of(scores@),
                before == self@,
                !greedy_done(before),
                forall|j: int| 0 <= j < i ==> self.finished@[j] || (#[trigger] rows[j]).len() > 0,
            decreases scores.len() - i,
        {
            if !self.finished[i] && scores[i].len() == 0 {
                proof {
                    assert(rows[i as int].len() == 0);
                }
                let GreedySearch { sequences, finished, cur_len, max_length, eos_token, exhausted } =
                    self;
                let stopped = GreedySearch {
                    sequences,
                    finished,
                    cur_len,
                    max_length,
                    eos_token,
                    exhausted: true,
                };
                return (stopped, Err(AttentionError::GenerationExhausted));
            }
            i += 1;
        }
        proof {
            assert forall|j: int| 0 <= j < scores@.len() implies before.finished[j] || (
            #[trigger] rows[j]).len() > 0 by {}
        }
        let GreedySearch { mut sequences, mut finished, cur_len, max_length, eos_token, exhausted } =
            self;
        let ghost want = greedy_step(before, rows);
        let mut i: usize = 0;
        while i < scores.len()
            invariant
                i <= scores.len(),
                scores@.len() == sequences@.len(),
                finished@.len() == sequences@.len(),
                rows == rows_of(scores@),
                want == greedy_step(before, rows),
                before.sequences.len() == sequences@.len(),
                before.finished.len() == sequences@.len(),
                before.eos_token == eos_token,
                forall|j: int| 0 <= j < scores@.len() ==> before.finished[j] || (
                #[trigger] rows[j]).len() > 0,
                forall|j: int| 0 <= j < i ==> (#[trigger] sequences@[j])@ == want.sequences[j],
                forall|j: int| 0 <= j < i ==> (#[trigger] finished@[j]) == want.finished[j],
                forall|j: int|
                    i <= j < scores@.len() ==> (#[trigger] sequences@[j])@ == before.sequences[j],
                forall|j: int|
                    i <= j < scores@.len() ==> (#[trigger] finished@[j]) == before.finished[j],
            decreases scores.len() - i,
        {
            if !finished[i] {
                if let Some(token) = best_token(&scores[i]) {
                    sequences[i].push(token);
                    if token == eos_token {
                        finished.set(i, true);
                    }
                }
            }
            i += 1;
        }
        let next = GreedySearch {
            sequences,
            finished,
            cur_len: cur_len + 1,
            max_length,
            eos_token,
            exhausted,
        };
        proof {
            assert(next@.sequences =~= want.sequences);
            assert(next@.finished =~= want.finished);
        }
        (next, Ok(()))
    }
}

} // verus!
