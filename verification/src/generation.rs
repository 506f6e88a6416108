//! What greedy decoding and beam search share: the settings of a run, the
//! padding of a batch of prompts, and the choice of the best-scored token.
//!
//! Tokens are positions in the vocabulary. Scores are integers, larger is
//! better: whoever runs the language model turns its next-token
//! log-probabilities, after temperature and repetition penalty, into
//! integers before handing them over.

use vstd::prelude::*;

verus! {

/// Settings of one generation run.
///
/// Temperature and repetition penalty travel as the bit patterns of IEEE 754
/// doubles, for whoever scores the tokens.
#[derive(Clone, Copy, Debug)]
pub struct GenerateConfig {
    /// Length, prompt included, at which every sequence stops.
    pub max_length: usize,
    /// Whether tokens are drawn at random. Nothing here draws.
    pub do_sample: bool,
    /// Number of hypotheses that beam search keeps for each prompt.
    pub num_beams: usize,
    /// Temperature, as bits.
    pub temperature_bits: u64,
    /// Repetition penalty, as bits.
    pub repetition_penalty_bits: u64,
    /// Number of sequences handed back for each prompt.
    pub num_return_sequences: usize,
}

/// Whether a run with these settings can be decided here: nothing is drawn
/// at random, and between one sequence and all the beams are handed back.
pub open spec fn decodable(config: GenerateConfig) -> bool {
    &&& !config.do_sample
    &&& 1 <= config.num_return_sequences <= config.num_beams
}

impl GenerateConfig {
    /// Whether a run with these settings can be decided here.
    pub fn decodes(&self) -> (b: bool)
        ensures
            b == decodable(*self),
    {
        !self.do_sample && 1 <= self.num_return_sequences && self.num_return_sequences
            <= self.num_beams
    }
}

/// The rows of a vector of vectors.
pub open spec fn rows_of<T>(v: Seq<Vec<T>>) -> Seq<Seq<T>> {
    Seq::new(v.len(), |i: int| v[i]@)
}

/// Whether `width` is the length of the longest of `prompts`, 0 if there is
/// none.
pub open spec fn is_longest(prompts: Seq<Seq<usize>>, width: nat) -> bool {
    &&& forall|i: int| 0 <= i < prompts.len() ==> (#[trigger] prompts[i]).len() <= width
    &&& prompts.len() == 0 ==> width == 0
    &&& prompts.len() > 0 ==> exists|i: int|
        0 <= i < prompts.len() && (#[trigger] prompts[i]).len() == width
}

/// The length of the longest of `prompts`, 0 if there is none.
pub open spec fn longest(prompts: Seq<Seq<usize>>) -> nat {
    choose|width: nat| is_longest(prompts, width)
}

/// Some length is the longest.
pub proof fn lemma_longest_exists(prompts: Seq<Seq<usize>>)
    ensures
        is_longest(prompts, longest(prompts)),
    decreases prompts.len(),
{
    if prompts.len() == 0 {
        assert(is_longest(prompts, 0));
    } else {
        let front = prompts.drop_last();
        lemma_longest_exists(front);
        let w = longest(front);
        let last = prompts.last().len();
        let m = if last > w {
            last
        } else {
            w
        };
        assert forall|i: int| 0 <= i < prompts.len() implies (#[trigger] prompts[i]).len()
            <= m by {
            if i < front.len() {
                assert(front[i] == prompts[i]);
            }
        }
        assert(is_longest(prompts, m));
    }
}

/// There is one longest length, and `longest` is it.
pub proof fn lemma_longest_unique(prompts: Seq<Seq<usize>>, width: nat)
    requires
        is_longest(prompts, width),
    ensures
        longest(prompts) == width,
{
}

/// The length of the longest prompt, 0 if there is none.
pub fn longest_prompt(prompts: &Vec<Vec<usize>>) -> (width: usize)
    ensures
        width == longest(rows_of(prompts@)),
{
    let ghost rows = rows_of(prompts@);
    let mut width: usize = 0;
    let mut i: usize = 0;
    while i < prompts.len()
        invariant
            i <= prompts.len(),
            rows == rows_of(prompts@),
            is_longest(rows.take(i as int), width as nat),
        decreases prompts.len() - i,
    {
        let ghost seen = rows.take(i as int);
        let ghost more = rows.take(i + 1);
        let here = prompts[i].len();
        proof {
            assert(more[i as int] == rows[i as int]);
            assert forall|j: int| 0 <= j < i implies more[j] == seen[j] by {}
        }
        if here > width {
            width = here;
        } else {
            proof {
                if i > 0 {
                    let j = choose|j: int|
                        0 <= j < seen.len() && (#[trigger] seen[j]).len() == width;
                }
            }
        }
        proof {
            assert forall|j: int| 0 <= j < more.len() implies (#[trigger] more[j]).len()
                <= width by {}
        }
        i += 1;
    }
    proof {
        assert(rows.take(i as int) =~= rows);
        lemma_longest_unique(rows, width as nat);
    }
    width
}

/// On which side a short prompt is filled up.
#[derive(Clone, Copy, Debug, PartialEq, Eq, Structural)]
pub enum PadSide {
    /// The fill goes in front of the prompt.
    Left,
    /// The fill goes behind the prompt.
    Right,
}

/// `prompt` filled up to `width` tokens with `pad`.
pub open spec fn padded(prompt: Seq<usize>, width: nat, pad: usize, side: PadSide) -> Seq<usize> {
    let fill = Seq::new((width - prompt.len()) as nat, |j: int| pad);
    match side {
        PadSide::Left => fill + prompt,
        PadSide::Right => prompt + fill,
    }
}

/// Whether position `j` of a prompt of `len` tokens, filled up to `width`,
/// holds fill.
pub open spec fn is_fill(len: nat, width: nat, side: PadSide, j: int) -> bool {
    match side {
        PadSide::Left => 0 <= j < width - len,
        PadSide::Right => len <= j < width,
    }
}

/// The prompts of a batch, each filled up with `pad_token` to the length of
/// the longest.
pub fn pad_prompts(prompts: &Vec<Vec<usize>>, pad_token: usize, side: PadSide) -> (rows: Vec<
    Vec<usize>,
>)
    ensures
        rows@.len() == prompts@.len(),
        forall|i: int|
            0 <= i < prompts@.len() ==> (#[trigger] rows@[i])@ == padded(
                prompts@[i]@,
                longest(rows_of(prompts@)),
                pad_token,
                side,
            ),
{
    let width = longest_prompt(prompts);
    proof {
        let all = rows_of(prompts@);
        lemma_longest_exists(all);
        assert forall|j: int| 0 <= j < prompts@.len() implies (#[trigger] prompts@[j])@.len()
            <= width by {
            assert(all[j].len() <= width);
        }
    }
    let mut rows: Vec<Vec<usize>> = Vec::new();
    let mut i: usize = 0;
    while i < prompts.len()
        invariant
            i <= prompts.len(),
            rows@.len() == i,
            width == longest(rows_of(prompts@)),
            forall|j: int| 0 <= j < prompts@.len() ==> (#[trigger] prompts@[j])@.len() <= width,
            forall|j: int|
                0 <= j < i ==> (#[trigger] rows@[j])@ == padded(
                    prompts@[j]@,
                    width as nat,
                    pad_token,
                    side,
                ),
        decreases prompts.len() - i,
    {
        let row = pad_one(&prompts[i], width, pad_token, side);
        rows.push(row);
        i += 1;
    }
    rows
}

/// For every position of a padded batch, 1 where it holds fill and 0 where
/// it holds a token of the prompt: the positions that attention must not
/// look at.
pub fn padding_mask(prompts: &Vec<Vec<usize>>, side: PadSide) -> (mask: Vec<Vec<i64>>)
    ensures
        mask@.len() == prompts@.len(),
        forall|i: int|
            0 <= i < prompts@.len() ==> (#[trigger] mask@[i])@.len() == longest(
                rows_of(prompts@),
            ),
        forall|i: int, j: int|
            0 <= i < prompts@.len() && 0 <= j < longest(rows_of(prompts@)) ==> (#[trigger] mask@[i]@[j])
                == if is_fill(prompts@[i]@.len(), longest(rows_of(prompts@)), side, j) {
                1i64
            } else {
                0i64
            },
        forall|i: int|
            0 <= i < prompts@.len() ==> (is_open(#[trigger] mask@[i]@) <==> prompts@[i]@.len() > 0),
{
    let width = longest_prompt(prompts);
    proof {
        lemma_longest_exists(rows_of(prompts@));
    }
    let mut mask: Vec<Vec<i64>> = Vec::new();
    let mut i: usize = 0;
    while i < prompts.len()
        invariant
            i <= prompts.len(),
            mask@.len() == i,
            width == longest(rows_of(prompts@)),
            is_longest(rows_of(prompts@), width as nat),
            forall|a: int| 0 <= a < i ==> (#[trigger] mask@[a])@.len() == width,
            forall|a: int, j: int|
                0 <= a < i && 0 <= j < width ==> (#[trigger] mask@[a]@[j]) == if is_fill(
                    prompts@[a]@.len(),
                    width as nat,
                    side,
                    j,
                ) {
                    1i64
                } else {
                    0i64
                },
            forall|a: int|
                0 <= a < i ==> (is_open(#[trigger] mask@[a]@) <==> prompts@[a]@.len() > 0),
        decreases prompts.len() - i,
    {
        let len = prompts[i].len();
        proof {
            assert(rows_of(prompts@)[i as int].len() <= width);
        }
        let gap = width - len;
        let mut row: Vec<i64> = Vec::new();
        let mut j: usize = 0;
        while j < width
            invariant
                j <= width,
                row@.len() == j,
                len <= width,
                gap == width - len,
                forall|b: int|
                    0 <= b < j ==> (#[trigger] row@[b]) == if is_fill(
                        len as nat,
                        width as nat,
                        side,
                        b,
                    ) {
                        1i64
                    } else {
                        0i64
                    },
            decreases width - j,
        {
            let fill = match side {
                PadSide::Left => j < gap,
                PadSide::Right => j >= len,
            };
            row.push(if fill { 1 } else { 0 });
            j += 1;
        }
        proof {
            if len > 0 {
                let at: int = match side {
                    PadSide::Left => width - 1,
                    PadSide::Right => 0,
                };
                assert(row@[at] == 0);
            }
        }
        mask.push(row);
        i += 1;
    }
    mask
}

/// Whether a row of a mask leaves a position to look at: not every entry
/// is 1.
pub open spec fn is_open(row: Seq<i64>) -> bool {
    exists|j: int| 0 <= j < row.len() && #[trigger] row[j] != 1
}

/// Whether every row of a mask leaves a position to look at. A row that
/// leaves none has no probabilities to share out, and must not reach the
/// softmax.
pub fn every_row_open(mask: &Vec<Vec<i64>>) -> (open: bool)
    ensures
        open == forall|i: int| 0 <= i < mask@.len() ==> is_open(#[trigger] mask@[i]@),
{
    let mut i: usize = 0;
    while i < mask.len()
        invariant
            i <= mask.len(),
            forall|a: int| 0 <= a < i ==> is_open(#[trigger] mask@[a]@),
        decreases mask.len() - i,
    {
        let row = &mask[i];
        let mut found = false;
        let mut j: usize = 0;
        while j < row.len() && !found
            invariant
                j <= row.len(),
                found ==> is_open(row@),
                !found ==> forall|b: int| 0 <= b < j ==> row@[b] == 1,
            decreases row.len() - j + if found { 0int } else { 1int },
        {
            if row[j] != 1 {
                found = true;
            } else {
                j += 1;
            }
        }
        if !found {
            return false;
        }
        i += 1;
    }
    true
}

/// One prompt filled up to `width` tokens.
fn pad_one(prompt: &Vec<usize>, width: usize, pad_token: usize, side: PadSide) -> (row: Vec<usize>)
    requires
        prompt@.len() <= width,
    ensures
        row@ == padded(prompt@, width as nat, pad_token, side),
{
    let mut row: Vec<usize> = Vec::new();
    let gap = width - prompt.len();
    let ghost fill = Seq::new(gap as nat, |j: int| pad_token);
    if let PadSide::Left = side {
        let mut j: usize = 0;
        while j < gap
            invariant
                j <= gap,
                row@ == fill.take(j as int),
                fill == Seq::new(gap as nat, |j: int| pad_token),
            decreases gap - j,
        {
            row.push(pad_token);
            j += 1;
        }
    }
    let ghost front = row@;
    let mut k: usize = 0;
    while k < prompt.len()
        invariant
            k <= prompt.len(),
            row@ == front + prompt@.take(k as int),
        decreases prompt.len() - k,
    {
        row.push(prompt[k]);
        k += 1;
    }
    if let PadSide::Right = side {
        let mut j: usize = 0;
        while j < gap
            invariant
                j <= gap,
                row@ == prompt@ + fill.take(j as int),
                fill == Seq::new(gap as nat, |j: int| pad_token),
                front == Seq::<usize>::empty(),
            decreases gap - j,
        {
            row.push(pad_token);
            j += 1;
        }
    }
    row
}

/// Whether `a` is the position of the first largest entry of `row`.
pub open spec fn is_argmax(row: Seq<i64>, a: int) -> bool {
    &&& 0 <= a < row.len()
    &&& forall|t: int| 0 <= t < row.len() ==> row[t] <= row[a]
    &&& forall|t: int| 0 <= t < a ==> row[t] < row[a]
}

/// The position of the first largest entry of `row`.
pub open spec fn argmax(row: Seq<i64>) -> int {
    choose|a: int| is_argmax(row, a)
}

/// A row that is not empty has a first largest entry.
pub proof fn lemma_argmax_exists(row: Seq<i64>)
    requires
        row.len() > 0,
    ensures
        is_argmax(row, argmax(row)),
    decreases row.len(),
{
    if row.len() == 1 {
        assert(is_argmax(row, 0));
    } else {
        let front = row.drop_last();
        lemma_argmax_exists(front);
        let a = argmax(front);
        let last = row.len() - 1;
        if row[last] > front[a] {
            assert forall|t: int| 0 <= t < row.len() implies row[t] <= row[last] by {
                if t < last {
                    assert(front[t] == row[t]);
                }
            }
            assert forall|t: int| 0 <= t < last implies row[t] < row[last] by {
                assert(front[t] == row[t]);
            }
            assert(is_argmax(row, last));
        } else {
            assert forall|t: int| 0 <= t < row.len() implies row[t] <= row[a] by {
                if t < last {
                    assert(front[t] == row[t]);
                }
            }
            assert forall|t: int| 0 <= t < a implies row[t] < row[a] by {
                assert(front[t] == row[t]);
            }
            assert(is_argmax(row, a));
        }
    }
}

/// A row has one first largest entry, and `argmax` is its position.
pub proof fn lemma_argmax_unique(row: Seq<i64>, a: int)
    requires
        is_argmax(row, a),
    ensures
        argmax(row) == a,
{
    let b = argmax(row);
    if a < b {
        assert(row[a] < row[b]);
    }
    if b < a {
        assert(row[b] < row[a]);
    }
}

/// The best-scored token of a row, the first of them where several score
/// best, and nothing for a row without tokens.
pub fn best_token(row: &Vec<i64>) -> (best: Option<usize>)
    ensures
        best is Some <==> row@.len() > 0,
        best matches Some(a) ==> a == argmax(row@) && is_argmax(row@, a as int),
{
    if row.len() == 0 {
        return None;
    }
    let mut a: usize = 0;
    let mut t: usize = 1;
    while t < row.len()
        invariant
            1 <= t <= row.len(),
            a < t,
            forall|u: int| 0 <= u < t ==> row@[u] <= row@[a as int],
            forall|u: int| 0 <= u < a ==> row@[u] < row@[a as int],
        decreases row.len() - t,
    {
        if row[t] > row[a] {
            a = t;
        }
        t += 1;
    }
    proof {
        lemma_argmax_unique(row@, a as int);
    }
    Some(a)
}

/// A copy of a sequence of tokens.
pub fn copy_tokens(tokens: &Vec<usize>) -> (copy: Vec<usize>)
    ensures
        copy@ == tokens@,
{
    let mut copy: Vec<usize> = Vec::new();
    let mut i: usize = 0;
    while i < tokens.len()
        invariant
            i <= tokens.len(),
            copy@ == tokens@.take(i as int),
        decreases tokens.len() - i,
    {
        copy.push(tokens[i]);
        i += 1;
    }
    copy
}

} // verus!
