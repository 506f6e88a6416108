use relattn::beam::BeamSearch;
use relattn::generation::GenerateConfig;
use relattn::generator::Generator;
use relattn::greedy::GreedySearch;

const VOCABULARY: usize = 11;
const END: usize = 10;

fn settings(max_length: usize, num_beams: usize, returned: usize) -> GenerateConfig {
    GenerateConfig {
        max_length,
        do_sample: false,
        num_beams,
        temperature_bits: 1.0f64.to_bits(),
        repetition_penalty_bits: 1.0f64.to_bits(),
        num_return_sequences: returned,
    }
}

/// A stand-in for a language model: scores that depend on nothing but the
/// tokens so far.
fn toy_scores(history: &[usize]) -> Vec<i64> {
    let mut state: u64 = 0x9e37_79b9_7f4a_7c15;
    for &t in history {
        state = (state ^ (t as u64 + 1)).wrapping_mul(0x0100_0000_01b3);
        state ^= state >> 29;
    }
    let mut row = Vec::new();
    for t in 0..VOCABULARY {
        let mixed = (state ^ (t as u64).wrapping_mul(0xff51_afd7_ed55_8ccd)).wrapping_mul(0xc4ce_b9fe_1a85_ec53);
        row.push(-((mixed >> 40) as i64 % 1000));
    }
    row
}

fn run_greedy(prompts: Vec<Vec<usize>>, max_length: usize) -> Vec<Vec<usize>> {
    let mut search = GreedySearch::start(prompts, &settings(max_length, 1, 1), END).unwrap();
    while !search.is_done() {
        let scores: Vec<Vec<i64>> = search.outputs().iter().map(|h| toy_scores(h)).collect();
        let (next, answer) = search.advance(&scores);
        assert_eq!(answer, Ok(()));
        search = next;
    }
    search.outputs()
}

fn run_beam(prompts: Vec<Vec<usize>>, config: &GenerateConfig) -> BeamSearch {
    let mut search = BeamSearch::start(prompts, config, END).unwrap();
    while !search.is_done() {
        let scores: Vec<Vec<Vec<i64>>> = search
            .hypotheses()
            .iter()
            .map(|group| group.iter().map(|h| toy_scores(h)).collect())
            .collect();
        let (next, answer) = search.advance(&scores);
        assert!(answer.is_ok());
        search = next;
    }
    search
}

#[test]
fn one_beam_decodes_as_greedy_does() {
    let prompts = vec![vec![1, 2, 3], vec![4], vec![5, 6], vec![], vec![9, 9, 9, 9]];
    for max_length in [0, 3, 4, 5, 8, 20, 40] {
        let greedy = run_greedy(prompts.clone(), max_length);
        let beam = run_beam(prompts.clone(), &settings(max_length, 1, 1)).outputs();
        let beam_flat: Vec<Vec<usize>> = beam.into_iter().map(|mut g| {
            assert_eq!(g.len(), 1);
            g.remove(0)
        }).collect();
        assert_eq!(beam_flat, greedy);
    }
}

#[test]
fn decoding_twice_gives_the_same_twice() {
    let prompts = vec![vec![1, 2, 3], vec![4], vec![5, 6]];
    assert_eq!(run_greedy(prompts.clone(), 25), run_greedy(prompts.clone(), 25));
    let config = settings(25, 4, 2);
    let first = run_beam(prompts.clone(), &config);
    let second = run_beam(prompts.clone(), &config);
    assert_eq!(first.outputs(), second.outputs());
    assert_eq!(first.standings(), second.standings());
}

#[test]
fn five_beams_hand_back_three_ranked_sequences() {
    let search = run_beam(vec![vec![3, 7]], &settings(20, 5, 3));
    let outputs = search.outputs();
    assert_eq!(outputs.len(), 1);
    let sequences = &outputs[0];
    assert_eq!(sequences.len(), 3);
    for s in sequences {
        assert_eq!(&s[..2], &[3, 7]);
        assert!(s.len() <= 20);
    }
    assert_ne!(sequences[0], sequences[1]);
    assert_ne!(sequences[0], sequences[2]);
    assert_ne!(sequences[1], sequences[2]);
    let standings = &search.standings()[0];
    assert_eq!(standings.len(), 5);
    for pair in standings.windows(2) {
        assert!(pair[0].0 >= pair[1].0);
    }
}

#[test]
fn prompts_of_a_batch_do_not_touch_each_other() {
    let short = vec![3, 7];
    let long = vec![2, 4, 6, 8];
    let together = run_greedy(vec![short.clone(), long.clone()], 12);
    // next to the longer prompt the shorter one takes as many steps as with
    // the greatest length cut by the difference
    let short_alone = run_greedy(vec![short.clone()], 10);
    let long_alone = run_greedy(vec![long.clone()], 12);
    assert_eq!(together[0], short_alone[0]);
    assert_eq!(together[1], long_alone[0]);

    let config = settings(12, 3, 2);
    let beams_together = run_beam(vec![short.clone(), long.clone()], &config).outputs();
    let beams_short = run_beam(vec![short], &settings(10, 3, 2)).outputs();
    let beams_long = run_beam(vec![long], &config).outputs();
    assert_eq!(beams_together[0], beams_short[0]);
    assert_eq!(beams_together[1], beams_long[0]);
}

#[test]
fn greedy_follows_the_best_token_step_by_step() {
    let prompt = vec![1, 2, 3];
    let out = run_greedy(vec![prompt.clone()], 9);
    let mut expected = prompt;
    while expected.len() < 9 && expected.last() != Some(&END) || expected.len() == 3 {
        let row = toy_scores(&expected);
        let mut best = 0;
        for t in 1..row.len() {
            if row[t] > row[best] {
                best = t;
            }
        }
        expected.push(best);
        if best == END {
            break;
        }
    }
    assert_eq!(out[0], expected);
}

#[test]
fn generator_decodes_as_the_searches_do() {
    let prompts = vec![vec![1, 2, 3], vec![4], vec![5, 6]];
    for (beams, returned) in [(1, 1), (2, 1), (4, 3)] {
        let config = settings(14, beams, returned);
        let mut run = Generator::start(prompts.clone(), &config, END).unwrap();
        let mut steps = 0;
        while !run.is_done() {
            let rows = run.rows();
            let scores: Vec<Vec<i64>> = rows.iter().map(|h| toy_scores(h)).collect();
            let (next, parents) = run.advance(&scores);
            run = next;
            let parents = parents.unwrap();
            let after = run.rows();
            assert_eq!(parents.len(), after.len());
            for (row, &parent) in after.iter().zip(parents.iter()) {
                // every row starts with the row it grew from
                let before = &rows[parent];
                assert!(row.len() == before.len() || row.len() == before.len() + 1);
                assert_eq!(&row[..before.len()], &before[..]);
            }
            steps += 1;
        }
        assert!(steps > 0);
        let expected: Vec<Vec<usize>> = if beams == 1 {
            run_greedy(prompts.clone(), 14)
        } else {
            run_beam(prompts.clone(), &config).outputs().into_iter().flatten().collect()
        };
        assert_eq!(run.outputs(), expected);
        assert_eq!(run.outputs().len(), prompts.len() * returned);
    }
}
