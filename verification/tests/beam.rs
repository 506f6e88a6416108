use relattn::beam::BeamSearch;
use relattn::error::AttentionError;
use relattn::generation::GenerateConfig;

fn beams(max_length: usize, num_beams: usize, returned: usize) -> GenerateConfig {
    GenerateConfig {
        max_length,
        do_sample: false,
        num_beams,
        temperature_bits: 1.2f64.to_bits(),
        repetition_penalty_bits: 1.0f64.to_bits(),
        num_return_sequences: returned,
    }
}

#[test]
fn beam_starts_with_one_hypothesis_for_each_prompt() {
    let search = BeamSearch::start(vec![vec![5, 6], vec![7]], &beams(6, 3, 2), 2).unwrap();
    assert_eq!(search.hypotheses(), vec![vec![vec![5, 6]], vec![vec![7]]]);
    assert_eq!(search.standings(), vec![vec![(0, false)], vec![(0, false)]]);
    assert_eq!(search.outputs(), vec![vec![vec![5, 6]], vec![vec![7]]]);
    assert_eq!(search.cur_len(), 2);
    assert!(!search.is_done());
}

#[test]
fn beam_keeps_the_best_candidates_best_first() {
    let search = BeamSearch::start(vec![vec![0]], &beams(4, 2, 2), 2).unwrap();
    let (search, parents) = search.advance(&vec![vec![vec![5, 3, 1]]]);
    assert_eq!(parents, Ok(vec![vec![0, 0]]));
    assert_eq!(search.hypotheses(), vec![vec![vec![0, 0], vec![0, 1]]]);
    assert_eq!(search.standings(), vec![vec![(5, false), (3, false)]]);
}

#[test]
fn beam_adds_up_scores_and_sets_ended_hypotheses_aside() {
    let search = BeamSearch::start(vec![vec![0]], &beams(4, 2, 2), 2).unwrap();
    let (search, _) = search.advance(&vec![vec![vec![5, 3, 1]]]);
    // candidates: 6, 6, 9 from the first hypothesis, 13, 3, 5 from the second
    let (search, parents) = search.advance(&vec![vec![vec![1, 1, 4], vec![10, 0, 2]]]);
    assert_eq!(parents, Ok(vec![vec![1, 0]]));
    assert_eq!(search.hypotheses(), vec![vec![vec![0, 1, 0], vec![0, 0, 2]]]);
    assert_eq!(search.standings(), vec![vec![(13, false), (9, true)]]);
    assert!(!search.is_done());
    // the ended hypothesis stands with 9 against 8, 7 and 6
    let (search, parents) = search.advance(&vec![vec![vec![-5, -6, -7], vec![]]]);
    assert_eq!(parents, Ok(vec![vec![1, 0]]));
    assert_eq!(search.hypotheses(), vec![vec![vec![0, 0, 2], vec![0, 1, 0, 0]]]);
    assert_eq!(search.standings(), vec![vec![(9, true), (8, false)]]);
    assert_eq!(search.cur_len(), 4);
    assert!(search.is_done());
    assert_eq!(search.outputs(), vec![vec![vec![0, 0, 2], vec![0, 1, 0, 0]]]);
}

#[test]
fn beam_hands_back_as_many_as_asked_for() {
    let search = BeamSearch::start(vec![vec![0]], &beams(3, 3, 1), 9).unwrap();
    let (search, _) = search.advance(&vec![vec![vec![1, 4, 2, 3]]]);
    assert_eq!(search.hypotheses(), vec![vec![vec![0, 1], vec![0, 3], vec![0, 2]]]);
    assert_eq!(search.outputs(), vec![vec![vec![0, 1]]]);
}

#[test]
fn beam_breaks_ties_by_hypothesis_then_token() {
    let search = BeamSearch::start(vec![vec![0]], &beams(9, 3, 3), 9).unwrap();
    let (search, _) = search.advance(&vec![vec![vec![3, 3, 3, 3]]]);
    assert_eq!(search.hypotheses(), vec![vec![vec![0, 0], vec![0, 1], vec![0, 2]]]);
    let rows = vec![vec![0, 1, 1], vec![1, 0, 1], vec![1, 1, 0]];
    let (search, parents) = search.advance(&vec![rows]);
    assert_eq!(parents, Ok(vec![vec![0, 0, 1]]));
    assert_eq!(
        search.hypotheses(),
        vec![vec![vec![0, 0, 1], vec![0, 0, 2], vec![0, 1, 0]]]
    );
    assert_eq!(search.standings(), vec![vec![(4, false), (4, false), (4, false)]]);
}

#[test]
fn beam_takes_every_candidate_where_there_are_few() {
    let search = BeamSearch::start(vec![vec![0]], &beams(9, 5, 3), 9).unwrap();
    let (search, parents) = search.advance(&vec![vec![vec![1, 2]]]);
    assert_eq!(parents, Ok(vec![vec![0, 0]]));
    assert_eq!(search.hypotheses(), vec![vec![vec![0, 1], vec![0, 0]]]);
    let (search, _) = search.advance(&vec![vec![vec![1, 2], vec![5, 0]]]);
    assert_eq!(
        search.hypotheses(),
        vec![vec![vec![0, 0, 0], vec![0, 1, 1], vec![0, 1, 0], vec![0, 0, 1]]]
    );
    assert_eq!(search.outputs(), vec![vec![vec![0, 0, 0], vec![0, 1, 1], vec![0, 1, 0]]]);
}

#[test]
fn beam_works_group_by_group() {
    let search = BeamSearch::start(vec![vec![7], vec![8, 9]], &beams(9, 2, 1), 2).unwrap();
    let (search, parents) =
        search.advance(&vec![vec![vec![1, 5, 3]], vec![vec![4, 0, 9]]]);
    assert_eq!(parents, Ok(vec![vec![0, 0], vec![0, 0]]));
    assert_eq!(
        search.hypotheses(),
        vec![vec![vec![7, 1], vec![7, 2]], vec![vec![8, 9, 2], vec![8, 9, 0]]]
    );
    assert_eq!(
        search.standings(),
        vec![vec![(5, false), (3, true)], vec![(9, true), (4, false)]]
    );
    assert_eq!(search.outputs(), vec![vec![vec![7, 1]], vec![vec![8, 9, 2]]]);
    assert_eq!(search.cur_len(), 3);
}

#[test]
fn beam_stops_when_every_hypothesis_has_ended() {
    let search = BeamSearch::start(vec![vec![7]], &beams(9, 2, 2), 2).unwrap();
    let (search, _) = search.advance(&vec![vec![vec![1, 5, 9]]]);
    assert_eq!(search.standings(), vec![vec![(9, true), (5, false)]]);
    let (search, _) = search.advance(&vec![vec![vec![], vec![-9, -9, 3]]]);
    assert_eq!(search.standings(), vec![vec![(9, true), (8, true)]]);
    assert!(search.is_done());
    let (search, answer) = search.advance(&vec![vec![vec![], vec![]]]);
    assert_eq!(answer, Err(AttentionError::GenerationExhausted));
    assert_eq!(search.outputs(), vec![vec![vec![7, 2], vec![7, 1, 2]]]);
    assert!(!search.is_exhausted());
}

#[test]
fn beam_adds_nothing_to_prompts_that_are_too_long() {
    let search = BeamSearch::start(vec![vec![7, 8, 9]], &beams(3, 2, 2), 2).unwrap();
    assert!(search.is_done());
    assert_eq!(search.outputs(), vec![vec![vec![7, 8, 9]]]);
}

#[test]
fn beam_refuses_scores_of_another_shape() {
    let search = BeamSearch::start(vec![vec![7], vec![8]], &beams(9, 2, 2), 2).unwrap();
    let (search, answer) = search.advance(&vec![vec![vec![1, 5, 9]]]);
    assert_eq!(answer, Err(AttentionError::ShapeMismatch));
    let (search, answer) =
        search.advance(&vec![vec![vec![1, 5, 9]], vec![vec![1, 5, 9], vec![1, 5, 9]]]);
    assert_eq!(answer, Err(AttentionError::ShapeMismatch));
    let (search, answer) = search.advance(&vec![vec![vec![1, 5, 9]], vec![]]);
    assert_eq!(answer, Err(AttentionError::ShapeMismatch));
    assert_eq!(search.hypotheses(), vec![vec![vec![7]], vec![vec![8]]]);
    assert_eq!(search.cur_len(), 1);
    assert!(!search.is_done());
}

#[test]
fn beam_gives_up_without_a_token_to_take() {
    let search = BeamSearch::start(vec![vec![7], vec![8]], &beams(9, 2, 2), 2).unwrap();
    let (search, _) = search.advance(&vec![vec![vec![1, 5, 9]], vec![vec![3, 2, 1]]]);
    let (search, answer) =
        search.advance(&vec![vec![vec![], vec![1, 1, 1]], vec![vec![1, 1, 1], vec![]]]);
    assert_eq!(answer, Err(AttentionError::GenerationExhausted));
    assert!(search.is_exhausted());
    assert!(search.is_done());
    assert_eq!(
        search.outputs(),
        vec![vec![vec![7, 2], vec![7, 1]], vec![vec![8, 0], vec![8, 1]]]
    );
}

#[test]
fn beam_does_not_start_on_settings_that_cannot_be_decoded() {
    let mut sampling = beams(9, 2, 2);
    sampling.do_sample = true;
    for config in [sampling, beams(9, 2, 0), beams(9, 2, 3), beams(9, 0, 0)] {
        assert_eq!(
            BeamSearch::start(vec![vec![7]], &config, 2).err(),
            Some(AttentionError::GenerationExhausted)
        );
    }
}

#[test]
fn beam_scores_do_not_run_over() {
    let search = BeamSearch::start(vec![vec![0]], &beams(5, 2, 2), 9).unwrap();
    let (search, _) = search.advance(&vec![vec![vec![i64::MAX, i64::MIN]]]);
    let (search, _) = search.advance(&vec![vec![vec![i64::MAX, i64::MAX], vec![i64::MIN]]]);
    let (search, _) = search.advance(&vec![vec![vec![i64::MAX], vec![i64::MAX]]]);
    let top = 3 * (i64::MAX as i128);
    assert_eq!(search.standings(), vec![vec![(top, false), (top, false)]]);
    assert_eq!(search.hypotheses(), vec![vec![vec![0, 0, 0, 0], vec![0, 0, 1, 0]]]);
}

#[test]
fn beam_is_full_after_the_first_wide_row_and_stays_full() {
    let mut search = BeamSearch::start(vec![vec![1], vec![2, 3]], &beams(8, 4, 2), 0).unwrap();
    let mut step = 0i64;
    while !search.is_done() {
        let scores: Vec<Vec<Vec<i64>>> = search
            .standings()
            .iter()
            .map(|group| {
                group
                    .iter()
                    .enumerate()
                    .map(|(h, _)| (0..6).map(|t| (t * 7 + h as i64 * 3 + step * 5) % 11).collect())
                    .collect()
            })
            .collect();
        let (next, answer) = search.advance(&scores);
        assert!(answer.is_ok());
        search = next;
        step += 1;
        for group in search.hypotheses() {
            assert_eq!(group.len(), 4);
            for a in 0..group.len() {
                for b in a + 1..group.len() {
                    assert_ne!(group[a], group[b]);
                }
            }
        }
        for group in search.outputs() {
            assert_eq!(group.len(), 2);
        }
    }
    assert!(step > 0);
}
