use relattn::error::AttentionError;
use relattn::generation::GenerateConfig;
use relattn::generator::Generator;

fn settings(max_length: usize, num_beams: usize, returned: usize) -> GenerateConfig {
    GenerateConfig {
        max_length,
        do_sample: false,
        num_beams,
        temperature_bits: 1.0f64.to_bits(),
        repetition_penalty_bits: 1.0f64.to_bits(),
        num_return_sequences: returned,
    }
}

#[test]
fn generator_with_one_beam_is_greedy() {
    let run = Generator::start(vec![vec![5, 6], vec![7]], &settings(9, 1, 1), 2).unwrap();
    assert!(matches!(run, Generator::Greedy(_)));
    assert_eq!(run.rows(), vec![vec![5, 6], vec![7]]);
    let (run, parents) = run.advance(&vec![vec![0, 9, 1], vec![3, 3, 1]]);
    assert_eq!(parents, Ok(vec![0, 1]));
    assert_eq!(run.rows(), vec![vec![5, 6, 1], vec![7, 0]]);
    assert_eq!(run.outputs(), vec![vec![5, 6, 1], vec![7, 0]]);
    assert!(!run.is_done());
}

#[test]
fn generator_with_more_beams_is_a_beam_search() {
    let run = Generator::start(vec![vec![5, 6], vec![7]], &settings(9, 3, 2), 9).unwrap();
    assert!(matches!(run, Generator::Beam(_)));
    assert_eq!(run.rows(), vec![vec![5, 6], vec![7]]);
    assert_eq!(run.outputs(), vec![vec![5, 6], vec![7]]);
}

#[test]
fn generator_says_which_row_every_row_grew_from() {
    let run = Generator::start(vec![vec![5, 6], vec![7]], &settings(9, 3, 2), 9).unwrap();
    let (run, parents) = run.advance(&vec![vec![4, 1, 2, 3], vec![1, 2, 3, 4]]);
    assert_eq!(parents, Ok(vec![0, 0, 0, 1, 1, 1]));
    assert_eq!(
        run.rows(),
        vec![
            vec![5, 6, 0],
            vec![5, 6, 3],
            vec![5, 6, 2],
            vec![7, 3],
            vec![7, 2],
            vec![7, 1],
        ]
    );
    // scores so far: 4, 3, 2 in the first group and 4, 3, 2 in the second
    let scores = vec![
        vec![0, 0, 0, 0],
        vec![0, 0, 0, 0],
        vec![5, 0, 0, 0],
        vec![0, 0, 0, 0],
        vec![0, 0, 0, 0],
        vec![0, 0, 0, 9],
    ];
    let (run, parents) = run.advance(&scores);
    assert_eq!(parents, Ok(vec![2, 0, 0, 5, 3, 3]));
    assert_eq!(
        run.rows(),
        vec![
            vec![5, 6, 2, 0],
            vec![5, 6, 0, 0],
            vec![5, 6, 0, 1],
            vec![7, 1, 3],
            vec![7, 3, 0],
            vec![7, 3, 1],
        ]
    );
    assert_eq!(
        run.outputs(),
        vec![vec![5, 6, 2, 0], vec![5, 6, 0, 0], vec![7, 1, 3], vec![7, 3, 0]]
    );
}

#[test]
fn generator_refuses_scores_for_other_rows() {
    let run = Generator::start(vec![vec![5, 6], vec![7]], &settings(9, 3, 2), 9).unwrap();
    let (run, parents) = run.advance(&vec![vec![4, 1, 2, 3]]);
    assert_eq!(parents, Err(AttentionError::ShapeMismatch));
    let (run, _) = run.advance(&vec![vec![4, 1, 2, 3], vec![1, 2, 3, 4]]);
    let (run, parents) = run.advance(&vec![vec![4, 1, 2, 3], vec![1, 2, 3, 4]]);
    assert_eq!(parents, Err(AttentionError::ShapeMismatch));
    let (run, parents) = run.advance(&vec![vec![1]; 7]);
    assert_eq!(parents, Err(AttentionError::ShapeMismatch));
    assert_eq!(run.rows().len(), 6);
    let greedy = Generator::start(vec![vec![5, 6], vec![7]], &settings(9, 1, 1), 9).unwrap();
    let (_, parents) = greedy.advance(&vec![vec![4, 1, 2, 3]]);
    assert_eq!(parents, Err(AttentionError::ShapeMismatch));
}

#[test]
fn generator_stops_where_the_search_stops() {
    let run = Generator::start(vec![vec![5, 6]], &settings(3, 2, 1), 9).unwrap();
    let (run, _) = run.advance(&vec![vec![4, 1]]);
    assert!(run.is_done());
    assert_eq!(run.outputs(), vec![vec![5, 6, 0]]);
    let (run, parents) = run.advance(&vec![vec![4, 1], vec![4, 1]]);
    assert_eq!(parents, Err(AttentionError::GenerationExhausted));
    assert_eq!(run.outputs(), vec![vec![5, 6, 0]]);
    let (run, parents) = run.advance(&vec![]);
    assert_eq!(parents, Err(AttentionError::GenerationExhausted));
    assert!(run.is_done());
}

#[test]
fn generator_gives_up_without_a_token_to_take() {
    let run = Generator::start(vec![vec![5, 6], vec![7]], &settings(9, 2, 1), 9).unwrap();
    let (run, parents) = run.advance(&vec![vec![4, 1], vec![]]);
    assert_eq!(parents, Err(AttentionError::GenerationExhausted));
    assert!(run.is_done());
    assert_eq!(run.outputs(), vec![vec![5, 6], vec![7]]);
}

#[test]
fn generator_does_not_start_on_settings_that_cannot_be_decoded() {
    let mut sampling = settings(9, 1, 1);
    sampling.do_sample = true;
    for config in [sampling, settings(9, 1, 0), settings(9, 1, 2), settings(9, 4, 5), settings(9, 0, 0)] {
        assert_eq!(
            Generator::start(vec![vec![7]], &config, 2).err(),
            Some(AttentionError::GenerationExhausted)
        );
    }
}
