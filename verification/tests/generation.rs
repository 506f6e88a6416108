use relattn::generation::{
    best_token, every_row_open, longest_prompt, pad_prompts, padding_mask, GenerateConfig,
    PadSide,
};

fn settings(beams: usize, returned: usize, sample: bool) -> GenerateConfig {
    GenerateConfig {
        max_length: 20,
        do_sample: sample,
        num_beams: beams,
        temperature_bits: 1.0f64.to_bits(),
        repetition_penalty_bits: 1.0f64.to_bits(),
        num_return_sequences: returned,
    }
}

#[test]
fn settings_that_can_be_decoded() {
    assert!(settings(1, 1, false).decodes());
    assert!(settings(5, 3, false).decodes());
    assert!(settings(5, 5, false).decodes());
}

#[test]
fn settings_that_cannot_be_decoded() {
    assert!(!settings(1, 1, true).decodes());
    assert!(!settings(5, 0, false).decodes());
    assert!(!settings(5, 6, false).decodes());
    assert!(!settings(0, 0, false).decodes());
    assert!(!settings(0, 1, false).decodes());
}

#[test]
fn longest_prompt_of_a_batch() {
    assert_eq!(longest_prompt(&vec![]), 0);
    assert_eq!(longest_prompt(&vec![vec![]]), 0);
    assert_eq!(longest_prompt(&vec![vec![4, 5], vec![6, 7, 8], vec![9]]), 3);
    assert_eq!(longest_prompt(&vec![vec![4, 5, 1, 1], vec![6, 7, 8]]), 4);
}

#[test]
fn prompts_are_filled_on_the_left() {
    let rows = pad_prompts(&vec![vec![4, 5], vec![6, 7, 8], vec![]], 0, PadSide::Left);
    assert_eq!(rows, vec![vec![0, 4, 5], vec![6, 7, 8], vec![0, 0, 0]]);
}

#[test]
fn prompts_are_filled_on_the_right() {
    let rows = pad_prompts(&vec![vec![4, 5], vec![6, 7, 8], vec![]], 9, PadSide::Right);
    assert_eq!(rows, vec![vec![4, 5, 9], vec![6, 7, 8], vec![9, 9, 9]]);
}

#[test]
fn prompts_of_one_length_stay_as_they_are() {
    let prompts = vec![vec![1, 2], vec![3, 4]];
    assert_eq!(pad_prompts(&prompts, 0, PadSide::Left), prompts);
    assert_eq!(pad_prompts(&prompts, 0, PadSide::Right), prompts);
    assert_eq!(pad_prompts(&vec![], 0, PadSide::Left), Vec::<Vec<usize>>::new());
}

#[test]
fn mask_marks_the_fill() {
    let prompts = vec![vec![4, 5], vec![6, 7, 8], vec![]];
    assert_eq!(
        padding_mask(&prompts, PadSide::Left),
        vec![vec![1, 0, 0], vec![0, 0, 0], vec![1, 1, 1]]
    );
    assert_eq!(
        padding_mask(&prompts, PadSide::Right),
        vec![vec![0, 0, 1], vec![0, 0, 0], vec![1, 1, 1]]
    );
}

#[test]
fn best_token_is_the_first_largest() {
    assert_eq!(best_token(&vec![7]), Some(0));
    assert_eq!(best_token(&vec![1, 9, 3]), Some(1));
    assert_eq!(best_token(&vec![1, 9, 9, 3, 9]), Some(1));
    assert_eq!(best_token(&vec![-5, -2, -9]), Some(1));
    assert_eq!(best_token(&vec![i64::MIN, i64::MAX, i64::MAX]), Some(1));
    assert_eq!(best_token(&vec![0, 0, 0]), Some(0));
}

#[test]
fn best_token_of_no_tokens_is_none() {
    assert_eq!(best_token(&vec![]), None);
}

#[test]
fn mask_rows_with_a_position_to_look_at() {
    assert!(every_row_open(&vec![]));
    assert!(every_row_open(&vec![vec![0]]));
    assert!(every_row_open(&vec![vec![1, 1, 0], vec![0, 1, 1], vec![1, 0, 1]]));
    assert!(every_row_open(&vec![vec![1, 1, 2]]));
    assert!(!every_row_open(&vec![vec![]]));
    assert!(!every_row_open(&vec![vec![1]]));
    assert!(!every_row_open(&vec![vec![0, 0, 0], vec![1, 1, 1]]));
    assert!(!every_row_open(&vec![vec![1, 1, 1], vec![0, 0, 0]]));
}

#[test]
fn mask_of_a_batch_is_open_where_the_prompt_has_tokens() {
    let prompts = vec![vec![4, 5], vec![6, 7, 8], vec![9]];
    assert!(every_row_open(&padding_mask(&prompts, PadSide::Left)));
    assert!(every_row_open(&padding_mask(&prompts, PadSide::Right)));
    let with_empty = vec![vec![4, 5], vec![]];
    assert!(!every_row_open(&padding_mask(&with_empty, PadSide::Left)));
    assert!(!every_row_open(&padding_mask(&with_empty, PadSide::Right)));
}
