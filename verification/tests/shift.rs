use relattn::error::AttentionError;
use relattn::shift::{rel_shift, rel_shift_bnij};

#[test]
fn shift_bnij_lines_up_two_rows() {
    // rows [0, 1, 2, 3] and [10, 11, 12, 13]: row i keeps columns 2 - i + k
    let x: Vec<i64> = vec![0, 1, 2, 3, 10, 11, 12, 13];
    let y = rel_shift_bnij(&x, &vec![1, 1, 2, 4], 2).unwrap();
    assert_eq!(y, vec![2, 3, 11, 12]);
}

#[test]
fn shift_bnij_single_query_row_drops_first_column() {
    let x: Vec<i64> = vec![7, 8, 9, 10];
    let y = rel_shift_bnij(&x, &vec![1, 1, 1, 4], 3).unwrap();
    assert_eq!(y, vec![8, 9, 10]);
}

#[test]
fn shift_bnij_works_block_by_block() {
    // two batches of two heads, each head a 2 x 3 block, one column kept
    let mut x: Vec<i32> = Vec::new();
    for block in 0..4 {
        for i in 0..2 {
            for j in 0..3 {
                x.push(100 * block + 10 * i + j);
            }
        }
    }
    let y = rel_shift_bnij(&x, &vec![2, 2, 2, 3], 1).unwrap();
    assert_eq!(y, vec![2, 11, 102, 111, 202, 211, 302, 311]);
}

#[test]
fn shift_bnij_moves_floats_unchanged() {
    let x: Vec<f32> = vec![0.5, 1.5, 2.5, 3.5, 4.5, 5.5, 6.5, 7.5];
    let y = rel_shift_bnij(&x, &vec![1, 1, 2, 4], 2).unwrap();
    assert_eq!(y, vec![2.5, 3.5, 5.5, 6.5]);
}

#[test]
fn shift_bnij_with_too_few_columns_runs_into_the_next_row() {
    // 2 rows, 3 columns, 2 kept: 2 + 2 > 3, so row 0 has no column 3
    let x: Vec<i64> = vec![0, 1, 2, 10, 11, 12];
    let y = rel_shift_bnij(&x, &vec![1, 1, 2, 3], 2).unwrap();
    assert_eq!(y, vec![2, 10, 11, 12]);
}

#[test]
fn shift_bnij_keeping_nothing_is_empty() {
    let x: Vec<i64> = vec![0, 1, 2, 10, 11, 12];
    let y = rel_shift_bnij(&x, &vec![1, 1, 2, 3], 0).unwrap();
    assert_eq!(y, Vec::<i64>::new());
}

#[test]
fn shift_bnij_of_no_rows_is_empty() {
    let x: Vec<i64> = Vec::new();
    let y = rel_shift_bnij(&x, &vec![3, 2, 0, 5], 4).unwrap();
    assert_eq!(y, Vec::<i64>::new());
}

#[test]
fn shift_bnij_refuses_wrong_rank() {
    let x: Vec<i64> = vec![0, 1, 2, 3];
    assert_eq!(rel_shift_bnij(&x, &vec![1, 2, 2], 1), Err(AttentionError::ShapeMismatch));
    assert_eq!(rel_shift_bnij(&x, &vec![1, 1, 1, 2, 2], 1), Err(AttentionError::ShapeMismatch));
}

#[test]
fn shift_bnij_refuses_wrong_length() {
    let x: Vec<i64> = vec![0, 1, 2, 3, 4];
    assert_eq!(rel_shift_bnij(&x, &vec![1, 1, 2, 2], 1), Err(AttentionError::ShapeMismatch));
    let none: Vec<i64> = Vec::new();
    assert_eq!(rel_shift_bnij(&none, &vec![1, 1, 2, 2], 1), Err(AttentionError::ShapeMismatch));
}

#[test]
fn shift_bnij_refuses_negative_extent() {
    let x: Vec<i64> = vec![0, 1, 2, 3];
    assert_eq!(rel_shift_bnij(&x, &vec![-1, -1, 2, 2], 1), Err(AttentionError::ShapeMismatch));
}

#[test]
fn shift_bnij_refuses_to_keep_every_column() {
    let x: Vec<i64> = vec![0, 1, 2, 3];
    assert_eq!(rel_shift_bnij(&x, &vec![1, 1, 2, 2], 2), Err(AttentionError::ShapeMismatch));
    assert_eq!(rel_shift_bnij(&x, &vec![1, 1, 2, 2], -1), Err(AttentionError::ShapeMismatch));
    let none: Vec<i64> = Vec::new();
    assert_eq!(rel_shift_bnij(&none, &vec![1, 1, 2, 0], 0), Err(AttentionError::ShapeMismatch));
}

#[test]
fn shift_bnij_refuses_volume_beyond_memory() {
    let x: Vec<i64> = vec![0, 1, 2, 3];
    let big = i64::MAX;
    assert_eq!(rel_shift_bnij(&x, &vec![big, big, 2, 2], 1), Err(AttentionError::ShapeMismatch));
}

#[test]
fn shift_rows_first_lines_up_two_rows() {
    // extents [2, 4, 1, 2]: entry (i, j, 0, n) is 100 i + 10 j + n
    let mut x: Vec<i64> = Vec::new();
    for i in 0..2 {
        for j in 0..4 {
            for n in 0..2 {
                x.push(100 * i + 10 * j + n);
            }
        }
    }
    let y = rel_shift(&x, &vec![2, 4, 1, 2], 2).unwrap();
    assert_eq!(y, vec![20, 21, 30, 31, 110, 111, 120, 121]);
}

#[test]
fn shift_rows_first_refuses_what_does_not_fit() {
    let x: Vec<i64> = vec![0, 1, 2, 3];
    assert_eq!(rel_shift(&x, &vec![2, 2, 1], 1), Err(AttentionError::ShapeMismatch));
    assert_eq!(rel_shift(&x, &vec![2, 2, 1, 1], 2), Err(AttentionError::ShapeMismatch));
    assert_eq!(rel_shift(&x, &vec![2, 2, 2, 1], 1), Err(AttentionError::ShapeMismatch));
}

#[test]
fn shift_agrees_with_reading_each_offset_by_hand() {
    // every query row i and key offset k: the score of column rows - i + k
    let (batch, heads, rows, keep) = (2usize, 3usize, 4usize, 5usize);
    let cols = rows + keep;
    let mut x: Vec<u64> = Vec::new();
    for p in 0..batch * heads * rows * cols {
        x.push(p as u64 * 7 + 1);
    }
    let shape = vec![batch as i64, heads as i64, rows as i64, cols as i64];
    let y = rel_shift_bnij(&x, &shape, keep as i64).unwrap();
    assert_eq!(y.len(), batch * heads * rows * keep);
    for b in 0..batch {
        for n in 0..heads {
            for i in 0..rows {
                for k in 0..keep {
                    let got = y[((b * heads + n) * rows + i) * keep + k];
                    let by_hand = x[((b * heads + n) * rows + i) * cols + (rows - i + k)];
                    assert_eq!(got, by_hand);
                }
            }
        }
    }
}

#[test]
fn error_sentences_differ() {
    let a = AttentionError::ShapeMismatch.describe();
    let b = AttentionError::MissingStream.describe();
    let c = AttentionError::GenerationExhausted.describe();
    assert_eq!(a, "tensor extents do not fit the attention layer");
    assert_eq!(b, "query-stream input given without a query stream");
    assert_eq!(c, "no continuation left to decode");
}
