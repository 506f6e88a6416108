//! The relative shift: turning scores computed for every relative offset into
//! scores lined up with key positions.
//!
//! Scores are held flat, in row-major order. A tensor of extents
//! `[outer, rows, cols, inner]` has one row per query position and one column
//! per relative offset. The shift reads the same memory as `cols` rows of
//! `rows` entries, drops the first of them, reads what is left as `rows` rows
//! of `cols - 1` entries, and keeps the first `keep` columns.

use vstd::prelude::*;
use vstd::arithmetic::div_mod::lemma_fundamental_div_mod_converse;
use crate::error::AttentionError;

verus! {

/// Row-major position of entry `(a, b, c, d)` in a tensor whose three inner
/// extents are `d1`, `d2` and `d3`.
pub open spec fn offset4(d1: int, d2: int, d3: int, a: int, b: int, c: int, d: int) -> int {
    ((a * d1 + b) * d2 + c) * d3 + d
}

/// `x` read as `groups` groups of `rows` rows of `width` entries, without the
/// first row of each group.
pub open spec fn drop_first_row<T>(x: Seq<T>, groups: int, rows: int, width: int) -> Seq<T> {
    Seq::new(
        (groups * ((rows - 1) * width)) as nat,
        |p: int| x[(p / ((rows - 1) * width)) * (rows * width) + width + p % ((rows - 1) * width)],
    )
}

/// `x` read as `lines` lines of `cols` columns of `inner` entries, cut down
/// to the first `keep` columns of each line.
pub open spec fn take_columns<T>(x: Seq<T>, lines: int, cols: int, inner: int, keep: int) -> Seq<T> {
    Seq::new(
        (lines * (keep * inner)) as nat,
        |p: int| x[(p / (keep * inner)) * (cols * inner) + p % (keep * inner)],
    )
}

/// The relative shift of `x`, a tensor of extents `[outer, rows, cols, inner]`:
/// swap the two middle extents, drop the first row, swap back with one column
/// less, keep `keep` columns.
pub open spec fn shifted<T>(
    x: Seq<T>,
    outer: int,
    rows: int,
    cols: int,
    inner: int,
    keep: int,
) -> Seq<T> {
    take_columns(drop_first_row(x, outer, cols, rows * inner), outer * rows, cols - 1, inner, keep)
}

/// A tensor of `len` scores has the four extents `shape`.
pub open spec fn extents_hold(shape: Seq<i64>, len: nat) -> bool {
    &&& shape.len() == 4
    &&& shape[0] >= 0
    &&& shape[1] >= 0
    &&& shape[2] >= 0
    &&& shape[3] >= 0
    &&& shape[0] * shape[1] * shape[2] * shape[3] == len
}

/// The relative shift of scores laid out as `[batch, heads, rows, cols]`,
/// one row per query position and one column per relative offset, cut to
/// `klen` columns. `shape` holds the four extents of `x`.
///
/// Fails with `ShapeMismatch` unless `x` has these extents and `klen` is
/// at least 0 and below the number of columns.
pub fn rel_shift_bnij<T: Copy>(x: &Vec<T>, shape: &Vec<i64>, klen: i64) -> (res: Result<
    Vec<T>,
    AttentionError,
>)
    ensures
        res is Ok <==> extents_hold(shape@, x@.len()) && 0 <= klen < shape@[3],
        res matches Ok(y) ==> y@ == shifted(
            x@,
            shape@[0] * shape@[1],
            shape@[2] as int,
            shape@[3] as int,
            1,
            klen as int,
        ),
        res matches Err(e) ==> e == AttentionError::ShapeMismatch,
{
    if shape.len() != 4 {
        return Err(AttentionError::ShapeMismatch);
    }
    proof {
        assert(shape@[0] * shape@[1] * shape@[2] * shape@[3] * 1 * 1 == shape@[0] * shape@[1]
            * shape@[2] * shape@[3]) by (nonlinear_arith);
    }
    shift_checked(x, shape[0], shape[1], shape[2], shape[3], 1, 1, klen)
}

/// The relative shift of scores laid out as `[rows, cols, batch, heads]`,
/// cut to `klen` columns. `shape` holds the four extents of `x`.
///
/// Fails with `ShapeMismatch` unless `x` has these extents and `klen` is
/// at least 0 and below the number of columns.
pub fn rel_shift<T: Copy>(x: &Vec<T>, shape: &Vec<i64>, klen: i64) -> (res: Result<
    Vec<T>,
    AttentionError,
>)
    ensures
        res is Ok <==> extents_hold(shape@, x@.len()) && 0 <= klen < shape@[1],
        res matches Ok(y) ==> y@ == shifted(
            x@,
            1,
            shape@[0] as int,
            shape@[1] as int,
            shape@[2] * shape@[3],
            klen as int,
        ),
        res matches Err(e) ==> e == AttentionError::ShapeMismatch,
{
    if shape.len() != 4 {
        return Err(AttentionError::ShapeMismatch);
    }
    proof {
        assert(1 * 1 * shape@[0] * shape@[1] * shape@[2] * shape@[3] == shape@[0] * shape@[1]
            * shape@[2] * shape@[3]) by (nonlinear_arith);
    }
    shift_checked(x, 1, 1, shape[0], shape[1], shape[2], shape[3], klen)
}

/// Where in `x` the shift finds entry `(o, i, k, t)` of its result.
pub open spec fn shift_source(
    rows: int,
    cols: int,
    inner: int,
    o: int,
    i: int,
    k: int,
    t: int,
) -> int {
    o * (rows * cols * inner) + (rows + i * (cols - 1) + k) * inner + t
}

/// How many scores the shift hands back.
pub proof fn lemma_shifted_len<T>(
    x: Seq<T>,
    outer: int,
    rows: int,
    cols: int,
    inner: int,
    keep: int,
)
    requires
        0 <= outer,
        0 <= rows,
        0 <= inner,
        0 <= keep,
    ensures
        shifted(x, outer, rows, cols, inner, keep).len() == outer * rows * keep * inner,
{
    assert(0 <= (outer * rows) * (keep * inner) == outer * rows * keep * inner)
        by (nonlinear_arith)
        requires
            0 <= outer,
            0 <= rows,
            0 <= inner,
            0 <= keep,
    ;
}

/// The shift, entry by entry: entry `(o, i, k, t)` of the result is the entry
/// of `x` at `shift_source`.
pub proof fn lemma_shifted_entry<T>(
    x: Seq<T>,
    outer: int,
    rows: int,
    cols: int,
    inner: int,
    keep: int,
    o: int,
    i: int,
    k: int,
    t: int,
)
    requires
        0 <= o < outer,
        0 <= i < rows,
        0 <= k < keep < cols,
        0 <= t < inner,
    ensures
        shifted(x, outer, rows, cols, inner, keep).len() == outer * rows * keep * inner,
        0 <= offset4(rows, keep, inner, o, i, k, t) < outer * rows * keep * inner,
        shifted(x, outer, rows, cols, inner, keep)[offset4(rows, keep, inner, o, i, k, t)]
            == x[shift_source(rows, cols, inner, o, i, k, t)],
{
    let p = offset4(rows, keep, inner, o, i, k, t);
    let u = o * rows + i;
    let rem = k * inner + t;
    lemma_offset_bound(outer, rows, keep, inner, o, i, k, t);
    lemma_line_split(u, keep, inner, k, t);
    lemma_fundamental_div_mod_converse(p, keep * inner, u, rem);
    let last = cols - 1;
    let q = u * (last * inner) + rem;
    assert(rem < last * inner) by (nonlinear_arith)
        requires
            rem < keep * inner,
            keep <= last,
            0 <= inner,
    ;
    lemma_group_split(o, rows, i, last, inner, rem);
    let group = last * (rows * inner);
    let rem2 = i * (last * inner) + rem;
    lemma_fundamental_div_mod_converse(q, group, o, rem2);
    lemma_source_form(o, rows, cols, inner, i, k, t);
    let dropped = drop_first_row(x, outer, cols, rows * inner);
    assert(0 <= q < dropped.len()) by (nonlinear_arith)
        requires
            q == o * group + rem2,
            0 <= rem2 < group,
            0 <= o < outer,
            dropped.len() == outer * group,
    ;
}

/// The shift lines every score up with its key position. Where a query row
/// has room for all of its offsets (`keep + rows <= cols`), entry `(o, i, k, t)`
/// of the result is the score that row `i` held in column `rows - i + k`: the
/// result for key offset `k` is what reading the scores at that offset by
/// hand gives, for every `k` below `keep`.
pub proof fn lemma_shift_aligns<T>(
    x: Seq<T>,
    outer: int,
    rows: int,
    cols: int,
    inner: int,
    keep: int,
    o: int,
    i: int,
    k: int,
    t: int,
)
    requires
        0 <= o < outer,
        0 <= i < rows,
        0 <= k < keep,
        0 <= t < inner,
        keep + rows <= cols,
    ensures
        0 < rows - i + k < cols,
        shifted(x, outer, rows, cols, inner, keep)[offset4(rows, keep, inner, o, i, k, t)]
            == x[offset4(rows, cols, inner, o, i, rows - i + k, t)],
{
    lemma_shifted_entry(x, outer, rows, cols, inner, keep, o, i, k, t);
    lemma_aligned_source(rows, cols, inner, o, i, k, t);
}

/// The same for scores laid out as `[batch, heads, rows, cols]`, as
/// `rel_shift_bnij` takes them: where `keep + rows <= cols`, the shifted
/// score of batch `b`, head `n`, query row `i` and key offset `k` is the
/// score that row `i` held in column `rows - i + k`.
pub proof fn lemma_shift_bnij_aligns<T>(
    x: Seq<T>,
    batch: int,
    heads: int,
    rows: int,
    cols: int,
    keep: int,
    b: int,
    n: int,
    i: int,
    k: int,
)
    requires
        0 <= b < batch,
        0 <= n < heads,
        0 <= i < rows,
        0 <= k < keep,
        keep + rows <= cols,
    ensures
        0 < rows - i + k < cols,
        shifted(x, batch * heads, rows, cols, 1, keep)[offset4(heads, rows, keep, b, n, i, k)]
            == x[offset4(heads, rows, cols, b, n, i, rows - i + k)],
{
    let o = b * heads + n;
    assert(0 <= o < batch * heads) by (nonlinear_arith)
        requires
            o == b * heads + n,
            0 <= b < batch,
            0 <= n < heads,
    ;
    lemma_shift_aligns(x, batch * heads, rows, cols, 1, keep, o, i, k, 0);
    assert(offset4(rows, keep, 1, o, i, k, 0) == offset4(heads, rows, keep, b, n, i, k))
        by (nonlinear_arith)
        requires
            o == b * heads + n,
    ;
    assert(offset4(rows, cols, 1, o, i, rows - i + k, 0) == offset4(
        heads,
        rows,
        cols,
        b,
        n,
        i,
        rows - i + k,
    )) by (nonlinear_arith)
        requires
            o == b * heads + n,
    ;
}

/// The shift reads no score twice: two different entries of the result come
/// from two different entries of `x`. Together with `lemma_shift_aligns` this
/// makes the shift a one-to-one map from the `keep` key offsets of a row onto
/// the columns `rows - i .. rows - i + keep` of that row.
pub proof fn lemma_shift_one_to_one(
    outer: int,
    rows: int,
    cols: int,
    inner: int,
    keep: int,
    o1: int,
    i1: int,
    k1: int,
    t1: int,
    o2: int,
    i2: int,
    k2: int,
    t2: int,
)
    requires
        0 <= o1 < outer,
        0 <= i1 < rows,
        0 <= k1 < keep,
        0 <= t1 < inner,
        0 <= o2 < outer,
        0 <= i2 < rows,
        0 <= k2 < keep,
        0 <= t2 < inner,
        keep + rows <= cols,
        shift_source(rows, cols, inner, o1, i1, k1, t1) == shift_source(
            rows,
            cols,
            inner,
            o2,
            i2,
            k2,
            t2,
        ),
    ensures
        o1 == o2,
        i1 == i2,
        k1 == k2,
        t1 == t2,
{
    let s1 = shift_source(rows, cols, inner, o1, i1, k1, t1);
    let c1 = rows - i1 + k1;
    let c2 = rows - i2 + k2;
    lemma_aligned_source(rows, cols, inner, o1, i1, k1, t1);
    lemma_aligned_source(rows, cols, inner, o2, i2, k2, t2);
    lemma_fundamental_div_mod_converse(s1, inner, (o1 * rows + i1) * cols + c1, t1);
    lemma_fundamental_div_mod_converse(s1, inner, (o2 * rows + i2) * cols + c2, t2);
    let a = (o1 * rows + i1) * cols + c1;
    lemma_fundamental_div_mod_converse(a, cols, o1 * rows + i1, c1);
    lemma_fundamental_div_mod_converse(a, cols, o2 * rows + i2, c2);
    let b = o1 * rows + i1;
    lemma_fundamental_div_mod_converse(b, rows, o1, i1);
    lemma_fundamental_div_mod_converse(b, rows, o2, i2);
}

/// The shift of a tensor of extents `[o1 * o2, rows, cols, n1 * n2]`, if `x`
/// is one.
fn shift_checked<T: Copy>(
    x: &Vec<T>,
    o1: i64,
    o2: i64,
    rows: i64,
    cols: i64,
    n1: i64,
    n2: i64,
    keep: i64,
) -> (res: Result<Vec<T>, AttentionError>)
    ensures
        res is Ok <==> {
            &&& 0 <= o1 && 0 <= o2 && 0 <= rows && 0 <= n1 && 0 <= n2
            &&& 0 <= keep < cols
            &&& o1 * o2 * rows * cols * n1 * n2 == x@.len()
        },
        res matches Ok(y) ==> y@ == shifted(
            x@,
            o1 * o2,
            rows as int,
            cols as int,
            n1 * n2,
            keep as int,
        ),
        res matches Err(e) ==> e == AttentionError::ShapeMismatch,
{
    if o1 < 0 || o2 < 0 || rows < 0 || n1 < 0 || n2 < 0 || keep < 0 || keep >= cols {
        return Err(AttentionError::ShapeMismatch);
    }
    let total: usize = x.len();
    proof {
        lemma_six_factors(o1 as int, o2 as int, rows as int, cols as int, n1 as int, n2 as int);
    }
    if o1 == 0 || o2 == 0 || rows == 0 || n1 == 0 || n2 == 0 {
        if total != 0 {
            return Err(AttentionError::ShapeMismatch);
        }
        proof {
            lemma_empty_shift(x@, o1 * o2, rows as int, cols as int, n1 * n2, keep as int);
        }
        return Ok(Vec::new());
    }
    proof {
        lemma_factor_below(o1 as int, o2 as int, rows as int, cols as int, n1 as int, n2 as int);
    }
    let (a1, a2, r, c, b1, b2) = match (
        extent(o1),
        extent(o2),
        extent(rows),
        extent(cols),
        extent(n1),
        extent(n2),
    ) {
        (Some(a1), Some(a2), Some(r), Some(c), Some(b1), Some(b2)) => (a1, a2, r, c, b1, b2),
        _ => {
            return Err(AttentionError::ShapeMismatch);
        },
    };
    let outer: usize = match a1.checked_mul(a2) {
        Some(v) => v,
        None => {
            return Err(AttentionError::ShapeMismatch);
        },
    };
    let inner: usize = match b1.checked_mul(b2) {
        Some(v) => v,
        None => {
            return Err(AttentionError::ShapeMismatch);
        },
    };
    if !volume_is(outer, r, c, inner, total) {
        return Err(AttentionError::ShapeMismatch);
    }
    Ok(shift_blocks(x, outer, r, c, inner, keep as usize))
}

/// The shift of a non-empty tensor of extents `[outer, rows, cols, inner]`,
/// one run of `keep * inner` neighbouring scores for each row.
fn shift_blocks<T: Copy>(
    x: &Vec<T>,
    outer: usize,
    rows: usize,
    cols: usize,
    inner: usize,
    keep: usize,
) -> (y: Vec<T>)
    requires
        x@.len() == outer * rows * cols * inner,
        x@.len() > 0,
        keep < cols,
    ensures
        y@ == shifted(x@, outer as int, rows as int, cols as int, inner as int, keep as int),
{
    let total: usize = x.len();
    proof {
        lemma_positive_volume(outer as int, rows as int, cols as int, inner as int);
        lemma_parts_fit(outer as int, rows as int, cols as int, inner as int, keep as int);
    }
    let ghost want = shifted(x@, outer as int, rows as int, cols as int, inner as int, keep as int);
    let block: usize = rows * cols * inner;
    let lead: usize = rows * inner;
    let stride: usize = (cols - 1) * inner;
    let run: usize = keep * inner;
    let mut y: Vec<T> = Vec::new();
    let mut o: usize = 0;
    proof {
        assert((o * rows) * run == 0) by (nonlinear_arith)
            requires
                o == 0,
        ;
    }
    while o < outer
        invariant
            o <= outer,
            x@.len() == outer * rows * cols * inner,
            x@.len() == total,
            keep < cols,
            block == rows * cols * inner,
            lead == rows * inner,
            stride == (cols - 1) * inner,
            run == keep * inner,
            want == shifted(x@, outer as int, rows as int, cols as int, inner as int, keep as int),
            y@.len() == (o * rows) * run,
            forall|q: int| 0 <= q < y@.len() ==> y@[q] == want[q],
        decreases outer - o,
    {
        let mut i: usize = 0;
        while i < rows
            invariant
                o < outer,
                i <= rows,
                x@.len() == outer * rows * cols * inner,
                x@.len() == total,
                keep < cols,
                block == rows * cols * inner,
                lead == rows * inner,
                stride == (cols - 1) * inner,
                run == keep * inner,
                want == shifted(
                    x@,
                    outer as int,
                    rows as int,
                    cols as int,
                    inner as int,
                    keep as int,
                ),
                y@.len() == (o * rows + i) * run,
                forall|q: int| 0 <= q < y@.len() ==> y@[q] == want[q],
            decreases rows - i,
        {
            let mut j: usize = 0;
            while j < run
                invariant
                    o < outer,
                    i < rows,
                    j <= run,
                    x@.len() == outer * rows * cols * inner,
                    x@.len() == total,
                    keep < cols,
                    block == rows * cols * inner,
                    lead == rows * inner,
                    stride == (cols - 1) * inner,
                    run == keep * inner,
                    want == shifted(
                        x@,
                        outer as int,
                        rows as int,
                        cols as int,
                        inner as int,
                        keep as int,
                    ),
                    y@.len() == (o * rows + i) * run + j,
                    forall|q: int| 0 <= q < y@.len() ==> y@[q] == want[q],
                decreases run - j,
            {
                proof {
                    lemma_run_entry(
                        outer as int,
                        rows as int,
                        cols as int,
                        inner as int,
                        keep as int,
                        o as int,
                        i as int,
                        j as int,
                    );
                    lemma_shifted_entry(
                        x@,
                        outer as int,
                        rows as int,
                        cols as int,
                        inner as int,
                        keep as int,
                        o as int,
                        i as int,
                        j as int / inner as int,
                        j as int % inner as int,
                    );
                }
                let from: usize = o * block + lead + i * stride + j;
                y.push(x[from]);
                j += 1;
            }
            proof {
                lemma_step_len(o * rows + i, run as int, j as int);
            }
            i += 1;
        }
        proof {
            assert((o * rows + i) * run == ((o + 1) * rows) * run) by (nonlinear_arith)
                requires
                    i == rows,
            ;
        }
        o += 1;
    }
    proof {
        lemma_shifted_len(x@, outer as int, rows as int, cols as int, inner as int, keep as int);
        assert((o * rows) * run == outer * rows * keep * inner) by (nonlinear_arith)
            requires
                o == outer,
                run == keep * inner,
        ;
    }
    y
}

/// Whether four extents multiply to `len`.
fn volume_is(a: usize, b: usize, c: usize, d: usize, len: usize) -> (r: bool)
    ensures
        r == (a * b * c * d == len),
{
    if a == 0 || b == 0 || c == 0 || d == 0 {
        proof {
            lemma_zero_volume(a as int, b as int, c as int, d as int);
        }
        return len == 0;
    }
    proof {
        lemma_volume_grows(a * b, c as int);
        lemma_volume_grows(a * b * c, d as int);
        assert(0 <= a * b) by (nonlinear_arith)
            requires
                0 <= a,
                0 <= b,
        ;
    }
    match a.checked_mul(b) {
        None => false,
        Some(ab) => match ab.checked_mul(c) {
            None => false,
            Some(abc) => match abc.checked_mul(d) {
                None => false,
                Some(all) => all == len,
            },
        },
    }
}

/// An extent as a length, where it is one.
fn extent(d: i64) -> (r: Option<usize>)
    ensures
        match r {
            Some(u) => u == d,
            None => d < 0 || d > usize::MAX,
        },
{
    if d < 0 {
        None
    } else if d as u64 > usize::MAX as u64 {
        None
    } else {
        Some(d as usize)
    }
}

proof fn lemma_aligned_source(rows: int, cols: int, inner: int, o: int, i: int, k: int, t: int)
    ensures
        shift_source(rows, cols, inner, o, i, k, t) == offset4(
            rows,
            cols,
            inner,
            o,
            i,
            rows - i + k,
            t,
        ),
{
    let m = o * rows * cols;
    let n = rows + i * cols - i + k;
    assert((o * rows + i) * cols == m + i * cols) by (nonlinear_arith)
        requires
            m == o * rows * cols,
    ;
    assert(o * (rows * cols * inner) == m * inner) by (nonlinear_arith)
        requires
            m == o * rows * cols,
    ;
    assert(i * (cols - 1) == i * cols - i) by (nonlinear_arith);
    assert((m + n) * inner == m * inner + n * inner) by (nonlinear_arith);
}

proof fn lemma_line_split(u: int, keep: int, inner: int, k: int, t: int)
    by (nonlinear_arith)
    requires
        0 <= k < keep,
        0 <= t < inner,
    ensures
        (u * keep + k) * inner + t == u * (keep * inner) + (k * inner + t),
        0 <= k * inner + t < keep * inner,
{
}

proof fn lemma_group_split(o: int, rows: int, i: int, last: int, inner: int, r: int)
    by (nonlinear_arith)
    requires
        0 <= i < rows,
        0 <= r < last * inner,
        0 <= last,
        0 <= inner,
    ensures
        (o * rows + i) * (last * inner) + r == o * (last * (rows * inner)) + (i * (last * inner) + r),
        0 <= i * (last * inner) + r < last * (rows * inner),
{
}

proof fn lemma_source_form(o: int, rows: int, cols: int, inner: int, i: int, k: int, t: int)
    by (nonlinear_arith)
    ensures
        o * (cols * (rows * inner)) + rows * inner + (i * ((cols - 1) * inner) + (k * inner + t))
            == shift_source(rows, cols, inner, o, i, k, t),
{
}

proof fn lemma_offset_bound(d0: int, d1: int, d2: int, d3: int, a: int, b: int, c: int, d: int)
    by (nonlinear_arith)
    requires
        0 <= a < d0,
        0 <= b < d1,
        0 <= c < d2,
        0 <= d < d3,
    ensures
        0 <= offset4(d1, d2, d3, a, b, c, d) < d0 * d1 * d2 * d3,
        d0 * d1 * d2 * d3 == (d0 * d1) * (d2 * d3),
{
}

proof fn lemma_run_entry(
    outer: int,
    rows: int,
    cols: int,
    inner: int,
    keep: int,
    o: int,
    i: int,
    j: int,
)
    requires
        0 <= o < outer,
        0 <= i < rows,
        0 <= keep < cols,
        0 <= inner,
        0 <= j < keep * inner,
    ensures
        0 < inner,
        0 <= j / inner < keep,
        0 <= j % inner < inner,
        offset4(rows, keep, inner, o, i, j / inner, j % inner) == (o * rows + i) * (keep * inner)
            + j,
        shift_source(rows, cols, inner, o, i, j / inner, j % inner) == o * (rows * cols * inner)
            + rows * inner + i * ((cols - 1) * inner) + j,
        0 <= o * (rows * cols * inner),
        0 <= i * ((cols - 1) * inner),
        o * (rows * cols * inner) + rows * inner + i * ((cols - 1) * inner) + j < outer * rows
            * cols * inner,
{
    assert(0 < inner) by (nonlinear_arith)
        requires
            0 <= inner,
            0 <= j < keep * inner,
    ;
    let k = j / inner;
    let t = j % inner;
    vstd::arithmetic::div_mod::lemma_fundamental_div_mod(j, inner);
    vstd::arithmetic::div_mod::lemma_mod_pos_bound(j, inner);
    assert(0 <= k < keep) by (nonlinear_arith)
        requires
            j == inner * k + t,
            0 <= t < inner,
            0 <= j < keep * inner,
    ;
    assert(offset4(rows, keep, inner, o, i, k, t) == (o * rows + i) * (keep * inner) + j)
        by (nonlinear_arith)
        requires
            j == inner * k + t,
    ;
    assert(shift_source(rows, cols, inner, o, i, k, t) == o * (rows * cols * inner) + rows * inner
        + i * ((cols - 1) * inner) + j) by (nonlinear_arith)
        requires
            j == inner * k + t,
    ;
    assert(0 <= o * (rows * cols * inner) && 0 <= i * ((cols - 1) * inner)) by (nonlinear_arith)
        requires
            0 <= o,
            0 <= i < rows,
            0 < cols,
            0 <= inner,
    ;
    let w = rows + i * (cols - 1) + k;
    assert(0 <= w < rows * cols) by (nonlinear_arith)
        requires
            w == rows + i * (cols - 1) + k,
            0 <= i < rows,
            0 <= k < keep < cols,
    ;
    assert(o * (rows * cols * inner) + w * inner + t < outer * rows * cols * inner)
        by (nonlinear_arith)
        requires
            0 <= w < rows * cols,
            0 <= t < inner,
            0 <= o < outer,
    ;
    assert(w * inner == rows * inner + i * ((cols - 1) * inner) + (j - t)) by (nonlinear_arith)
        requires
            w == rows + i * (cols - 1) + k,
            j == inner * k + t,
    ;
}

proof fn lemma_parts_fit(outer: int, rows: int, cols: int, inner: int, keep: int)
    by (nonlinear_arith)
    requires
        0 < outer,
        0 < rows,
        0 < inner,
        0 <= keep < cols,
    ensures
        rows * cols <= outer * rows * cols * inner,
        rows * cols * inner <= outer * rows * cols * inner,
        rows * inner <= outer * rows * cols * inner,
        (cols - 1) * inner <= outer * rows * cols * inner,
        keep * inner <= outer * rows * cols * inner,
{
}

proof fn lemma_positive_volume(a: int, b: int, c: int, d: int)
    by (nonlinear_arith)
    requires
        0 <= a,
        0 <= b,
        0 <= c,
        0 <= d,
        0 < a * b * c * d,
    ensures
        0 < a,
        0 < b,
        0 < c,
        0 < d,
{
}

proof fn lemma_step_len(n: int, run: int, j: int)
    by (nonlinear_arith)
    requires
        j == run,
    ensures
        n * run + j == (n + 1) * run,
{
}

proof fn lemma_zero_volume(a: int, b: int, c: int, d: int)
    by (nonlinear_arith)
    requires
        a == 0 || b == 0 || c == 0 || d == 0,
    ensures
        a * b * c * d == 0,
{
}

proof fn lemma_volume_grows(ab: int, c: int)
    by (nonlinear_arith)
    requires
        0 <= ab,
        1 <= c,
    ensures
        ab <= ab * c,
{
}

proof fn lemma_six_factors(o1: int, o2: int, rows: int, cols: int, n1: int, n2: int)
    by (nonlinear_arith)
    requires
        0 <= o1,
        0 <= o2,
        0 <= rows,
        0 <= cols,
        0 <= n1,
        0 <= n2,
    ensures
        (o1 * o2) * rows * cols * (n1 * n2) == o1 * o2 * rows * cols * n1 * n2,
        0 <= o1 * o2,
        0 <= n1 * n2,
        0 <= o1 * o2 * rows * cols * n1 * n2,
        (o1 == 0 || o2 == 0 || rows == 0 || cols == 0 || n1 == 0 || n2 == 0) ==> o1 * o2 * rows
            * cols * n1 * n2 == 0,
        (o1 == 0 || o2 == 0 || rows == 0 || n1 == 0 || n2 == 0) ==> (o1 * o2) * rows * (n1 * n2)
            == 0,
{
}

proof fn lemma_factor_below(o1: int, o2: int, rows: int, cols: int, n1: int, n2: int)
    by (nonlinear_arith)
    requires
        1 <= o1,
        1 <= o2,
        1 <= rows,
        1 <= cols,
        1 <= n1,
        1 <= n2,
    ensures
        o1 <= o1 * o2 * rows * cols * n1 * n2,
        o2 <= o1 * o2 * rows * cols * n1 * n2,
        rows <= o1 * o2 * rows * cols * n1 * n2,
        cols <= o1 * o2 * rows * cols * n1 * n2,
        n1 <= o1 * o2 * rows * cols * n1 * n2,
        n2 <= o1 * o2 * rows * cols * n1 * n2,
        o1 * o2 <= o1 * o2 * rows * cols * n1 * n2,
        n1 * n2 <= o1 * o2 * rows * cols * n1 * n2,
{
}

proof fn lemma_empty_shift<T>(x: Seq<T>, outer: int, rows: int, cols: int, inner: int, keep: int)
    requires
        0 <= outer,
        0 <= rows,
        0 <= inner,
        0 <= keep,
        outer * rows * inner == 0,
    ensures
        shifted(x, outer, rows, cols, inner, keep) == Seq::<T>::empty(),
{
    lemma_shifted_len(x, outer, rows, cols, inner, keep);
    assert(outer * rows * keep * inner == 0) by (nonlinear_arith)
        requires
            outer * rows * inner == 0,
    ;
}

} // verus!
