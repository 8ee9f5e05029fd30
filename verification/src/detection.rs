//! Reading YuNet detection rows.
//!
//! A row is `[x, y, w, h, 5x(landmark x, landmark y), score]`. The five
//! landmarks come in the detector's own order (right eye, left eye, nose,
//! right mouth corner, left mouth corner), which is also the order of
//! ArcFace's canonical destination points, so they are read straight across
//! with no permutation: a reordering would silently invert results.

use vstd::prelude::*;

verus! {

/// How many landmarks a detection row holds.
pub const LANDMARK_COUNT: usize = 5;

/// The column holding landmark `i`'s x coordinate; its y follows it.
pub open spec fn landmark_x_column(i: int) -> int {
    4 + 2 * i
}

/// The fewest columns a row needs for all five landmarks to be read.
pub open spec fn landmark_columns_needed() -> int {
    landmark_x_column(LANDMARK_COUNT as int - 1) + 2
}

/// Reads the 5 landmarks out of one detection row, in the detector's native
/// order: landmark `i` is `(row[4 + 2i], row[5 + 2i])`. `None` when the row
/// is too short to hold them.
pub fn landmarks_from_row<T: Copy>(row: &[T]) -> (points: Option<Vec<(T, T)>>)
    ensures
        points is None <==> row@.len() < landmark_columns_needed(),
        points matches Some(p) ==> {
            &&& p@.len() == LANDMARK_COUNT
            &&& forall|i: int|
                0 <= i < LANDMARK_COUNT ==> #[trigger] p@[i] == (
                    row@[landmark_x_column(i)],
                    row@[landmark_x_column(i) + 1],
                )
        },
        points is None <==> row@.len() < 14,
        points matches Some(p) ==> p@.len() == 5 && forall|i: int|
            0 <= i < 5 ==> (#[trigger] p@[i]).0 == row@[4 + 2 * i] && p@[i].1 == row@[5 + 2 * i],
{
    if row.len() < 14 {
        return None;
    }
    let mut points: Vec<(T, T)> = Vec::new();
    let mut i: usize = 0;
    while i < LANDMARK_COUNT
        invariant
            row@.len() >= 14,
            i <= LANDMARK_COUNT,
            points@.len() == i,
            forall|k: int|
                0 <= k < i ==> #[trigger] points@[k] == (
                    row@[landmark_x_column(k)],
                    row@[landmark_x_column(k) + 1],
                ),
        decreases LANDMARK_COUNT - i,
    {
        let x = row[4 + i * 2];
        let y = row[5 + i * 2];
        points.push((x, y));
        i = i + 1;
    }
    Some(points)
}


/// The value in column `col` of a row, or `missing` when the row is shorter.
pub open spec fn column_or<T>(row: Seq<T>, col: int, missing: T) -> T {
    if col < row.len() {
        row[col]
    } else {
        missing
    }
}

/// A row that reaches column 3 gives its own width and height, whatever
/// stands in for a missing column; a shorter row gives the stand-in for the
/// columns it lacks.
pub proof fn lemma_box_columns<T>(row: Seq<T>, missing: T)
    ensures
        row.len() >= 4 ==> column_or(row, 2, missing) == row[2] && column_or(row, 3, missing)
            == row[3],
        row.len() == 3 ==> column_or(row, 2, missing) == row[2] && column_or(row, 3, missing)
            == missing,
        row.len() <= 2 ==> column_or(row, 2, missing) == missing && column_or(row, 3, missing)
            == missing,
{
}

/// Landmark `i` sits in columns `4 + 2i` and `5 + 2i`, and all five fit in
/// a row of 14 columns.
pub proof fn lemma_landmark_columns(i: int)
    ensures
        landmark_x_column(i) == 4 + 2 * i,
        landmark_columns_needed() == 14,
{
}

/// The width and height of a detection's bounding box (columns 2 and 3 of
/// its row), each `missing` when the row does not reach it.
pub fn box_size_from_row<T: Copy>(row: &[T], missing: T) -> (size: (T, T))
    ensures
        size == (column_or(row@, 2, missing), column_or(row@, 3, missing)),
        row@.len() >= 4 ==> size == (row@[2], row@[3]),
        row@.len() == 3 ==> size == (row@[2], missing),
        row@.len() <= 2 ==> size == (missing, missing),
{
    let w = if row.len() > 2 {
        row[2]
    } else {
        missing
    };
    let h = if row.len() > 3 {
        row[3]
    } else {
        missing
    };
    (w, h)
}

} // verus!
