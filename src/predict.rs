use vstd::arithmetic::div_mod::lemma_fundamental_div_mod_converse;
use vstd::prelude::*;
use vstd::string::*;

use crate::error::{Error, Result};

verus! {

/// Rows are laid out one after another in the flat input.
pub const ROW_MAJOR: i32 = 1;

/// The engine's selector for plain predictions (no raw scores, leaves or contributions).
pub const PREDICT_NORMAL: i32 = 0;

/// The engine's selector for single-precision input.
pub const DTYPE_FLOAT32: i32 = 0;

/// Start predictions with the first iteration.
pub const START_ITERATION: i32 = 0;

/// Use every iteration of the model.
pub const NO_ITERATION_LIMIT: i32 = -1;

/// The rows of a flat row-major input: its length divided by the column count,
/// rounded down. A partial row at the end is left out.
pub open spec fn rows_of(len: int, ncol: int) -> int {
    len / ncol
}

/// The scores that a prediction over `nrow` rows returns: one per row and class.
pub open spec fn scores_of(nrow: int, num_class: int) -> int {
    nrow * num_class
}

/// The number of rows handed to the engine for a flat input of `len` values with
/// `ncol` features each. Fails where there is no positive column count, or where
/// the rows are more than the engine's row count can hold.
pub fn prediction_rows(len: usize, ncol: i32) -> (r: Result<i32>)
    ensures
        r is Ok <==> (ncol > 0 && rows_of(len as int, ncol as int) <= i32::MAX),
        r matches Ok(n) ==> n == rows_of(len as int, ncol as int),
        r matches Err(e) ==> e is EncodingFailure,
{
    if ncol <= 0 {
        return Err(Error::EncodingFailure(String::from_str("the column count must be positive")));
    }
    let rows = len / (ncol as usize);
    if rows > i32::MAX as usize {
        return Err(Error::EncodingFailure(String::from_str("too many rows for one call")));
    }
    Ok(rows as i32)
}

/// The length of the buffer that receives the scores of `nrow` rows for a model with
/// `num_class` classes. Fails where either count is negative or the product does
/// not fit in memory.
pub fn prediction_len(nrow: i32, num_class: i32) -> (r: Result<usize>)
    ensures
        r is Ok <==> (nrow >= 0 && num_class >= 0 && scores_of(nrow as int, num_class as int)
            <= usize::MAX),
        r matches Ok(n) ==> n == scores_of(nrow as int, num_class as int),
        r matches Err(e) ==> e is EncodingFailure,
{
    if nrow < 0 || num_class < 0 {
        return Err(Error::EncodingFailure(String::from_str("negative row or class count")));
    }
    let a = nrow as u64;
    let b = num_class as u64;
    assert(a * b <= 0x7fff_ffff * 0x7fff_ffff) by (nonlinear_arith)
        requires
            a <= 0x7fff_ffff,
            b <= 0x7fff_ffff,
    ;
    let p = a * b;
    if p > usize::MAX as u64 {
        return Err(Error::EncodingFailure(String::from_str("too many scores for one buffer")));
    }
    Ok(p as usize)
}

/// An input of `k` whole rows of `ncol` features gives `k` rows, and `k` scores
/// for each class.
pub proof fn lemma_whole_rows(k: int, ncol: int, num_class: int)
    requires
        k >= 0,
        ncol > 0,
        num_class >= 0,
    ensures
        rows_of(ncol * k, ncol) == k,
        scores_of(rows_of(ncol * k, ncol), num_class) == k * num_class,
{
    assert(ncol * k == k * ncol) by (nonlinear_arith);
    lemma_fundamental_div_mod_converse(ncol * k, ncol, k, 0);
}

/// An input with `extra` values beyond `k` whole rows, fewer than one row, gives
/// `k` rows: the partial row is left out.
pub proof fn lemma_partial_row(k: int, ncol: int, extra: int)
    requires
        k >= 0,
        ncol > 0,
        0 <= extra < ncol,
    ensures
        rows_of(ncol * k + extra, ncol) == k,
{
    assert(ncol * k == k * ncol) by (nonlinear_arith);
    lemma_fundamental_div_mod_converse(ncol * k + extra, ncol, k, extra);
}

} // verus!
