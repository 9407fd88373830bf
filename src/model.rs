use vstd::prelude::*;
use vstd::string::*;

use crate::error::{Error, Result};

verus! {

/// Save the model from its first iteration.
pub const SAVE_START_ITERATION: i32 = 0;

/// Save every iteration of the model.
pub const SAVE_ALL_ITERATIONS: i32 = -1;

/// The engine's default kind of feature importance: how often a feature splits.
pub const IMPORTANCE_DEFAULT: i32 = 0;

/// Count importance over every iteration of the model.
pub const IMPORTANCE_ALL_ITERATIONS: i32 = 0;

/// Text that can be handed to the engine as a C string: it holds no zero character.
pub open spec fn c_compatible(t: Seq<char>) -> bool {
    forall|i: int| 0 <= i < t.len() ==> #[trigger] t[i] != '\0'
}

/// Checks that text (a path, a parameter text) can be handed to the engine as a
/// C string. Fails before any native call where it holds a zero character.
pub fn check_c_text(t: &str) -> (r: Result<()>)
    ensures
        r is Ok <==> c_compatible(t@),
        r matches Err(e) ==> e is EncodingFailure,
{
    let n = t.unicode_len();
    let mut i: usize = 0;
    while i < n
        invariant
            n == t@.len(),
            i <= n,
            forall|j: int| 0 <= j < i ==> #[trigger] t@[j] != '\0',
        decreases n - i,
    {
        if t.get_char(i) == '\0' {
            return Err(Error::EncodingFailure(String::from_str("text holds a zero character")));
        }
        i = i + 1;
    }
    Ok(())
}

/// The length of a buffer with one entry for each of `count` features, as the
/// engine reports the count. A negative count gives an empty buffer.
pub fn feature_buffer_len(count: i32) -> (r: usize)
    ensures
        r == if count < 0 { 0 } else { count as int },
{
    if count < 0 {
        0
    } else {
        count as usize
    }
}

} // verus!
