//! Helpers that are not tied to one file format.
use vstd::prelude::*;

verus! {

/// Whether `next_offset` is a place that parsing may continue at.
pub open spec fn offset_is_safe(
    available_data: usize,
    next_offset: usize,
    last_offset: Option<usize>,
) -> bool {
    &&& next_offset < available_data
    &&& last_offset matches Some(last) ==> last < next_offset
}

/// Checks an offset before data is read there: it must lie inside the available
/// data, and past the last offset that was visited, if there was one, so that a
/// format whose records point at each other cannot make a parser loop.
pub fn is_offset_safe(
    available_data: usize,
    next_offset: usize,
    last_offset: Option<usize>,
) -> (safe: bool)
    ensures
        safe == offset_is_safe(available_data, next_offset, last_offset),
        safe <==> next_offset < available_data && (last_offset matches Some(last) ==> last
            < next_offset),
{
    if let Some(previous_offset) = last_offset {
        if previous_offset >= next_offset {
            return false;
        }
    }
    next_offset < available_data
}

} // verus!
