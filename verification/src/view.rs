use vstd::prelude::*;

verus! {

/// What every view reports after handling input: whether it is done, and
/// whether it must be drawn again.
#[derive(Clone, Copy, Debug)]
pub struct GenericInputResult {
    pub done: bool,
    pub requires_view_refresh: bool,
}

/// The generic result of handling input, with a result of the view's own.
pub struct InputResult<T> {
    pub generic_input_result: GenericInputResult,
    pub view_specific_result: Option<T>,
}

/// Flags for testing and debugging.
#[derive(Clone, Copy, Debug)]
pub struct GlobalTestFlags {
    /// Draws blanked map cells, and cells outside the map, with a block
    /// character in bright green.
    pub debugging_map_symbols: bool,
}

/// The flags the game runs with: map debugging symbols off.
pub fn globals() -> (flags: GlobalTestFlags)
    ensures
        !flags.debugging_map_symbols,
{
    GlobalTestFlags { debugging_map_symbols: false }
}

} // verus!
