//! The output dispatcher: selects the backend that compiles the normalized
//! model into a constraint specification. Only the textual backend is
//! implemented; the flag selecting the other backend must be left off.

use crate::adt::{funcs_view, Adt, Func};
use crate::error::TransError;
use crate::essence::{essence, res_view, spec_essence};
use vstd::prelude::*;

verus! {

/// Compile `(Adt, [Func])` into a constraint specification over the bounded
/// integer domain `min..max`, through the textual backend.
pub fn output(
    adt: &Adt,
    funcs: &Vec<Func>,
    oxide_out: bool,
    _verbose: bool,
    min: i32,
    max: i32,
) -> (r: Result<String, TransError>)
    requires
        !oxide_out,
    ensures
        res_view(r) == spec_essence(adt@, funcs_view(funcs@), min, max),
{
    essence(adt, funcs, min, max)
}

} // verus!
