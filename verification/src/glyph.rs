use vstd::prelude::*;

verus! {

/// The code that `rltk::to_cp437` gives a character: its place in code page
/// 437, or zero where the page does not hold it.
pub uninterp spec fn cp437(c: char) -> u16;

/// Looks a character up with `rltk::to_cp437`. The contract names the code
/// and claims nothing else of it.
#[verifier::external_body]
pub(crate) fn to_cp437(c: char) -> (code: u16)
    ensures
        code == cp437(c),
{
    rltk::to_cp437(c)
}

} // verus!
