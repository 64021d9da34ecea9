//! Flattening: the Dung framework over the same arguments whose attack
//! relation is the closed attack relation. Supports are not represented
//! in it; the semantics layer filters for support closure.

use vstd::prelude::*;
use crate::bipolar::framework::BipolarFramework;
use crate::dung::{ArgumentationFramework, DungError};
use crate::matrix::entry;
use crate::strings::strings_view;

verus! {

/// Build the Dung framework whose attacks are the closed attacks of
/// `framework`. Never fails: every closed attack joins two arguments of
/// the framework.
pub fn flatten(framework: &BipolarFramework) -> (r: Result<ArgumentationFramework, DungError>)
    requires
        framework.wf(),
    ensures
        r is Ok,
        r matches Ok(af) ==> af.wf() && af.arg_names() == framework.arg_names()
            && af.attacks() == framework.closed_rel(),
{
    proof {
        framework.lemma_wf();
    }
    let m = framework.closed_matrix();
    let names = framework.names_ref().clone();
    assert(strings_view(names@) =~= framework.arg_names());
    let af = ArgumentationFramework::from_parts(names, m);
    assert(af.attacks() =~= framework.closed_rel()) by {
        assert forall|i: int, j: int| #[trigger] (af.attacks())(i, j) == (framework.closed_rel())(i, j) by {
            assert(entry(m@, i, j) == framework.closed_attack(i, j));
        }
    }
    Ok(af)
}

} // verus!
