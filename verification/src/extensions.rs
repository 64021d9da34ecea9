//! Extension-based semantics of Dung frameworks, by argument name.

use vstd::prelude::*;
use crate::strings::{strings_view, names_match};
use crate::dung::{ArgumentationFramework, DungError, ENUMERATION_LIMIT, grounded, preferred, complete, stable};

verus! {

impl ArgumentationFramework {
    /// `exts` names exactly the preferred extensions.
    pub open spec fn lists_preferred(&self, exts: Seq<Vec<String>>) -> bool {
        &&& forall|k: int| 0 <= k < exts.len() ==> preferred(self.size(), self.attacks(), #[trigger] self.mask_of(exts[k]@))
        &&& forall|k: int| 0 <= k < exts.len() ==> names_match(exts[k]@, self.named(#[trigger] self.mask_of(exts[k]@)))
        &&& forall|m: Seq<bool>| #[trigger] preferred(self.size(), self.attacks(), m) ==> exists|k: int|
            0 <= k < exts.len() && #[trigger] names_match(exts[k]@, self.named(m))
    }

    /// `exts` names exactly the complete extensions.
    pub open spec fn lists_complete(&self, exts: Seq<Vec<String>>) -> bool {
        &&& forall|k: int| 0 <= k < exts.len() ==> complete(self.size(), self.attacks(), #[trigger] self.mask_of(exts[k]@))
        &&& forall|k: int| 0 <= k < exts.len() ==> names_match(exts[k]@, self.named(#[trigger] self.mask_of(exts[k]@)))
        &&& forall|m: Seq<bool>| #[trigger] complete(self.size(), self.attacks(), m) ==> exists|k: int|
            0 <= k < exts.len() && #[trigger] names_match(exts[k]@, self.named(m))
    }

    /// `exts` names exactly the stable extensions.
    pub open spec fn lists_stable(&self, exts: Seq<Vec<String>>) -> bool {
        &&& forall|k: int| 0 <= k < exts.len() ==> stable(self.size(), self.attacks(), #[trigger] self.mask_of(exts[k]@))
        &&& forall|k: int| 0 <= k < exts.len() ==> names_match(exts[k]@, self.named(#[trigger] self.mask_of(exts[k]@)))
        &&& forall|m: Seq<bool>| #[trigger] stable(self.size(), self.attacks(), m) ==> exists|k: int|
            0 <= k < exts.len() && #[trigger] names_match(exts[k]@, self.named(m))
    }

    /// The grounded extension: the least complete extension.
    pub fn grounded_extension(&self) -> (r: Vec<String>)
        requires
            self.wf(),
        ensures
            exists|m: Seq<bool>| #[trigger] grounded(self.size(), self.attacks(), m) && names_match(r@, self.named(m)),
    {
        let m = self.grounded_mask();
        self.names_of_mask(&m)
    }

    /// All preferred extensions (maximal admissible sets).
    pub fn preferred_extensions(&self) -> (r: Result<Vec<Vec<String>>, DungError>)
        requires
            self.wf(),
        ensures
            r is Err <==> self.size() > ENUMERATION_LIMIT,
            r matches Err(e) ==> self.too_large(e),
            r matches Ok(exts) ==> self.lists_preferred(exts@),
    {
        if self.len() > ENUMERATION_LIMIT {
            return Err(DungError::TooLarge { arguments: self.len(), limit: ENUMERATION_LIMIT });
        }
        let ms = self.preferred_masks();
        let exts = self.names_of_masks(&ms);
        assert forall|m: Seq<bool>| #[trigger] preferred(self.size(), self.attacks(), m) implies (exists|k: int|
            0 <= k < exts@.len() && #[trigger] names_match(exts@[k]@, self.named(m))) by {
            let k = choose|k: int| 0 <= k < ms@.len() && #[trigger] ms@[k]@ == m;
            assert(names_match(exts@[k]@, self.named(m)));
        }
        assert(self.lists_preferred(exts@));
        Ok(exts)
    }

    /// All complete extensions.
    pub fn complete_extensions(&self) -> (r: Result<Vec<Vec<String>>, DungError>)
        requires
            self.wf(),
        ensures
            r is Err <==> self.size() > ENUMERATION_LIMIT,
            r matches Err(e) ==> self.too_large(e),
            r matches Ok(exts) ==> self.lists_complete(exts@),
    {
        if self.len() > ENUMERATION_LIMIT {
            return Err(DungError::TooLarge { arguments: self.len(), limit: ENUMERATION_LIMIT });
        }
        let ms = self.complete_masks();
        let exts = self.names_of_masks(&ms);
        assert forall|m: Seq<bool>| #[trigger] complete(self.size(), self.attacks(), m) implies (exists|k: int|
            0 <= k < exts@.len() && #[trigger] names_match(exts@[k]@, self.named(m))) by {
            let k = choose|k: int| 0 <= k < ms@.len() && #[trigger] ms@[k]@ == m;
            assert(names_match(exts@[k]@, self.named(m)));
        }
        assert(self.lists_complete(exts@));
        Ok(exts)
    }

    /// All stable extensions.
    pub fn stable_extensions(&self) -> (r: Result<Vec<Vec<String>>, DungError>)
        requires
            self.wf(),
        ensures
            r is Err <==> self.size() > ENUMERATION_LIMIT,
            r matches Err(e) ==> self.too_large(e),
            r matches Ok(exts) ==> self.lists_stable(exts@),
    {
        if self.len() > ENUMERATION_LIMIT {
            return Err(DungError::TooLarge { arguments: self.len(), limit: ENUMERATION_LIMIT });
        }
        let ms = self.stable_masks();
        let exts = self.names_of_masks(&ms);
        assert forall|m: Seq<bool>| #[trigger] stable(self.size(), self.attacks(), m) implies (exists|k: int|
            0 <= k < exts@.len() && #[trigger] names_match(exts@[k]@, self.named(m))) by {
            let k = choose|k: int| 0 <= k < ms@.len() && #[trigger] ms@[k]@ == m;
            assert(names_match(exts@[k]@, self.named(m)));
        }
        assert(self.lists_stable(exts@));
        Ok(exts)
    }

}

} // verus!
