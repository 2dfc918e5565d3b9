//! Where the files of the base are kept.
use vstd::prelude::*;
use crate::text::copy_str;

verus! {

/// The directory of the files of the base.
pub open spec fn spec_src_path() -> Seq<char> {
    "/net/cremi/mzivojinovic/Travail/Vulcain/Iris/"@
}

/// The directory of the files of the base.
pub fn src_path() -> (r: String)
    ensures
        r@ == spec_src_path(),
{
    copy_str("/net/cremi/mzivojinovic/Travail/Vulcain/Iris/")
}

} // verus!
