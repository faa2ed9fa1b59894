//! Which fields that are not known may be passed over.

use crate::error::FormatError;
use crate::tlv::Rec;
use crate::unknown;
use vstd::prelude::*;

verus! {

/// A field that is not known is refused in the lower half of the tags and passed over in the
/// upper.
pub proof fn the_upper_half_is_optional(tag: u16)
    ensures
        unknown::unknown_fault(tag) is None <==> tag >= 32_768,
        tag < 32_768 ==> unknown::unknown_fault(tag) == Some(
            FormatError::UnknownCriticalField { tag },
        ),
{
}

/// What is kept is what has a tag in the lower half or a known one, in its order.
pub proof fn what_is_kept(rs: Seq<Rec>, known: Set<u16>)
    ensures
        unknown::kept(rs, known) == rs.filter(|r: Rec| r.0 < 32_768 || known.contains(r.0)),
        unknown::critical(rs) == rs.filter(|r: Rec| r.0 < 32_768),
    decreases rs.len(),
{
    kept_is_filtered(rs, known);
    kept_is_filtered(rs, Set::empty());
    let all = |r: Rec| r.0 < 32_768 || Set::<u16>::empty().contains(r.0);
    let low = |r: Rec| r.0 < 32_768;
    assert(all =~= low);
}

proof fn kept_is_filtered(rs: Seq<Rec>, known: Set<u16>)
    ensures
        unknown::kept(rs, known) == rs.filter(|r: Rec| r.0 < 32_768 || known.contains(r.0)),
    decreases rs.len(),
{
    reveal(Seq::filter);
    if rs.len() > 0 {
        kept_is_filtered(rs.drop_last(), known);
    } else {
        assert(unknown::kept(rs, known) =~= rs.filter(
            |r: Rec| r.0 < 32_768 || known.contains(r.0),
        ));
    }
}

} // verus!
