//! Small decisions of the HTTP layer that are worth pinning down: the
//! status of a row mutation, the stage prefix a gateway prepends to
//! request paths, and the distinct sorted label listing.

use vstd::prelude::*;
use vstd::string::StrSliceExecFns;
use vstd::string::StringExecFns;

verus! {

/// The status a mutation maps to: its success status when it touched a
/// row, not-found when it touched none.
pub fn mutation_status(rows_affected: u64, success: u16) -> (r: u16)
    ensures
        r == if rows_affected > 0 {
            success
        } else {
            404u16
        },
{
    if rows_affected > 0 {
        success
    } else {
        404
    }
}

/// Whether a request path starts with `/` followed by the deployment
/// stage.
pub open spec fn has_stage_prefix(path: Seq<char>, stage: Seq<char>) -> bool {
    &&& path.len() >= stage.len() + 1
    &&& path[0] == '/'
    &&& path.subrange(1, stage.len() + 1 as int) == stage
}

/// Strips the deployment stage a gateway prepends to request paths:
/// `Some` with the remainder when the path starts with `/` and the stage,
/// `None` otherwise.
pub fn strip_stage_prefix(path: &str, stage: &str) -> (r: Option<String>)
    ensures
        match r {
            Some(rest) => has_stage_prefix(path@, stage@) && rest@ == path@.skip(
                stage@.len() as int + 1,
            ),
            None => !has_stage_prefix(path@, stage@),
        },
{
    let pl = path.unicode_len();
    let sl = stage.unicode_len();
    if pl <= sl {
        return None;
    }
    if path.get_char(0) != '/' {
        return None;
    }
    let mut i: usize = 0;
    while i < sl
        invariant
            i <= sl,
            sl < pl,
            pl == path@.len(),
            sl == stage@.len(),
            forall|j: int| 0 <= j < i ==> path@[j + 1] == stage@[j],
        decreases sl - i,
    {
        if path.get_char(i + 1) != stage.get_char(i) {
            proof {
                assert(path@.subrange(1, stage@.len() as int + 1)[i as int] == path@[i + 1]);
            }
            return None;
        }
        i = i + 1;
    }
    proof {
        assert(path@.subrange(1, stage@.len() as int + 1) =~= stage@);
    }
    let rest = path.substring_char(sl + 1, pl);
    proof {
        assert(rest@ =~= path@.skip(stage@.len() as int + 1));
    }
    Some(String::from_str(rest))
}

} // verus!
