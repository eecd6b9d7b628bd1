//! The first place in a sequence of tests at which one fails.

use vstd::prelude::*;

verus! {

/// The position of the first `false` in `flags`, or their number if all are `true`.
pub open spec fn first_false(flags: Seq<bool>) -> int
    decreases flags.len(),
{
    if flags.len() == 0 || !flags[0] {
        0
    } else {
        1 + first_false(flags.drop_first())
    }
}

/// `first_false` is the one position before which all flags are `true` and at
/// which the flags end or one is `false`.
pub proof fn lemma_first_false_unique(flags: Seq<bool>, k: int)
    requires
        0 <= k <= flags.len(),
        forall|i: int| 0 <= i < k ==> #[trigger] flags[i],
        k < flags.len() ==> !flags[k],
    ensures
        first_false(flags) == k,
    decreases k,
{
    if k > 0 {
        let rest = flags.drop_first();
        assert(flags[0]);
        assert forall|i: int| 0 <= i < k - 1 implies #[trigger] rest[i] by {
            assert(rest[i] == flags[i + 1]);
        }
        lemma_first_false_unique(rest, k - 1);
    }
}

/// What `first_false` finds: all flags before it are `true`, and the one at it,
/// if there is one, is `false`.
pub proof fn lemma_first_false_found(flags: Seq<bool>)
    ensures
        0 <= first_false(flags) <= flags.len(),
        forall|i: int| 0 <= i < first_false(flags) ==> #[trigger] flags[i],
        first_false(flags) < flags.len() ==> !flags[first_false(flags)],
    decreases flags.len(),
{
    if flags.len() > 0 && flags[0] {
        let rest = flags.drop_first();
        lemma_first_false_found(rest);
        assert forall|i: int| 0 <= i < first_false(flags) implies #[trigger] flags[i] by {
            if i > 0 {
                assert(flags[i] == rest[i - 1]);
            }
        }
        if first_false(flags) < flags.len() {
            assert(flags[first_false(flags)] == rest[first_false(rest)]);
        }
    }
}

} // verus!
