//! Rows of nonzero bytes.

use vstd::prelude::*;

verus! {

/// How many bytes stand before the first zero, or in all where there is none.
pub open spec fn run_len(bytes: Seq<u8>) -> int
    decreases bytes.len(),
{
    if bytes.len() == 0 || bytes[0] == 0 {
        0
    } else {
        1 + run_len(bytes.drop_first())
    }
}

/// The bytes before [`run_len`] are not zero; the byte there, if any, is.
pub(crate) proof fn lemma_run(bytes: Seq<u8>)
    ensures
        0 <= run_len(bytes) <= bytes.len(),
        forall|i: int| 0 <= i < run_len(bytes) ==> #[trigger] bytes[i] != 0,
        run_len(bytes) < bytes.len() ==> bytes[run_len(bytes)] == 0,
    decreases bytes.len(),
{
    if bytes.len() > 0 && bytes[0] != 0 {
        let rest = bytes.drop_first();
        lemma_run(rest);
        assert forall|i: int| 0 <= i < run_len(bytes) implies #[trigger] bytes[i] != 0 by {
            if i > 0 {
                assert(rest[i - 1] == bytes[i]);
            }
        }
        if run_len(bytes) < bytes.len() {
            assert(rest[run_len(rest)] == bytes[run_len(bytes)]);
        }
    }
}

/// Nothing but [`run_len`] has these properties.
pub(crate) proof fn lemma_run_is(bytes: Seq<u8>, n: int)
    requires
        0 <= n <= bytes.len(),
        forall|i: int| 0 <= i < n ==> #[trigger] bytes[i] != 0,
        n < bytes.len() ==> bytes[n] == 0,
    ensures
        run_len(bytes) == n,
{
    lemma_run(bytes);
    let r = run_len(bytes);
    if r < n {
        assert(bytes[r] != 0);
    }
    if n < r {
        assert(bytes[n] != 0);
    }
}

/// Finds the first zero.
pub fn run_length(bytes: &[u8]) -> (n: usize)
    ensures
        n == run_len(bytes@),
        n <= bytes@.len(),
{
    let mut n: usize = 0;
    while n < bytes.len() && bytes[n] != 0
        invariant
            n <= bytes@.len(),
            forall|i: int| 0 <= i < n ==> #[trigger] bytes@[i] != 0,
        ensures
            n <= bytes@.len(),
            forall|i: int| 0 <= i < n ==> #[trigger] bytes@[i] != 0,
            n < bytes@.len() ==> bytes@[n as int] == 0,
        decreases bytes@.len() - n,
    {
        n = n + 1;
    }
    proof {
        lemma_run_is(bytes@, n as int);
    }
    n
}

/// The run ends at the first zero, or with the bytes where there is none.
pub proof fn law_run_ends_at_first_zero(bytes: Seq<u8>)
    ensures
        0 <= run_len(bytes) <= bytes.len(),
        forall|i: int| 0 <= i < run_len(bytes) ==> #[trigger] bytes[i] != 0,
        run_len(bytes) < bytes.len() ==> bytes[run_len(bytes)] == 0,
{
    lemma_run(bytes);
}

} // verus!
