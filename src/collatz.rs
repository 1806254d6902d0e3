//! The Collatz sequence of a positive integer.
use vstd::prelude::*;

verus! {

/// The term that follows `x`: half of it when even, else three times it plus one.
pub open spec fn collatz_next(x: nat) -> nat {
    if x % 2 == 0 {
        x / 2
    } else {
        3 * x + 1
    }
}

/// From `x` the sequence reaches 1 within `fuel` further terms, each of
/// which fits in a `u64`.
pub open spec fn reaches_one(x: nat, fuel: nat) -> bool
    decreases fuel,
{
    if x == 1 {
        true
    } else if x == 0 || fuel == 0 {
        false
    } else {
        collatz_next(x) <= u64::MAX && reaches_one(collatz_next(x), (fuel - 1) as nat)
    }
}

/// The sequence `seq` starts at `n`, each term follows from the one before,
/// and it stops at the first 1.
pub open spec fn is_collatz_run(seq: Seq<u64>, n: nat) -> bool {
    &&& seq.len() > 0
    &&& seq[0] == n
    &&& seq.last() == 1
    &&& forall|i: int|
        0 <= i < seq.len() - 1 ==> #[trigger] seq[i] != 1 && seq[i + 1] == collatz_next(
            seq[i] as nat,
        )
}

/// The Collatz sequence from `n` down to 1, both included; empty for 0.
/// Defined where the sequence reaches 1 without leaving the `u64` range.
pub fn collatz_sequence(n: u64) -> (r: Vec<u64>)
    requires
        n == 0 || exists|fuel: nat| reaches_one(n as nat, fuel),
    ensures
        n == 0 ==> r@.len() == 0,
        n > 0 ==> is_collatz_run(r@, n as nat),
{
    let mut sequence: Vec<u64> = Vec::new();
    if n < 1 {
        return sequence;
    }
    let ghost mut fuel: nat = choose|fuel: nat| reaches_one(n as nat, fuel);
    let mut x = n;
    sequence.push(x);
    while x > 1
        invariant
            reaches_one(x as nat, fuel),
            sequence@.len() > 0,
            sequence@[0] == n,
            sequence@.last() == x,
            forall|i: int|
                0 <= i < sequence@.len() - 1 ==> #[trigger] sequence@[i] != 1 && sequence@[i + 1]
                    == collatz_next(sequence@[i] as nat),
        decreases fuel,
    {
        let ghost prev = sequence@;
        x = if x % 2 == 0 {
            x / 2
        } else {
            3 * x + 1
        };
        sequence.push(x);
        proof {
            fuel = (fuel - 1) as nat;
            assert forall|i: int| 0 <= i < sequence@.len() - 1 implies #[trigger] sequence@[i] != 1
                && sequence@[i + 1] == collatz_next(sequence@[i] as nat) by {
                if i < prev.len() - 1 {
                    assert(sequence@[i] == prev[i] && sequence@[i + 1] == prev[i + 1]);
                } else {
                    assert(sequence@[i] == prev.last());
                }
            }
        }
    }
    sequence
}

/// Whether the sequence from `x` reaches 1 within `fuel` further terms
/// without leaving the `u64` range: the condition under which
/// `collatz_sequence` may be called.
pub fn reaches_one_within(x: u64, fuel: u64) -> (r: bool)
    ensures
        r == reaches_one(x as nat, fuel as nat),
{
    let mut y = x;
    let mut left = fuel;
    while y != 1
        invariant
            reaches_one(x as nat, fuel as nat) == reaches_one(y as nat, left as nat),
        decreases left,
    {
        if y == 0 || left == 0 {
            return false;
        }
        if y % 2 == 0 {
            y = y / 2;
        } else if y > (u64::MAX - 1) / 3 {
            return false;
        } else {
            y = 3 * y + 1;
        }
        left = left - 1;
    }
    true
}

} // verus!
