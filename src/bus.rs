use vstd::prelude::*;

use crate::trusted::random_index;

verus! {

/// The balance of bus `i` as fetched; 0 when its account could not be read.
pub open spec fn readable_balance(balances: Seq<Option<u64>>, i: int) -> int {
    match balances[i] {
        Some(b) => b as int,
        None => 0,
    }
}

/// Bus `r` is the one to submit to, given the randomly drawn bus `seed`: it
/// holds the largest balance and is the first to hold it; when every
/// balance is 0 or unreadable, it is `seed`.
pub open spec fn is_chosen_bus(balances: Seq<Option<u64>>, seed: int, r: int) -> bool {
    &&& 0 <= r < balances.len()
    &&& forall|i: int| 0 <= i < balances.len() ==> readable_balance(balances, i) <= readable_balance(balances, r)
    &&& readable_balance(balances, r) == 0 ==> r == seed
    &&& readable_balance(balances, r) > 0 ==> forall|j: int|
        0 <= j < r ==> readable_balance(balances, j) < readable_balance(balances, r)
}

/// Picks the bus to submit to from the fetched balances, one per bus in bus
/// order (`None` where an account could not be read). The candidate starts
/// at `seed` with a best balance of 0 and is replaced by any bus whose
/// balance strictly exceeds the best seen so far; so the chosen bus holds a
/// balance no smaller than the seed bus's.
pub fn choose_bus(balances: &Vec<Option<u64>>, seed: usize) -> (r: usize)
    requires
        seed < balances@.len(),
    ensures
        is_chosen_bus(balances@, seed as int, r as int),
        readable_balance(balances@, r as int) >= readable_balance(balances@, seed as int),
{
    let mut top: usize = seed;
    let mut top_balance: u64 = 0;
    let mut i: usize = 0;
    while i < balances.len()
        invariant
            i <= balances@.len(),
            top < balances@.len(),
            forall|j: int| 0 <= j < i ==> readable_balance(balances@, j) <= top_balance,
            top_balance == 0 ==> top == seed,
            top_balance > 0 ==> top < i && readable_balance(balances@, top as int) == top_balance
                && forall|j: int| 0 <= j < top ==> readable_balance(balances@, j) < top_balance,
            top_balance == 0 || readable_balance(balances@, top as int) == top_balance,
        decreases balances@.len() - i,
    {
        if let Some(b) = balances[i] {
            if b > top_balance {
                top_balance = b;
                top = i;
            }
        }
        i = i + 1;
    }
    if top_balance == 0 {
        assert forall|j: int| 0 <= j < balances@.len() implies readable_balance(balances@, j) <= 0 by {
        }
    }
    top
}

/// Picks the bus to submit to, seeding the candidate with a bus drawn
/// uniformly at random so that pools do not all collide on one bus.
pub fn find_bus(balances: &Vec<Option<u64>>) -> (r: usize)
    requires
        balances@.len() > 0,
    ensures
        exists|seed: int| 0 <= seed < balances@.len() && is_chosen_bus(balances@, seed, r as int),
        forall|i: int| 0 <= i < balances@.len() ==> readable_balance(balances@, i) <= readable_balance(balances@, r as int),
{
    let seed = random_index(balances.len());
    choose_bus(balances, seed)
}

} // verus!
