use vstd::prelude::*;

use crate::model::{Pubkey, RoundError};
use crate::trusted::{program_address, program_address_of};

verus! {

/// The seed that names member accounts: `"member"`.
pub const MEMBER_SEED: [u8; 6] = [109, 101, 109, 98, 101, 114];

/// The member account address of an authority in a pool, when one exists.
pub open spec fn member_address_spec(authority: Pubkey, pool: Pubkey, program: Pubkey) -> Option<Seq<u8>> {
    program_address_of(MEMBER_SEED@, authority@, pool@, program@)
}

/// The member account of `authority` in `pool`, derived under the pool
/// program `program` from the seeds `"member"`, the authority and the pool.
pub fn member_pda(authority: &Pubkey, pool: &Pubkey, program: &Pubkey) -> (r: Result<Pubkey, RoundError>)
    ensures
        match r {
            Ok(a) => member_address_spec(*authority, *pool, *program) == Some(a@),
            Err(e) => member_address_spec(*authority, *pool, *program) is None && e
                == RoundError::NoMemberAddress,
        },
{
    let seed = MEMBER_SEED;
    assert(seed@ == MEMBER_SEED@);
    match program_address(seed.as_slice(), authority, pool, program) {
        Some(a) => Ok(a),
        None => Err(RoundError::NoMemberAddress),
    }
}

/// Readdresses an attribution from authorities to their member accounts in
/// the pool, keeping the amounts and the order; an error when some
/// authority has no member account address.
pub fn to_member_accounts(entries: &Vec<(Pubkey, u64)>, pool: &Pubkey, program: &Pubkey) -> (r: Result<
    Vec<(Pubkey, u64)>,
    RoundError,
>)
    ensures
        r is Ok <==> forall|i: int|
            0 <= i < entries@.len() ==> (#[trigger] member_address_spec(entries@[i].0, *pool, *program))
                is Some,
        r matches Err(e) ==> e == RoundError::NoMemberAddress,
        r matches Ok(v) ==> v@.len() == entries@.len() && forall|i: int|
            0 <= i < entries@.len() ==> member_address_spec(entries@[i].0, *pool, *program) == Some(
                (#[trigger] v@[i]).0@,
            ) && v@[i].1 == entries@[i].1,
{
    let mut out: Vec<(Pubkey, u64)> = Vec::new();
    let mut i: usize = 0;
    while i < entries.len()
        invariant
            i <= entries@.len(),
            out@.len() == i,
            forall|j: int| 0 <= j < i ==> (#[trigger] member_address_spec(entries@[j].0, *pool, *program))
                is Some,
            forall|j: int|
                0 <= j < i ==> member_address_spec(entries@[j].0, *pool, *program) == Some(
                    (#[trigger] out@[j]).0@,
                ) && out@[j].1 == entries@[j].1,
        decreases entries@.len() - i,
    {
        let e = &entries[i];
        match member_pda(&e.0, pool, program) {
            Ok(a) => {
                out.push((a, e.1));
            },
            Err(err) => {
                assert(member_address_spec(entries@[i as int].0, *pool, *program) is None);
                return Err(err);
            },
        }
        i = i + 1;
    }
    Ok(out)
}

} // verus!
