//! Account addresses and the addresses that a program derives from seeds.
use vstd::prelude::*;

verus! {

/// The address of an account, a program or a signer.
#[derive(Clone, Copy, Debug, PartialEq, Eq)]
pub struct Pubkey {
    pub bytes: [u8; 32],
}

impl Pubkey {
    /// The address that stands for "nobody yet": all its bytes are zero.
    pub open spec fn is_default(self) -> bool {
        forall|i: int| 0 <= i < 32 ==> #[trigger] self.bytes@[i] == 0
    }

    /// Whether the two addresses are the same.
    pub fn same(&self, other: &Pubkey) -> (equal: bool)
        ensures
            equal == (*self == *other),
    {
        let mut i: usize = 0;
        while i < 32
            invariant
                i <= 32,
                forall|j: int| 0 <= j < i ==> self.bytes@[j] == other.bytes@[j],
            decreases 32 - i,
        {
            if self.bytes[i] != other.bytes[i] {
                return false;
            }
            i = i + 1;
        }
        assert(self.bytes =~= other.bytes);
        true
    }
}

impl Default for Pubkey {
    fn default() -> (key: Self)
        ensures
            key.is_default(),
    {
        Pubkey { bytes: [0u8;32] }
    }
}

/// There is only one default address.
pub proof fn lemma_default_is_unique(a: Pubkey, b: Pubkey)
    requires
        a.is_default(),
        b.is_default(),
    ensures
        a == b,
{
    assert forall|i: int| 0 <= i < 32 implies a.bytes@[i] == b.bytes@[i] by {}
    assert(a.bytes =~= b.bytes);
}

/// The address and bump that a program with the id `program_id` derives from `seeds`, or
/// `None` where no bump gives an address off the curve or a seed exceeds the limits.
pub uninterp spec fn program_address(seeds: Seq<Seq<u8>>, program_id: Seq<u8>) -> Option<
    (Seq<u8>, u8),
>;

/// Calls `Pubkey::try_find_program_address` of `anchor_lang::prelude`.
///
/// Trusted: what it returns depends on the seeds and the program id alone. The result is named
/// `program_address`; nothing is claimed of how the hash search arrives at it.
#[verifier::external_body]
pub(crate) fn find_program_address(seeds: &[&[u8]], program_id: &Pubkey) -> (found: Option<
    (Pubkey, u8),
>)
    ensures
        program_address(seeds@.map_values(|seed: &[u8]| seed@), program_id.bytes@) == (match found {
            Some((key, bump)) => Some((key.bytes@, bump)),
            None => None,
        }),
{
    anchor_lang::prelude::Pubkey::try_find_program_address(
        seeds,
        &anchor_lang::prelude::Pubkey::new_from_array(program_id.bytes),
    ).map(|found| (Pubkey { bytes: found.0.to_bytes() }, found.1))
}

} // verus!
