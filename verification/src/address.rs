use anchor_lang::prelude::Pubkey;
use vstd::prelude::*;

verus! {

/// The identity of an account: a caller, a project record or a lookup record.
#[derive(Clone, Copy, Debug, PartialEq, Eq)]
pub struct Address {
    pub bytes: [u8; 32],
}

impl View for Address {
    type V = Seq<u8>;

    open spec fn view(&self) -> Seq<u8> {
        self.bytes@
    }
}

impl Address {
    /// The address made of the given bytes.
    pub fn new(bytes: [u8; 32]) -> (address: Address)
        ensures
            address@ == bytes@,
    {
        Address { bytes }
    }

    /// Whether two addresses name the same account.
    pub fn same(&self, other: &Address) -> (same: bool)
        ensures
            same == (self@ == other@),
    {
        let mut i: usize = 0;
        while i < 32
            invariant
                i <= 32,
                forall|j: int| 0 <= j < i ==> self.bytes@[j] == other.bytes@[j],
            decreases 32 - i,
        {
            if self.bytes[i] != other.bytes[i] {
                return false;
            }
            i += 1;
        }
        assert(self.bytes@ =~= other.bytes@);
        true
    }

    /// The bytes of the address, as one seed of a derivation.
    pub fn to_seed(&self) -> (seed: Vec<u8>)
        ensures
            seed@ == self@,
    {
        let mut seed: Vec<u8> = Vec::new();
        let mut i: usize = 0;
        while i < 32
            invariant
                i <= 32,
                seed@ == self.bytes@.subrange(0, i as int),
            decreases 32 - i,
        {
            seed.push(self.bytes[i]);
            i += 1;
        }
        seed
    }
}

/// The seeds of a derivation, as plain values.
pub open spec fn seed_views(seeds: Seq<Vec<u8>>) -> Seq<Seq<u8>> {
    Seq::new(seeds.len(), |i: int| seeds[i]@)
}

/// The address that the host derives for a program from an ordered list of
/// seeds, if it derives one. The derivation hashes the seeds together with the
/// program's identity, so equal inputs give equal addresses everywhere.
pub uninterp spec fn program_address(seeds: Seq<Seq<u8>>, program_id: Seq<u8>) -> Option<Seq<u8>>;

/// The text in which the host writes an address (its base-58 form).
pub uninterp spec fn address_text(bytes: Seq<u8>) -> Seq<char>;

/// Calls `Pubkey::try_find_program_address`, which searches for the bump seed
/// that puts the hash of the seeds and the program's identity off the curve.
/// It returns nothing where the seeds are too many or too long, or where no
/// bump seed is found. The result is taken to depend on the seeds and the
/// program's identity alone; the bump seed is dropped.
#[verifier::external_body]
pub(crate) fn find_program_address(seeds: &Vec<Vec<u8>>, program_id: &Address) -> (found: Option<
    Address,
>)
    ensures
        match found {
            Some(address) => program_address(seed_views(seeds@), program_id@) == Some(address@),
            None => program_address(seed_views(seeds@), program_id@) is None,
        },
{
    let parts: Vec<&[u8]> = seeds.iter().map(|seed| seed.as_slice()).collect();
    let id = Pubkey::new_from_array(program_id.bytes);
    Pubkey::try_find_program_address(&parts, &id).map(|(key, _)| Address { bytes: key.to_bytes() })
}

/// Calls `Pubkey`'s `Display`, which writes the 32 bytes in base 58. The
/// result is taken to depend on the bytes alone.
#[verifier::external_body]
pub(crate) fn render_address(address: &Address) -> (text: String)
    ensures
        text@ == address_text(address@),
{
    Pubkey::new_from_array(address.bytes).to_string()
}

} // verus!
