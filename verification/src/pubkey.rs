//! 32-byte account addresses and program-derived address lookup.
use vstd::prelude::*;

verus! {

/// A 32-byte account address.
#[derive(Clone, Copy, Debug)]
pub struct Pubkey {
    pub bytes: [u8; 32],
}

impl View for Pubkey {
    type V = Seq<u8>;

    open spec fn view(&self) -> Seq<u8> {
        self.bytes@
    }
}

impl PartialEq for Pubkey {
    fn eq(&self, other: &Pubkey) -> (r: bool) {
        let mut i: usize = 0;
        while i < 32
            invariant
                0 <= i <= 32,
                self@.len() == 32,
                other@.len() == 32,
                forall|j: int| 0 <= j < i ==> self@[j] == other@[j],
            decreases 32 - i,
        {
            if self.bytes[i] != other.bytes[i] {
                return false;
            }
            i = i + 1;
        }
        proof {
            assert(self@ =~= other@);
        }
        true
    }
}

impl vstd::std_specs::cmp::PartialEqSpecImpl for Pubkey {
    open spec fn obeys_eq_spec() -> bool {
        true
    }

    open spec fn eq_spec(&self, other: &Pubkey) -> bool {
        self@ == other@
    }
}

impl Pubkey {
    /// Builds an address from its 32 bytes.
    pub fn new_from_array(bytes: [u8; 32]) -> (r: Pubkey)
        ensures
            r@ == bytes@,
    {
        Pubkey { bytes }
    }

    /// The 32 bytes of the address.
    pub fn to_bytes(&self) -> (r: [u8; 32])
        ensures
            r@ == self@,
    {
        self.bytes
    }

    /// The 32 bytes of the address in a vector.
    pub fn to_vec(&self) -> (r: Vec<u8>)
        ensures
            r@ == self@,
    {
        let mut r: Vec<u8> = Vec::new();
        let mut i: usize = 0;
        while i < 32
            invariant
                i <= 32,
                self@.len() == 32,
                r@ == self@.subrange(0, i as int),
            decreases 32 - i,
        {
            r.push(self.bytes[i]);
            i = i + 1;
            proof {
                assert(r@ =~= self@.subrange(0, i as int));
            }
        }
        proof {
            assert(r@ =~= self@);
        }
        r
    }

    /// The all-zero address.
    pub fn zeroed() -> (r: Pubkey)
        ensures
            r@ == Seq::new(32, |i: int| 0u8),
    {
        let r = Pubkey { bytes: [0u8; 32] };
        proof {
            assert(r@ =~= Seq::new(32, |i: int| 0u8));
        }
        r
    }

    /// A fresh address for tests. Its first four bytes are a process-wide
    /// counter that each call advances and the rest come from a hasher, so
    /// the bytes depend on the process's history and no clause states them.
    pub fn new_unique() -> (r: Pubkey)
        ensures
            r@.len() == 32,
    {
        let bytes = unique_address_bytes();
        Pubkey { bytes }
    }
}

/// Calls `solana_pubkey::Pubkey::new_unique`, which reads and advances a
/// process-wide counter; nothing is claimed of the bytes it returns.
#[verifier::external_body]
fn unique_address_bytes() -> (r: [u8; 32]) {
    solana_pubkey::Pubkey::new_unique().to_bytes()
}

/// The address and bump seed that `solana_pubkey::Pubkey::try_find_program_address`
/// derives from `seeds` and `program_id` (a SHA-256 search over bump seeds for a
/// point off the ed25519 curve), or `None` when it finds none.
pub uninterp spec fn spec_find_program_address(seeds: Seq<Seq<u8>>, program_id: Seq<u8>) -> Option<(Seq<u8>, u8)>;

/// Calls `solana_pubkey::Pubkey::try_find_program_address`. The result is named
/// by `spec_find_program_address` over the seeds and the program id; the source
/// returns `None` when there are 16 or more seeds, and a derived address is 32 bytes.
#[verifier::external_body]
pub(crate) fn try_find_program_address(seeds: &Vec<Vec<u8>>, program_id: &Pubkey) -> (r: Option<(Pubkey, u8)>)
    ensures
        r is Some <==> spec_find_program_address(seeds@.map_values(|s: Vec<u8>| s@), program_id@) is Some,
        r matches Some((k, b)) ==> spec_find_program_address(seeds@.map_values(|s: Vec<u8>| s@), program_id@) == Some((k@, b)),
        seeds@.len() >= 16 ==> r is None,
{
    let refs: Vec<&[u8]> = seeds.iter().map(|s| s.as_slice()).collect();
    let id = solana_pubkey::Pubkey::new_from_array(program_id.bytes);
    solana_pubkey::Pubkey::try_find_program_address(&refs, &id).map(|(k, b)| (Pubkey { bytes: k.to_bytes() }, b))
}

} // verus!
