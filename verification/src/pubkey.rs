//! Account addresses.
use crate::error::PubkeyError;
use vstd::prelude::*;

verus! {

/// Largest number of seeds from which an address is derived.
pub const MAX_SEEDS: u64 = 16;

/// Largest length of one seed.
pub const MAX_SEED_LEN: u64 = 32;

/// Address of an account.
#[derive(Debug, Clone, Copy)]
pub struct Pubkey {
    pub bytes: [u8; 32],
}

impl View for Pubkey {
    type V = Seq<u8>;

    open spec fn view(&self) -> Seq<u8> {
        self.bytes@
    }
}

/// Owner of the builtin programs: `NativeLoader1111111111111111111111111111111`.
pub const NATIVE_LOADER_ID: [u8; 32] = [
    5, 135, 132, 191, 20, 139, 164, 40, 47, 176, 18, 87, 72, 136, 169, 241, 83, 160, 125, 173, 247,
    101, 192, 69, 92, 154, 151, 3, 128, 0, 0, 0,
];

/// The loader of deployed programs: `BPFLoader2111111111111111111111111111111111`.
pub const BPF_LOADER_ID: [u8; 32] = [
    2, 168, 246, 145, 78, 136, 161, 110, 57, 90, 225, 40, 148, 143, 250, 105, 86, 147, 55, 104, 24,
    221, 71, 67, 82, 33, 243, 198, 0, 0, 0, 0,
];

/// The first loader, whose programs may pass unaligned pointers:
/// `BPFLoader1111111111111111111111111111111111`.
pub const BPF_LOADER_DEPRECATED_ID: [u8; 32] = [
    2, 168, 246, 145, 78, 136, 161, 107, 189, 35, 149, 133, 95, 100, 4, 217, 180, 244, 86, 183, 130,
    27, 176, 20, 87, 73, 66, 140, 0, 0, 0, 0,
];

/// The loader of upgradeable programs: `BPFLoaderUpgradeab1e11111111111111111111111`.
pub const BPF_LOADER_UPGRADEABLE_ID: [u8; 32] = [
    2, 168, 246, 145, 78, 136, 161, 176, 226, 16, 21, 62, 247, 99, 174, 43, 0, 194, 185, 61, 22,
    193, 36, 210, 192, 83, 122, 16, 4, 128, 0, 0,
];

impl Pubkey {
    /// Whether this is the address with the given bytes.
    pub fn has_bytes(&self, bytes: &[u8; 32]) -> (r: bool)
        ensures
            r == (self@ == bytes@),
    {
        let mut i: usize = 0;
        while i < 32
            invariant
                i <= 32,
                forall|j: int| 0 <= j < i ==> self.bytes@[j] == bytes@[j],
            decreases 32 - i,
        {
            if self.bytes[i] != bytes[i] {
                assert(self.bytes@[i as int] != bytes@[i as int]);
                return false;
            }
            i = i + 1;
        }
        assert(self@ =~= bytes@);
        true
    }
}

impl PartialEq for Pubkey {
    fn eq(&self, other: &Pubkey) -> (r: bool) {
        self.has_bytes(&other.bytes)
    }
}

impl vstd::std_specs::cmp::PartialEqSpecImpl for Pubkey {
    open spec fn obeys_eq_spec() -> bool {
        true
    }

    open spec fn eq_spec(&self, other: &Pubkey) -> bool {
        self.bytes@ == other.bytes@
    }
}

/// Whether the seeds are few and short enough to derive an address from.
pub open spec fn seeds_fit(seeds: Seq<Seq<u8>>) -> bool {
    &&& seeds.len() <= MAX_SEEDS
    &&& forall|i: int| 0 <= i < seeds.len() ==> (#[trigger] seeds[i]).len() <= MAX_SEED_LEN
}

/// The address that a program derives from seeds that fit, `None` where the derived bytes are a
/// point on the curve.
pub uninterp spec fn derived_address(seeds: Seq<Seq<u8>>, program_id: Seq<u8>) -> Option<[u8; 32]>;

/// What deriving an address comes to.
pub open spec fn program_address(seeds: Seq<Seq<u8>>, program_id: Seq<u8>) -> Result<
    Seq<u8>,
    PubkeyError,
> {
    if !seeds_fit(seeds) {
        Err(PubkeyError::MaxSeedLengthExceeded)
    } else {
        match derived_address(seeds, program_id) {
            Some(address) => Ok(address@),
            None => Err(PubkeyError::InvalidSeeds),
        }
    }
}

/// Whether a program can derive an address from seeds: few of them, none of them long, and no
/// point of the curve.
pub open spec fn derives(seeds: Seq<Seq<u8>>, program_id: Seq<u8>) -> bool {
    &&& seeds.len() <= 16
    &&& forall|j: int| 0 <= j < seeds.len() ==> (#[trigger] seeds[j]).len() <= 32
    &&& derived_address(seeds, program_id) is Some
}

/// Law: a program derives an address from at most sixteen seeds of at most thirty-two bytes each,
/// where what they lead to is no point of the curve. It is told whether the seeds are at fault, or
/// what they lead to.
pub proof fn law_addresses_are_derived(seeds: Seq<Seq<u8>>, program_id: Seq<u8>)
    ensures
        derives(seeds, program_id) ==> program_address(seeds, program_id) == Ok::<_, PubkeyError>(
            derived_address(seeds, program_id)->0@,
        ),
        seeds.len() > 16 || (exists|j: int|
            0 <= j < seeds.len() && (#[trigger] seeds[j]).len() > 32) ==> program_address(
            seeds,
            program_id,
        ) == Err::<Seq<u8>, PubkeyError>(PubkeyError::MaxSeedLengthExceeded),
        seeds.len() <= 16 && (forall|j: int|
            0 <= j < seeds.len() ==> (#[trigger] seeds[j]).len() <= 32) && derived_address(
            seeds,
            program_id,
        ) is None ==> program_address(seeds, program_id) == Err::<Seq<u8>, PubkeyError>(
            PubkeyError::InvalidSeeds,
        ),
        derives(seeds, program_id) <==> program_address(seeds, program_id) is Ok,
{
}

/// The contents of a list of byte strings.
pub open spec fn byte_strings(v: Seq<Vec<u8>>) -> Seq<Seq<u8>> {
    Seq::new(v.len(), |i: int| v[i]@)
}

/// Calls `solana_sdk::pubkey::Pubkey::create_program_address`. It refuses more than sixteen
/// seeds and a seed of more than thirty-two bytes. Otherwise it hashes the seeds, the program
/// id and a marker, and refuses the hash where it decompresses to a curve point; what it makes
/// of seeds that fit goes by the name `derived_address`.
#[verifier::external_body]
pub(crate) fn create_program_address(seeds: &Vec<Vec<u8>>, program_id: &Pubkey) -> (r: Result<
    Pubkey,
    PubkeyError,
>)
    ensures
        match r {
            Ok(address) => seeds_fit(byte_strings(seeds@)) && derived_address(
                byte_strings(seeds@),
                program_id@,
            ) == Some(address.bytes),
            Err(PubkeyError::MaxSeedLengthExceeded) => !seeds_fit(byte_strings(seeds@)),
            Err(PubkeyError::InvalidSeeds) => seeds_fit(byte_strings(seeds@)) && derived_address(
                byte_strings(seeds@),
                program_id@,
            ) is None,
        },
{
    let seeds: Vec<&[u8]> = seeds.iter().map(|seed| seed.as_slice()).collect();
    let program_id = solana_sdk::pubkey::Pubkey::new_from_array(program_id.bytes);
    match solana_sdk::pubkey::Pubkey::create_program_address(&seeds, &program_id) {
        Ok(address) => Ok(Pubkey { bytes: address.to_bytes() }),
        Err(solana_sdk::pubkey::PubkeyError::MaxSeedLengthExceeded) => Err(
            PubkeyError::MaxSeedLengthExceeded,
        ),
        Err(solana_sdk::pubkey::PubkeyError::InvalidSeeds) => Err(PubkeyError::InvalidSeeds),
    }
}

/// The text form of an address.
pub uninterp spec fn pubkey_text(key: Seq<u8>) -> Seq<char>;

/// Calls the `Display` form of `solana_sdk::pubkey::Pubkey`, which encodes the bytes in base 58;
/// the text goes by the name `pubkey_text`.
#[verifier::external_body]
pub(crate) fn pubkey_to_string(key: &Pubkey) -> (r: String)
    ensures
        r@ == pubkey_text(key@),
{
    solana_sdk::pubkey::Pubkey::new_from_array(key.bytes).to_string()
}

} // verus!
