//! Rent-exemption parameters and the minimum balance they ask for.
use vstd::prelude::*;
use crate::wire::u64_bytes;

verus! {

/// The lamports per byte-year of the default rent.
pub const DEFAULT_LAMPORTS_PER_BYTE_YEAR: u64 = 3480;

/// The bit pattern of the default exemption threshold (two years).
pub const DEFAULT_EXEMPTION_THRESHOLD_BITS: u64 = 0x4000_0000_0000_0000;

/// The default share of collected rent that is burned.
pub const DEFAULT_BURN_PERCENT: u8 = 50;

/// The bytes that every account is charged for beyond its data.
pub const ACCOUNT_STORAGE_OVERHEAD: u64 = 128;

/// Rent parameters. The exemption threshold, a floating-point number of years,
/// is carried as its IEEE-754 bit pattern.
#[derive(Clone, Copy, Debug, PartialEq, Eq, Structural)]
pub struct Rent {
    pub lamports_per_byte_year: u64,
    pub exemption_threshold_bits: u64,
    pub burn_percent: u8,
}

/// The balance that `solana_rent::Rent::minimum_balance` asks of an account
/// with `data_len` bytes of data under the rent with these parameters.
pub uninterp spec fn spec_minimum_balance(
    lamports_per_byte_year: u64,
    exemption_threshold_bits: u64,
    burn_percent: u8,
    data_len: usize,
) -> u64;

/// Whether computing the minimum balance for `data_len` bytes stays within `u64`.
pub open spec fn minimum_balance_fits(rent: Rent, data_len: usize) -> bool {
    (ACCOUNT_STORAGE_OVERHEAD + data_len) * rent.lamports_per_byte_year <= u64::MAX
}

impl Rent {
    /// The default rent parameters.
    pub open spec fn default_rent_spec() -> Rent {
        Rent {
            lamports_per_byte_year: DEFAULT_LAMPORTS_PER_BYTE_YEAR,
            exemption_threshold_bits: DEFAULT_EXEMPTION_THRESHOLD_BITS,
            burn_percent: DEFAULT_BURN_PERCENT,
        }
    }

    /// The default rent: 3480 lamports per byte-year, two years for exemption,
    /// half of collected rent burned.
    pub fn default_rent() -> (r: Rent)
        ensures
            r == Rent::default_rent_spec(),
    {
        Rent {
            lamports_per_byte_year: DEFAULT_LAMPORTS_PER_BYTE_YEAR,
            exemption_threshold_bits: DEFAULT_EXEMPTION_THRESHOLD_BITS,
            burn_percent: DEFAULT_BURN_PERCENT,
        }
    }

    /// The minimum balance for rent exemption of an account with `data_len` bytes.
    pub fn minimum_balance(&self, data_len: usize) -> (r: u64)
        requires
            minimum_balance_fits(*self, data_len),
        ensures
            r == spec_minimum_balance(
                self.lamports_per_byte_year,
                self.exemption_threshold_bits,
                self.burn_percent,
                data_len,
            ),
    {
        rent_minimum_balance(
            self.lamports_per_byte_year,
            self.exemption_threshold_bits,
            self.burn_percent,
            data_len,
        )
    }

    /// The bytes of the rent sysvar account.
    pub fn to_bytes(&self) -> (r: Vec<u8>)
        ensures
            r@ == u64_bytes(self.lamports_per_byte_year) + u64_bytes(self.exemption_threshold_bits)
                + seq![self.burn_percent],
    {
        rent_sysvar_bytes(self.lamports_per_byte_year, self.exemption_threshold_bits, self.burn_percent)
    }
}

/// Calls `solana_rent::Rent::minimum_balance` on the rent with these fields.
/// The rent is rebuilt from its bincode form (two little-endian `u64`, the
/// second the threshold's bit pattern, then the burn percent). The result is
/// named by `spec_minimum_balance`; the multiplication inside overflows past
/// `u64::MAX`, which the `requires` rules out.
#[verifier::external_body]
fn rent_minimum_balance(lamports_per_byte_year: u64, exemption_threshold_bits: u64, burn_percent: u8, data_len: usize) -> (r: u64)
    requires
        (ACCOUNT_STORAGE_OVERHEAD + data_len) * lamports_per_byte_year <= u64::MAX,
    ensures
        r == spec_minimum_balance(lamports_per_byte_year, exemption_threshold_bits, burn_percent, data_len),
{
    let mut bytes: Vec<u8> = lamports_per_byte_year.to_le_bytes().to_vec();
    bytes.extend_from_slice(&exemption_threshold_bits.to_le_bytes());
    bytes.push(burn_percent);
    let rent: solana_rent::Rent = bincode::deserialize(&bytes).unwrap();
    rent.minimum_balance(data_len)
}

/// Calls `bincode::serialize` on the `solana_rent::Rent` with these fields,
/// which writes the three fields in order, little-endian.
#[verifier::external_body]
fn rent_sysvar_bytes(lamports_per_byte_year: u64, exemption_threshold_bits: u64, burn_percent: u8) -> (r: Vec<u8>)
    ensures
        r@ == u64_bytes(lamports_per_byte_year) + u64_bytes(exemption_threshold_bits) + seq![burn_percent],
{
    let mut bytes: Vec<u8> = lamports_per_byte_year.to_le_bytes().to_vec();
    bytes.extend_from_slice(&exemption_threshold_bits.to_le_bytes());
    bytes.push(burn_percent);
    let rent: solana_rent::Rent = bincode::deserialize(&bytes).unwrap();
    bincode::serialize(&rent).unwrap()
}

} // verus!
