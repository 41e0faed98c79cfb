//! The sysvars an SVM serves to programs, and moving the clock forward.
use vstd::prelude::*;
use crate::account::{Account, AccountView};
use crate::ids::{
    CLOCK_SYSVAR_ID, EPOCH_REWARDS_SYSVAR_ID, EPOCH_SCHEDULE_SYSVAR_ID, LAST_RESTART_SLOT_SYSVAR_ID,
    RECENT_BLOCKHASHES_SYSVAR_ID, RENT_SYSVAR_ID, SLOT_HASHES_SYSVAR_ID, STAKE_HISTORY_SYSVAR_ID,
    SYSVAR_PROGRAM_ID,
};
use crate::pubkey::Pubkey;
use crate::rent::{Rent, minimum_balance_fits, spec_minimum_balance};
use crate::wire::{bool_byte, u64_bytes};

verus! {

// ---------------------------------------------------------------------------
// Clock
// ---------------------------------------------------------------------------

/// The clock sysvar.
#[derive(Clone, Copy, Debug, PartialEq, Eq, Structural)]
pub struct Clock {
    pub slot: u64,
    pub epoch_start_timestamp: i64,
    pub epoch: u64,
    pub leader_schedule_epoch: u64,
    pub unix_timestamp: i64,
}

/// The bytes of the clock sysvar account: the five fields, little-endian.
pub open spec fn clock_bytes(c: Clock) -> Seq<u8> {
    u64_bytes(c.slot) + u64_bytes(c.epoch_start_timestamp as u64) + u64_bytes(c.epoch) + u64_bytes(
        c.leader_schedule_epoch,
    ) + u64_bytes(c.unix_timestamp as u64)
}

impl Clock {
    /// The clock at slot 0: every field zero.
    pub fn zero() -> (r: Clock)
        ensures
            r == (Clock { slot: 0, epoch_start_timestamp: 0, epoch: 0, leader_schedule_epoch: 0, unix_timestamp: 0 }),
    {
        Clock { slot: 0, epoch_start_timestamp: 0, epoch: 0, leader_schedule_epoch: 0, unix_timestamp: 0 }
    }

    /// The bytes of the clock sysvar account.
    pub fn to_bytes(&self) -> (r: Vec<u8>)
        ensures
            r@ == clock_bytes(*self),
    {
        clock_sysvar_bytes(self.slot, self.epoch_start_timestamp, self.epoch, self.leader_schedule_epoch, self.unix_timestamp)
    }
}

/// Calls `bincode::serialize` on the `solana_clock::Clock` with these fields,
/// which writes them in order, little-endian.
#[verifier::external_body]
fn clock_sysvar_bytes(slot: u64, epoch_start_timestamp: i64, epoch: u64, leader_schedule_epoch: u64, unix_timestamp: i64) -> (r: Vec<u8>)
    ensures
        r@ == clock_bytes(Clock { slot, epoch_start_timestamp, epoch, leader_schedule_epoch, unix_timestamp }),
{
    let clock = solana_clock::Clock { slot, epoch_start_timestamp, epoch, leader_schedule_epoch, unix_timestamp };
    bincode::serialize(&clock).unwrap()
}

// ---------------------------------------------------------------------------
// Epoch schedule
// ---------------------------------------------------------------------------

/// The epoch schedule sysvar.
#[derive(Clone, Copy, Debug, PartialEq, Eq, Structural)]
pub struct EpochSchedule {
    pub slots_per_epoch: u64,
    pub leader_schedule_slot_offset: u64,
    pub warmup: bool,
    pub first_normal_epoch: u64,
    pub first_normal_slot: u64,
}

/// The smallest `k` with `2^k >= x`.
pub open spec fn ceil_log2(x: nat) -> nat
    decreases x,
{
    if x <= 1 {
        0
    } else {
        1 + ceil_log2(((x + 1) / 2) as nat)
    }
}

/// `a + b`, or `u64::MAX` when that does not fit.
pub open spec fn saturating_add(a: u64, b: u64) -> u64 {
    if a + b > u64::MAX {
        u64::MAX
    } else {
        (a + b) as u64
    }
}

/// The epoch of `slot` under the schedule with these fields: within the
/// warmup slots, where epochs double from 32 slots, `ceil(log2(slot + 33)) - 6`;
/// after them, the first normal epoch plus the whole epochs since the first
/// normal slot (none when epochs have no slots).
pub open spec fn spec_get_epoch(
    slots_per_epoch: u64,
    leader_schedule_slot_offset: u64,
    warmup: bool,
    first_normal_epoch: u64,
    first_normal_slot: u64,
    slot: u64,
) -> u64 {
    if slot < first_normal_slot {
        (ceil_log2((slot + 33) as nat) - 6) as u64
    } else if slots_per_epoch == 0 {
        first_normal_epoch
    } else {
        saturating_add(first_normal_epoch, ((slot - first_normal_slot) / (slots_per_epoch as int)) as u64)
    }
}

/// The epoch whose leader schedule is set at `slot`: within the warmup slots
/// the next epoch; after them, the first normal epoch plus the whole epochs
/// in the slots since the first normal slot and the leader-schedule offset
/// (the sum saturating).
pub open spec fn spec_get_leader_schedule_epoch(
    slots_per_epoch: u64,
    leader_schedule_slot_offset: u64,
    warmup: bool,
    first_normal_epoch: u64,
    first_normal_slot: u64,
    slot: u64,
) -> u64 {
    if slot < first_normal_slot {
        saturating_add(
            spec_get_epoch(slots_per_epoch, leader_schedule_slot_offset, warmup, first_normal_epoch, first_normal_slot, slot),
            1,
        )
    } else if slots_per_epoch == 0 {
        first_normal_epoch
    } else {
        saturating_add(
            first_normal_epoch,
            saturating_add((slot - first_normal_slot) as u64, leader_schedule_slot_offset) / slots_per_epoch,
        )
    }
}

/// The bytes of the epoch schedule sysvar account.
pub open spec fn epoch_schedule_bytes(e: EpochSchedule) -> Seq<u8> {
    u64_bytes(e.slots_per_epoch) + u64_bytes(e.leader_schedule_slot_offset) + seq![bool_byte(e.warmup)]
        + u64_bytes(e.first_normal_epoch) + u64_bytes(e.first_normal_slot)
}

impl EpochSchedule {
    /// Whether `slot` can be placed in an epoch: within the warmup slots the
    /// computation rounds `slot + 33` up to a power of two, which must fit.
    pub open spec fn slot_placeable(&self, slot: u64) -> bool {
        slot < self.first_normal_slot ==> slot + 33 <= 0x8000_0000_0000_0000
    }

    /// The epoch of `slot`.
    pub open spec fn epoch_of(&self, slot: u64) -> u64 {
        spec_get_epoch(
            self.slots_per_epoch,
            self.leader_schedule_slot_offset,
            self.warmup,
            self.first_normal_epoch,
            self.first_normal_slot,
            slot,
        )
    }

    /// The leader-schedule epoch of `slot`.
    pub open spec fn leader_schedule_epoch_of(&self, slot: u64) -> u64 {
        spec_get_leader_schedule_epoch(
            self.slots_per_epoch,
            self.leader_schedule_slot_offset,
            self.warmup,
            self.first_normal_epoch,
            self.first_normal_slot,
            slot,
        )
    }

    /// The schedule without warmup: 432,000 slots per epoch, leader
    /// schedules that many slots ahead, normal from slot 0.
    pub fn without_warmup() -> (r: EpochSchedule)
        ensures
            r == (EpochSchedule {
                slots_per_epoch: 432_000,
                leader_schedule_slot_offset: 432_000,
                warmup: false,
                first_normal_epoch: 0,
                first_normal_slot: 0,
            }),
    {
        let (a, b, c, d, e) = epoch_schedule_without_warmup();
        EpochSchedule {
            slots_per_epoch: a,
            leader_schedule_slot_offset: b,
            warmup: c,
            first_normal_epoch: d,
            first_normal_slot: e,
        }
    }

    /// The epoch of `slot`.
    pub fn get_epoch(&self, slot: u64) -> (r: u64)
        requires
            self.slot_placeable(slot),
        ensures
            r == self.epoch_of(slot),
    {
        epoch_schedule_get_epoch(
            self.slots_per_epoch,
            self.leader_schedule_slot_offset,
            self.warmup,
            self.first_normal_epoch,
            self.first_normal_slot,
            slot,
        )
    }

    /// The epoch whose leader schedule covers `slot`.
    pub fn get_leader_schedule_epoch(&self, slot: u64) -> (r: u64)
        requires
            self.slot_placeable(slot),
        ensures
            r == self.leader_schedule_epoch_of(slot),
    {
        epoch_schedule_get_leader_schedule_epoch(
            self.slots_per_epoch,
            self.leader_schedule_slot_offset,
            self.warmup,
            self.first_normal_epoch,
            self.first_normal_slot,
            slot,
        )
    }

    /// The bytes of the epoch schedule sysvar account.
    pub fn to_bytes(&self) -> (r: Vec<u8>)
        ensures
            r@ == epoch_schedule_bytes(*self),
    {
        epoch_schedule_sysvar_bytes(
            self.slots_per_epoch,
            self.leader_schedule_slot_offset,
            self.warmup,
            self.first_normal_epoch,
            self.first_normal_slot,
        )
    }
}

/// Calls `solana_epoch_schedule::EpochSchedule::without_warmup`, which is
/// `custom(432000, 432000, false)`: no warmup, so the first normal epoch and
/// slot are 0.
#[verifier::external_body]
fn epoch_schedule_without_warmup() -> (r: (u64, u64, bool, u64, u64))
    ensures
        r == (432_000u64, 432_000u64, false, 0u64, 0u64),
{
    let e = solana_epoch_schedule::EpochSchedule::without_warmup();
    (e.slots_per_epoch, e.leader_schedule_slot_offset, e.warmup, e.first_normal_epoch, e.first_normal_slot)
}

/// Calls `solana_epoch_schedule::EpochSchedule::get_epoch`, whose result
/// `spec_get_epoch` writes out. Within the warmup slots it rounds `slot + 33`
/// up to a power of two, which overflows past 2^63; the `requires` rules that
/// out.
#[verifier::external_body]
fn epoch_schedule_get_epoch(slots_per_epoch: u64, leader_schedule_slot_offset: u64, warmup: bool, first_normal_epoch: u64, first_normal_slot: u64, slot: u64) -> (r: u64)
    requires
        slot < first_normal_slot ==> slot + 33 <= 0x8000_0000_0000_0000,
    ensures
        r == spec_get_epoch(slots_per_epoch, leader_schedule_slot_offset, warmup, first_normal_epoch, first_normal_slot, slot),
{
    let e = solana_epoch_schedule::EpochSchedule { slots_per_epoch, leader_schedule_slot_offset, warmup, first_normal_epoch, first_normal_slot };
    e.get_epoch(slot)
}

/// Calls `solana_epoch_schedule::EpochSchedule::get_leader_schedule_epoch`,
/// whose result `spec_get_leader_schedule_epoch` writes out. The same
/// rounding as in `get_epoch` is ruled out of overflow by the `requires`.
#[verifier::external_body]
fn epoch_schedule_get_leader_schedule_epoch(slots_per_epoch: u64, leader_schedule_slot_offset: u64, warmup: bool, first_normal_epoch: u64, first_normal_slot: u64, slot: u64) -> (r: u64)
    requires
        slot < first_normal_slot ==> slot + 33 <= 0x8000_0000_0000_0000,
    ensures
        r == spec_get_leader_schedule_epoch(slots_per_epoch, leader_schedule_slot_offset, warmup, first_normal_epoch, first_normal_slot, slot),
{
    let e = solana_epoch_schedule::EpochSchedule { slots_per_epoch, leader_schedule_slot_offset, warmup, first_normal_epoch, first_normal_slot };
    e.get_leader_schedule_epoch(slot)
}

/// Calls `bincode::serialize` on the `solana_epoch_schedule::EpochSchedule`
/// with these fields, which writes them in order: the integers
/// little-endian, the flag as one byte.
#[verifier::external_body]
fn epoch_schedule_sysvar_bytes(slots_per_epoch: u64, leader_schedule_slot_offset: u64, warmup: bool, first_normal_epoch: u64, first_normal_slot: u64) -> (r: Vec<u8>)
    ensures
        r@ == epoch_schedule_bytes(EpochSchedule { slots_per_epoch, leader_schedule_slot_offset, warmup, first_normal_epoch, first_normal_slot }),
{
    let e = solana_epoch_schedule::EpochSchedule { slots_per_epoch, leader_schedule_slot_offset, warmup, first_normal_epoch, first_normal_slot };
    bincode::serialize(&e).unwrap()
}

// ---------------------------------------------------------------------------
// Slot hashes
// ---------------------------------------------------------------------------

/// A 32-byte hash of the `solana_hash` crate.
#[verifier::external_type_specification]
#[verifier::external_body]
pub struct ExHash(solana_hash::Hash);

/// The slot hashes sysvar of the `solana_slot_hashes` crate.
#[verifier::external_type_specification]
#[verifier::external_body]
pub struct ExSlotHashes(solana_slot_hashes::SlotHashes);

/// The entries (slot and hash bytes) that a `SlotHashes` holds, in order.
pub uninterp spec fn spec_slot_hash_entries(sh: solana_slot_hashes::SlotHashes) -> Seq<(u64, Seq<u8>)>;

/// Whether the entries are ordered by slot, newest first.
pub open spec fn slots_descending(e: Seq<(u64, Seq<u8>)>) -> bool {
    forall|i: int, j: int| 0 <= i < j < e.len() ==> #[trigger] e[i].0 >= #[trigger] e[j].0
}

/// The 32 zero bytes of the default hash.
pub open spec fn zero_hash() -> Seq<u8> {
    Seq::new(32, |i: int| 0u8)
}

/// Whether every entry holds the default hash.
pub open spec fn all_zero_hashes(e: Seq<(u64, Seq<u8>)>) -> bool {
    forall|i: int| 0 <= i < e.len() ==> (#[trigger] e[i]).1 == zero_hash()
}

/// The bytes of a slot-hashes list: its length as a `u64`, then each slot
/// and hash.
pub open spec fn slot_hash_list_bytes(e: Seq<(u64, Seq<u8>)>) -> Seq<u8>
    decreases e.len(),
{
    if e.len() == 0 {
        Seq::empty()
    } else {
        slot_hash_list_bytes(e.drop_last()) + u64_bytes(e.last().0) + e.last().1
    }
}

/// The bytes of the slot hashes sysvar account.
pub open spec fn slot_hashes_bytes(e: Seq<(u64, Seq<u8>)>) -> Seq<u8> {
    u64_bytes(e.len() as u64) + slot_hash_list_bytes(e)
}

/// What `SlotHashes::add(slot, hash)` leaves of the entries `old` when they
/// are ordered newest first: the entry for `slot` replaced (some entry with
/// that slot, should there be several), or else the pair inserted where the
/// order keeps it; then a prefix of that.
pub open spec fn slot_hash_added(old: Seq<(u64, Seq<u8>)>, new: Seq<(u64, Seq<u8>)>, slot: u64, hash: Seq<u8>) -> bool {
    exists|inserted: Seq<(u64, Seq<u8>)>| {
        &&& #[trigger] new.is_prefix_of(inserted)
        &&& if exists|i: int| 0 <= i < old.len() && old[i].0 == slot {
            exists|i: int| 0 <= i < old.len() && old[i].0 == slot && inserted == old.update(i, (slot, hash))
        } else {
            exists|k: int| {
                &&& 0 <= k <= old.len()
                &&& (forall|j: int| 0 <= j < k ==> old[j].0 > slot)
                &&& (forall|j: int| k <= j < old.len() ==> old[j].0 < slot)
                &&& inserted == old.take(k) + seq![(slot, hash)] + old.skip(k)
            }
        }
    }
}

/// Calls `SlotHashes::new`, which sorts a copy of the entries by slot, newest
/// first, with a stable sort: entries already in that order stay as given.
#[verifier::external_body]
fn slot_hashes_new(entries: &Vec<(u64, [u8; 32])>) -> (r: solana_slot_hashes::SlotHashes)
    ensures
        spec_slot_hash_entries(r).len() == entries@.len(),
        slots_descending(entries@.map_values(|e: (u64, [u8; 32])| (e.0, e.1@))) ==> spec_slot_hash_entries(r)
            == entries@.map_values(|e: (u64, [u8; 32])| (e.0, e.1@)),
{
    let v: Vec<(u64, solana_hash::Hash)> = entries.iter().map(|(s, h)| (*s, solana_hash::Hash::new_from_array(*h))).collect();
    solana_slot_hashes::SlotHashes::new(&v)
}

/// Calls `SlotHashes::add`: a binary search for `slot` among entries kept
/// newest first, replace or insert, then truncation to the entry limit. The
/// limit is a process-wide value (512 unless a test-only setter changed it),
/// so only that the result is a prefix is stated.
#[verifier::external_body]
fn slot_hashes_add(sh: &mut solana_slot_hashes::SlotHashes, slot: u64, hash: &[u8; 32])
    ensures
        slots_descending(spec_slot_hash_entries(*old(sh))) ==> slot_hash_added(
            spec_slot_hash_entries(*old(sh)),
            spec_slot_hash_entries(*final(sh)),
            slot,
            hash@,
        ),
{
    sh.add(slot, solana_hash::Hash::new_from_array(*hash));
}

/// Calls `first` on the entries of a `SlotHashes` and takes its slot.
#[verifier::external_body]
fn slot_hashes_first_slot(sh: &solana_slot_hashes::SlotHashes) -> (r: Option<u64>)
    ensures
        spec_slot_hash_entries(*sh).len() == 0 ==> r is None,
        spec_slot_hash_entries(*sh).len() > 0 ==> r == Some(spec_slot_hash_entries(*sh)[0].0),
{
    sh.first().map(|h| h.0)
}

/// Calls `bincode::serialize` on a `SlotHashes`: the number of entries as a
/// little-endian `u64`, then each slot (little-endian `u64`) and hash.
#[verifier::external_body]
fn slot_hashes_sysvar_bytes(sh: &solana_slot_hashes::SlotHashes) -> (r: Vec<u8>)
    ensures
        r@ == slot_hashes_bytes(spec_slot_hash_entries(*sh)),
{
    bincode::serialize(sh).unwrap()
}

// ---------------------------------------------------------------------------
// The sysvars that keep their defaults
// ---------------------------------------------------------------------------

/// Calls `bincode::serialize` on `EpochRewards::default()`: all of its
/// fields are zero, so its 81 bytes are zero.
#[verifier::external_body]
fn default_epoch_rewards_bytes() -> (r: Vec<u8>)
    ensures
        r@ == Seq::new(81, |i: int| 0u8),
{
    bincode::serialize(&solana_epoch_rewards::EpochRewards::default()).unwrap()
}

/// Calls `bincode::serialize` on the `LastRestartSlot` at `slot`: the slot,
/// little-endian.
#[verifier::external_body]
fn last_restart_slot_bytes(slot: u64) -> (r: Vec<u8>)
    ensures
        r@ == u64_bytes(slot),
{
    let s = solana_sysvar::last_restart_slot::LastRestartSlot { last_restart_slot: slot };
    bincode::serialize(&s).unwrap()
}

/// Calls `bincode::serialize` on the default `StakeHistory` after
/// `add(0, StakeHistoryEntry::default())`: one entry, so the length 1 as a
/// little-endian `u64`, then epoch 0 and three zero amounts.
#[verifier::external_body]
fn initial_stake_history_bytes() -> (r: Vec<u8>)
    ensures
        r@ == u64_bytes(1) + Seq::new(32, |i: int| 0u8),
{
    let mut h = solana_stake_interface::stake_history::StakeHistory::default();
    h.add(0, solana_stake_interface::stake_history::StakeHistoryEntry::default());
    bincode::serialize(&h).unwrap()
}

/// Calls `bincode::serialize` on `RecentBlockhashes::default()`, an empty
/// list: its length 0 as a little-endian `u64`.
#[verifier::external_body]
#[allow(deprecated)]
fn default_recent_blockhashes_bytes() -> (r: Vec<u8>)
    ensures
        r@ == u64_bytes(0),
{
    bincode::serialize(&solana_sysvar::recent_blockhashes::RecentBlockhashes::default()).unwrap()
}

// ---------------------------------------------------------------------------
// Sysvars
// ---------------------------------------------------------------------------

/// The number of entries the slot hashes sysvar keeps.
pub const SLOT_HASHES_MAX_ENTRIES: u64 = 512;

/// The sysvars of an SVM. The epoch rewards, stake history and recent
/// blockhashes sysvars keep their initial values and are held as the bytes
/// of their accounts.
pub struct Sysvars {
    pub clock: Clock,
    pub epoch_rewards_data: Vec<u8>,
    pub epoch_schedule: EpochSchedule,
    pub last_restart_slot: u64,
    pub rent: Rent,
    pub slot_hashes: solana_slot_hashes::SlotHashes,
    pub stake_history_data: Vec<u8>,
    pub recent_blockhashes_data: Vec<u8>,
}

impl Sysvars {
    /// The slot hashes, in order.
    pub open spec fn slot_hash_entries(&self) -> Seq<(u64, Seq<u8>)> {
        spec_slot_hash_entries(self.slot_hashes)
    }

    /// The slot hashes are ordered newest first and all hold the default hash.
    pub open spec fn wf(&self) -> bool {
        &&& slots_descending(self.slot_hash_entries())
        &&& all_zero_hashes(self.slot_hash_entries())
    }

    /// The data of the sysvar account at `key`, if `key` is a sysvar.
    pub open spec fn sysvar_data(&self, key: Seq<u8>) -> Option<Seq<u8>> {
        if key == CLOCK_SYSVAR_ID@ {
            Some(clock_bytes(self.clock))
        } else if key == EPOCH_REWARDS_SYSVAR_ID@ {
            Some(self.epoch_rewards_data@)
        } else if key == EPOCH_SCHEDULE_SYSVAR_ID@ {
            Some(epoch_schedule_bytes(self.epoch_schedule))
        } else if key == LAST_RESTART_SLOT_SYSVAR_ID@ {
            Some(u64_bytes(self.last_restart_slot))
        } else if key == RENT_SYSVAR_ID@ {
            Some(
                u64_bytes(self.rent.lamports_per_byte_year) + u64_bytes(
                    self.rent.exemption_threshold_bits,
                ) + seq![self.rent.burn_percent],
            )
        } else if key == SLOT_HASHES_SYSVAR_ID@ {
            Some(slot_hashes_bytes(self.slot_hash_entries()))
        } else if key == STAKE_HISTORY_SYSVAR_ID@ {
            Some(self.stake_history_data@)
        } else if key == RECENT_BLOCKHASHES_SYSVAR_ID@ {
            Some(self.recent_blockhashes_data@)
        } else {
            None
        }
    }

    /// The account that serves the sysvar at `key`, if `key` is a sysvar.
    pub open spec fn sysvar_account(&self, key: Seq<u8>) -> Option<AccountView> {
        match self.sysvar_data(key) {
            Some(d) => Some(
                AccountView {
                    address: key,
                    lamports: spec_minimum_balance(
                        self.rent.lamports_per_byte_year,
                        self.rent.exemption_threshold_bits,
                        self.rent.burn_percent,
                        d.len() as usize,
                    ),
                    data: d,
                    owner: SYSVAR_PROGRAM_ID@,
                    executable: false,
                },
            ),
            None => None,
        }
    }

    /// Whether the account of the sysvar at `key` can be built: its minimum
    /// balance fits a `u64`.
    pub open spec fn sysvar_account_fits(&self, key: Seq<u8>) -> bool {
        match self.sysvar_data(key) {
            Some(d) => d.len() <= usize::MAX && minimum_balance_fits(self.rent, d.len() as usize),
            None => true,
        }
    }

    /// Whether these are the initial sysvars: the clock at slot 0, the
    /// schedule without warmup, the default rent, 512 slot hashes for slot 0,
    /// and the defaults of the others (stake history with one empty entry
    /// for epoch 0).
    pub open spec fn is_initial(&self) -> bool {
        &&& self.clock == (Clock { slot: 0, epoch_start_timestamp: 0, epoch: 0, leader_schedule_epoch: 0, unix_timestamp: 0 })
        &&& self.epoch_schedule == (EpochSchedule {
            slots_per_epoch: 432_000,
            leader_schedule_slot_offset: 432_000,
            warmup: false,
            first_normal_epoch: 0,
            first_normal_slot: 0,
        })
        &&& self.rent == Rent::default_rent_spec()
        &&& self.last_restart_slot == 0
        &&& self.slot_hash_entries() == Seq::new(512, |i: int| (0u64, zero_hash()))
        &&& self.epoch_rewards_data@ == Seq::new(81, |i: int| 0u8)
        &&& self.stake_history_data@ == u64_bytes(1) + Seq::new(32, |i: int| 0u8)
        &&& self.recent_blockhashes_data@ == u64_bytes(0)
    }

    /// The initial sysvars: the clock at slot 0, the schedule without warmup,
    /// the default rent, 512 slot hashes for slot 0, and the defaults of the
    /// others (stake history with one empty entry for epoch 0).
    pub fn new() -> (r: Sysvars)
        ensures
            r.wf(),
            r.is_initial(),
    {
        let clock = Clock::zero();
        let zero = [0u8; 32];
        proof {
            assert(zero@ =~= zero_hash());
        }
        let mut entries: Vec<(u64, [u8; 32])> = Vec::new();
        let mut i: usize = 0;
        while i < 512
            invariant
                i <= 512,
                zero@ == zero_hash(),
                clock.slot == 0,
                entries@.len() == i,
                forall|j: int| 0 <= j < i ==> (#[trigger] entries@[j]).0 == 0 && entries@[j].1@ == zero_hash(),
            decreases 512 - i,
        {
            entries.push((clock.slot, zero));
            i = i + 1;
        }
        let ghost ev = entries@.map_values(|e: (u64, [u8; 32])| (e.0, e.1@));
        proof {
            assert(ev =~= Seq::new(512, |i: int| (0u64, zero_hash())));
        }
        let slot_hashes = slot_hashes_new(&entries);
        Sysvars {
            clock,
            epoch_rewards_data: default_epoch_rewards_bytes(),
            epoch_schedule: EpochSchedule::without_warmup(),
            last_restart_slot: 0,
            rent: Rent::default_rent(),
            slot_hashes,
            stake_history_data: initial_stake_history_bytes(),
            recent_blockhashes_data: default_recent_blockhashes_bytes(),
        }
    }

    /// The data of the sysvar account at `pubkey`, if it is a sysvar.
    pub fn sysvar_data_of(&self, pubkey: &Pubkey) -> (r: Option<Vec<u8>>)
        ensures
            match r {
                Some(v) => self.sysvar_data(pubkey@) == Some(v@),
                None => self.sysvar_data(pubkey@) is None,
            },
    {
        if *pubkey == Pubkey::new_from_array(CLOCK_SYSVAR_ID) {
            Some(self.clock.to_bytes())
        } else if *pubkey == Pubkey::new_from_array(EPOCH_REWARDS_SYSVAR_ID) {
            Some(crate::account::copy_bytes(&self.epoch_rewards_data))
        } else if *pubkey == Pubkey::new_from_array(EPOCH_SCHEDULE_SYSVAR_ID) {
            Some(self.epoch_schedule.to_bytes())
        } else if *pubkey == Pubkey::new_from_array(LAST_RESTART_SLOT_SYSVAR_ID) {
            Some(last_restart_slot_bytes(self.last_restart_slot))
        } else if *pubkey == Pubkey::new_from_array(RENT_SYSVAR_ID) {
            Some(self.rent.to_bytes())
        } else if *pubkey == Pubkey::new_from_array(SLOT_HASHES_SYSVAR_ID) {
            Some(slot_hashes_sysvar_bytes(&self.slot_hashes))
        } else if *pubkey == Pubkey::new_from_array(STAKE_HISTORY_SYSVAR_ID) {
            Some(crate::account::copy_bytes(&self.stake_history_data))
        } else if *pubkey == Pubkey::new_from_array(RECENT_BLOCKHASHES_SYSVAR_ID) {
            Some(crate::account::copy_bytes(&self.recent_blockhashes_data))
        } else {
            None
        }
    }

    /// The account that serves the sysvar at `pubkey`, if it is a sysvar: its
    /// data, the rent-exempt minimum balance for it, owned by the sysvar program.
    pub fn maybe_create_sysvar_account(&self, pubkey: &Pubkey) -> (r: Option<Account>)
        requires
            self.sysvar_account_fits(pubkey@),
        ensures
            match r {
                Some(a) => self.sysvar_account(pubkey@) == Some(a@),
                None => self.sysvar_account(pubkey@) is None,
            },
    {
        match self.sysvar_data_of(pubkey) {
            Some(data) => {
                let lamports = self.rent.minimum_balance(data.len());
                Some(Account {
                    address: *pubkey,
                    lamports,
                    data,
                    owner: Pubkey::new_from_array(SYSVAR_PROGRAM_ID),
                    executable: false,
                })
            },
            None => None,
        }
    }

    /// Moves the clock to `slot`: the clock's slot, epoch and leader-schedule
    /// epoch follow from the schedule, its timestamps go back to zero. Slot
    /// hashes: after a jump of more than 512 slots they are the 512 slots
    /// before `slot`, newest first; otherwise each slot from the newest held
    /// up to `slot - 1` is added.
    pub fn warp_to_slot(&mut self, slot: u64)
        requires
            old(self).wf(),
            old(self).epoch_schedule.slot_placeable(slot),
        ensures
            final(self).wf(),
            warped_to(*old(self), *final(self), slot),
    {
        let slot_delta = if slot > self.clock.slot {
            slot - self.clock.slot
        } else {
            0
        };
        let epoch = self.epoch_schedule.get_epoch(slot);
        let leader_schedule_epoch = self.epoch_schedule.get_leader_schedule_epoch(slot);
        self.clock = Clock { slot, epoch_start_timestamp: 0, epoch, leader_schedule_epoch, unix_timestamp: 0 };
        if slot_delta > SLOT_HASHES_MAX_ENTRIES {
            let final_hash_slot = slot - SLOT_HASHES_MAX_ENTRIES;
            let zero = [0u8; 32];
            proof {
                assert(zero@ =~= zero_hash());
            }
            let mut entries: Vec<(u64, [u8; 32])> = Vec::new();
            let mut s: u64 = slot;
            while s > final_hash_slot
                invariant
                    final_hash_slot <= s <= slot,
                    slot - final_hash_slot == 512,
                    zero@ == zero_hash(),
                    entries@.len() == slot - s,
                    forall|j: int| 0 <= j < entries@.len() ==> (#[trigger] entries@[j]).0 == (slot - 1 - j) as u64 && entries@[j].1@ == zero_hash(),
                decreases s - final_hash_slot,
            {
                s = s - 1;
                entries.push((s, zero));
            }
            let ghost ev = entries@.map_values(|e: (u64, [u8; 32])| (e.0, e.1@));
            proof {
                assert(ev =~= Seq::new(512, |i: int| ((slot - 1 - i) as u64, zero_hash())));
            }
            self.slot_hashes = slot_hashes_new(&entries);
        } else {
            let ghost old_entries = self.slot_hash_entries();
            let ghost c0 = self.clock;
            let ghost e0 = self.epoch_schedule;
            let ghost r0 = self.rent;
            let ghost l0 = self.last_restart_slot;
            let ghost er0 = self.epoch_rewards_data@;
            let ghost sh0 = self.stake_history_data@;
            let ghost rb0 = self.recent_blockhashes_data@;
            let first = slot_hashes_first_slot(&self.slot_hashes);
            let start: u64 = match first {
                Some(f) => f,
                None => 0,
            };
            let zero = [0u8; 32];
            proof {
                assert(zero@ =~= zero_hash());
                lemma_slots_added_start(old_entries, slot);
                if old_entries.len() > 0 {
                    assert(descending_slots(old_entries[0].0 + 1, start as int) =~= Seq::<(u64, Seq<u8>)>::empty());
                    assert(slots_added_upto(old_entries, start as int) =~= old_entries);
                } else {
                    assert(slots_added_upto(old_entries, 0) =~= Seq::<(u64, Seq<u8>)>::empty());
                }
                assert(old_entries.is_prefix_of(slots_added_upto(old_entries, start as int)));
            }
            let mut s: u64 = start;
            while s < slot
                invariant
                    start <= s <= slot || (slot <= start && s == start),
                    slots_descending(self.slot_hash_entries()),
                    all_zero_hashes(self.slot_hash_entries()),
                    zero@ == zero_hash(),
                    self.slot_hash_entries().is_prefix_of(slots_added_upto(old_entries, s as int)),
                    slots_added_upto(old_entries, slot as int) == slots_added(old_entries, slot),
                    old_entries.len() > 0 ==> start == old_entries[0].0,
                    old_entries.len() == 0 ==> start == 0,
                    s == start ==> self.slot_hash_entries() == old_entries,
                    slots_descending(old_entries),
                    all_zero_hashes(old_entries),
                    self.clock == c0,
                    self.epoch_schedule == e0,
                    self.rent == r0,
                    self.last_restart_slot == l0,
                    self.epoch_rewards_data@ == er0,
                    self.stake_history_data@ == sh0,
                    self.recent_blockhashes_data@ == rb0,
                decreases slot - s,
            {
                let ghost before = self.slot_hash_entries();
                slot_hashes_add(&mut self.slot_hashes, s, &zero);
                proof {
                    lemma_add_step(old_entries, before, self.slot_hash_entries(), start, s);
                }
                s = s + 1;
            }
        }
    }
}

/// The slots from `lo` up to `hi - 1`, newest first, each with the default hash.
pub open spec fn descending_slots(lo: int, hi: int) -> Seq<(u64, Seq<u8>)> {
    Seq::new(if hi > lo { (hi - lo) as nat } else { 0 }, |i: int| ((hi - 1 - i) as u64, zero_hash()))
}

/// Whether `after` is `before` moved to `slot`: the clock's slot, epoch and
/// leader-schedule epoch follow from the schedule and its timestamps go back
/// to zero; the other sysvars stay. Slot hashes: after a jump of more than
/// 512 slots they are the 512 slots before `slot`, newest first; otherwise
/// they are a prefix of the held ones with each slot from the newest held up
/// to `slot - 1` added, and unchanged when `slot` is not past the newest held.
pub open spec fn warped_to(before: Sysvars, after: Sysvars, slot: u64) -> bool {
    &&& after.clock == (Clock {
        slot,
        epoch_start_timestamp: 0,
        epoch: before.epoch_schedule.epoch_of(slot),
        leader_schedule_epoch: before.epoch_schedule.leader_schedule_epoch_of(slot),
        unix_timestamp: 0,
    })
    &&& after.epoch_schedule == before.epoch_schedule
    &&& after.rent == before.rent
    &&& after.last_restart_slot == before.last_restart_slot
    &&& after.epoch_rewards_data@ == before.epoch_rewards_data@
    &&& after.stake_history_data@ == before.stake_history_data@
    &&& after.recent_blockhashes_data@ == before.recent_blockhashes_data@
    &&& slot > before.clock.slot && slot - before.clock.slot > 512 ==> after.slot_hash_entries() == Seq::new(
        512,
        |i: int| ((slot - 1 - i) as u64, zero_hash()),
    )
    &&& !(slot > before.clock.slot && slot - before.clock.slot > 512) ==> after.slot_hash_entries().is_prefix_of(
        slots_added(before.slot_hash_entries(), slot),
    )
    &&& !(slot > before.clock.slot && slot - before.clock.slot > 512) && slot <= newest_slot(before.slot_hash_entries())
        ==> after.slot_hash_entries() == before.slot_hash_entries()
}

/// The slot of the newest entry held, or 0 when none is.
pub open spec fn newest_slot(e: Seq<(u64, Seq<u8>)>) -> int {
    if e.len() == 0 {
        0
    } else {
        e[0].0 as int
    }
}

/// The entries `old` (newest first) with the slots from the newest one held
/// (or from 0 when none is held) up to `upto - 1` added in front.
pub open spec fn slots_added_upto(old: Seq<(u64, Seq<u8>)>, upto: int) -> Seq<(u64, Seq<u8>)> {
    if old.len() == 0 {
        descending_slots(0, upto)
    } else {
        descending_slots(old[0].0 + 1, upto) + old
    }
}

/// The entries `old` with each slot up to `slot - 1` added, as many as the
/// entry limit keeps counted from the front.
pub open spec fn slots_added(old: Seq<(u64, Seq<u8>)>, slot: u64) -> Seq<(u64, Seq<u8>)> {
    slots_added_upto(old, slot as int)
}

proof fn lemma_slots_added_start(old: Seq<(u64, Seq<u8>)>, slot: u64)
    ensures
        slots_added_upto(old, slot as int) == slots_added(old, slot),
{
}

proof fn lemma_prefix_trans(a: Seq<(u64, Seq<u8>)>, b: Seq<(u64, Seq<u8>)>, c: Seq<(u64, Seq<u8>)>)
    requires
        a.is_prefix_of(b),
        b.is_prefix_of(c),
    ensures
        a.is_prefix_of(c),
{
    assert(a =~= c.subrange(0, a.len() as int));
}

proof fn lemma_prefix_cons(x: (u64, Seq<u8>), a: Seq<(u64, Seq<u8>)>, b: Seq<(u64, Seq<u8>)>)
    requires
        a.is_prefix_of(b),
    ensures
        (seq![x] + a).is_prefix_of(seq![x] + b),
{
    assert(seq![x] + a =~= (seq![x] + b).subrange(0, a.len() + 1 as int));
}

/// One step of adding slots: adding slot `s` to entries that are a prefix of
/// the old entries with the slots before `s` added keeps them a prefix of the
/// old entries with the slots up to `s` added.
proof fn lemma_add_step(
    old: Seq<(u64, Seq<u8>)>,
    before: Seq<(u64, Seq<u8>)>,
    after: Seq<(u64, Seq<u8>)>,
    start: u64,
    s: u64,
)
    requires
        slots_descending(old),
        all_zero_hashes(old),
        slots_descending(before),
        all_zero_hashes(before),
        before.is_prefix_of(slots_added_upto(old, s as int)),
        slot_hash_added(before, after, s, zero_hash()),
        old.len() > 0 ==> start == old[0].0,
        old.len() == 0 ==> start == 0,
        start <= s,
    ensures
        slots_descending(after),
        all_zero_hashes(after),
        after.is_prefix_of(slots_added_upto(old, s + 1)),
{
    let x = (s, zero_hash());
    let target = slots_added_upto(old, s + 1);
    let inserted = choose|inserted: Seq<(u64, Seq<u8>)>| {
        &&& #[trigger] after.is_prefix_of(inserted)
        &&& if exists|i: int| 0 <= i < before.len() && before[i].0 == s {
            exists|i: int| 0 <= i < before.len() && before[i].0 == s && inserted == before.update(i, (s, zero_hash()))
        } else {
            exists|k: int| {
                &&& 0 <= k <= before.len()
                &&& (forall|j: int| 0 <= j < k ==> before[j].0 > s)
                &&& (forall|j: int| k <= j < before.len() ==> before[j].0 < s)
                &&& inserted == before.take(k) + seq![(s, zero_hash())] + before.skip(k)
            }
        }
    };
    let prev = slots_added_upto(old, s as int);
    // Every slot held before `s` is added is at most the newest one.
    assert forall|j: int| 0 <= j < before.len() implies #[trigger] before[j].0 <= (if s > start { s - 1 } else { s as int }) by {
        assert(before[j] == prev[j]);
        if old.len() == 0 {
        } else {
            let lo = old[0].0 + 1;
            let d = descending_slots(lo, s as int);
            if j < d.len() {
                assert(prev[j] == d[j]);
            } else {
                assert(prev[j] == old[j - d.len()]);
                if j - d.len() > 0 {
                    assert(old[0].0 >= old[j - d.len()].0);
                }
            }
        }
    }
    if exists|i: int| 0 <= i < before.len() && before[i].0 == s {
        let i = choose|i: int| 0 <= i < before.len() && before[i].0 == s && inserted == before.update(i, (s, zero_hash()));
        assert(before[i].1 == zero_hash());
        assert(inserted =~= before);
        // `s` is held, so `s == start` and the old entries are not empty.
        assert(s == start);
        assert(old.len() > 0);
        assert(descending_slots(old[0].0 + 1, s as int) =~= Seq::<(u64, Seq<u8>)>::empty());
        assert(descending_slots(old[0].0 + 1, s + 1) =~= Seq::<(u64, Seq<u8>)>::empty());
        assert(prev =~= old);
        assert(target =~= old);
        lemma_prefix_trans(after, before, target);
    } else {
        let k = choose|k: int| {
            &&& 0 <= k <= before.len()
            &&& (forall|j: int| 0 <= j < k ==> before[j].0 > s)
            &&& (forall|j: int| k <= j < before.len() ==> before[j].0 < s)
            &&& inserted == before.take(k) + seq![(s, zero_hash())] + before.skip(k)
        };
        if k > 0 {
            assert(before[0].0 > s);
            assert(false);
        }
        assert(inserted =~= seq![x] + before);
        // Adding `s` puts it in front of what was there.
        let lo = if old.len() == 0 { 0int } else { old[0].0 + 1 };
        if s as int >= lo {
            assert(descending_slots(lo, s + 1) =~= seq![x] + descending_slots(lo, s as int));
            if old.len() == 0 {
                assert(target =~= seq![x] + prev);
            } else {
                assert(target =~= seq![x] + prev);
            }
            lemma_prefix_cons(x, before, prev);
            lemma_prefix_trans(after, inserted, target);
        } else {
            // `s == start` is the newest old slot, which `before` does not hold,
            // so `before` is empty.
            assert(old.len() > 0);
            assert(s == start);
            assert(prev =~= old);
            assert(before.len() == 0) by {
                if before.len() > 0 {
                    assert(before[0] == old[0]);
                }
            }
            assert(target =~= old);
            assert(old[0] == x);
            assert(inserted =~= seq![x]);
            assert(inserted =~= target.subrange(0, 1));
            lemma_prefix_trans(after, inserted, target);
        }
        assert forall|a: int, b: int| 0 <= a < b < inserted.len() implies #[trigger] inserted[a].0 >= #[trigger] inserted[b].0 by {
            if a > 0 {
                assert(inserted[a] == before[a - 1]);
                assert(inserted[b] == before[b - 1]);
            } else {
                assert(inserted[b] == before[b - 1]);
            }
        }
        assert forall|a: int| 0 <= a < inserted.len() implies (#[trigger] inserted[a]).1 == zero_hash() by {
            if a > 0 {
                assert(inserted[a] == before[a - 1]);
            }
        }
    }
    assert forall|a: int, b: int| 0 <= a < b < after.len() implies #[trigger] after[a].0 >= #[trigger] after[b].0 by {
        assert(after[a] == inserted[a]);
        assert(after[b] == inserted[b]);
    }
    assert forall|a: int| 0 <= a < after.len() implies (#[trigger] after[a]).1 == zero_hash() by {
        assert(after[a] == inserted[a]);
    }
}

} // verus!
