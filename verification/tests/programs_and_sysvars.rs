#![allow(deprecated)]
use quasar_svm::ids;
use quasar_svm::loader_keys::{LOADER_V1, LOADER_V2, LOADER_V3, LOADER_V4, NATIVE_LOADER};
use quasar_svm::program_cache::{programdata_address_of, ProgramCache};
use quasar_svm::pubkey::Pubkey;
use quasar_svm::rent::Rent;
use quasar_svm::sysvars::{EpochSchedule, Sysvars};
use solana_sdk_ids as sdk;

fn pk(b: [u8; 32]) -> Pubkey {
    Pubkey::new_from_array(b)
}

#[test]
fn well_known_addresses_match_the_sdk() {
    assert_eq!(LOADER_V1, sdk::bpf_loader_deprecated::ID.to_bytes());
    assert_eq!(LOADER_V2, sdk::bpf_loader::ID.to_bytes());
    assert_eq!(LOADER_V3, sdk::bpf_loader_upgradeable::ID.to_bytes());
    assert_eq!(LOADER_V4, sdk::loader_v4::ID.to_bytes());
    assert_eq!(NATIVE_LOADER, sdk::native_loader::ID.to_bytes());
    assert_eq!(ids::SYSTEM_PROGRAM_ID, sdk::system_program::ID.to_bytes());
    assert_eq!(ids::SYSVAR_PROGRAM_ID, sdk::sysvar::ID.to_bytes());
    assert_eq!(ids::INSTRUCTIONS_SYSVAR_ID, sdk::sysvar::instructions::ID.to_bytes());
    assert_eq!(ids::CLOCK_SYSVAR_ID, sdk::sysvar::clock::ID.to_bytes());
    assert_eq!(ids::EPOCH_REWARDS_SYSVAR_ID, sdk::sysvar::epoch_rewards::ID.to_bytes());
    assert_eq!(ids::EPOCH_SCHEDULE_SYSVAR_ID, sdk::sysvar::epoch_schedule::ID.to_bytes());
    assert_eq!(ids::LAST_RESTART_SLOT_SYSVAR_ID, sdk::sysvar::last_restart_slot::ID.to_bytes());
    assert_eq!(ids::RENT_SYSVAR_ID, sdk::sysvar::rent::ID.to_bytes());
    assert_eq!(ids::SLOT_HASHES_SYSVAR_ID, sdk::sysvar::slot_hashes::ID.to_bytes());
    assert_eq!(ids::STAKE_HISTORY_SYSVAR_ID, sdk::sysvar::stake_history::ID.to_bytes());
    assert_eq!(ids::RECENT_BLOCKHASHES_SYSVAR_ID, sdk::sysvar::recent_blockhashes::ID.to_bytes());
    assert_eq!(ids::SPL_TOKEN_PROGRAM_ID, spl_token::ID.to_bytes());
    assert_eq!(
        solana_pubkey::Pubkey::new_from_array(ids::SPL_TOKEN_2022_PROGRAM_ID).to_string(),
        "TokenzQdBNbLqP5VEhdkAS6EPFLC1PHnBqCXEpPxuEb"
    );
    assert_eq!(
        solana_pubkey::Pubkey::new_from_array(ids::SPL_ASSOCIATED_TOKEN_PROGRAM_ID).to_string(),
        "ATokenGPvbdGVxr1b2hvZbsiqW5xWH25efTNsLJA8knL"
    );
}

#[test]
fn default_rent_matches_the_sdk() {
    let rent = Rent::default_rent();
    let real = solana_rent::Rent::default();
    assert_eq!(rent.lamports_per_byte_year, real.lamports_per_byte_year);
    assert_eq!(rent.burn_percent, real.burn_percent);
    for n in [0usize, 1, 7, 36, 82, 165, 10_000, 1 << 20] {
        assert_eq!(rent.minimum_balance(n), real.minimum_balance(n));
    }
    assert_eq!(rent.minimum_balance(0), 890_880);
    assert_eq!(rent.to_bytes(), bincode::serialize(&real).unwrap());
}

#[test]
fn custom_rent_uses_its_threshold() {
    let rent = Rent { lamports_per_byte_year: 1000, exemption_threshold_bits: 1.5f64.to_bits(), burn_percent: 10 };
    assert_eq!(rent.minimum_balance(72), 300_000);
}

#[test]
fn builtin_programs_are_native() {
    let cache = ProgramCache::new();
    let accts = cache.maybe_create_program_accounts(&pk(ids::SYSTEM_PROGRAM_ID));
    assert_eq!(accts.len(), 1);
    assert_eq!(accts[0].address.bytes, ids::SYSTEM_PROGRAM_ID);
    assert_eq!(accts[0].data, b"builtin".to_vec());
    assert_eq!(accts[0].owner.bytes, NATIVE_LOADER);
    assert!(accts[0].executable);
    assert_eq!(accts[0].lamports, solana_rent::Rent::default().minimum_balance(7));
    assert!(cache.maybe_create_program_accounts(&pk([9; 32])).is_empty());
}

#[test]
fn v2_program_has_one_empty_executable_account() {
    let mut cache = ProgramCache::new();
    let id = pk([3; 32]);
    cache.add_program(&id, &pk(LOADER_V2), &[1, 2, 3]);
    let accts = cache.maybe_create_program_accounts(&id);
    assert_eq!(accts.len(), 1);
    assert!(accts[0].data.is_empty());
    assert_eq!(accts[0].owner.bytes, LOADER_V2);
    assert!(accts[0].executable);
    assert_eq!(accts[0].lamports, solana_rent::Rent::default().minimum_balance(0));
}

#[test]
fn upgradeable_program_has_program_and_programdata_accounts() {
    let mut cache = ProgramCache::new();
    let id = pk([4; 32]);
    let elf = vec![0x7f, b'E', b'L', b'F', 1, 2, 3];
    cache.add_program(&id, &pk(LOADER_V3), &elf);
    let accts = cache.maybe_create_program_accounts(&id);
    assert_eq!(accts.len(), 2);
    let real_id = solana_pubkey::Pubkey::new_from_array([4; 32]);
    let (pda, _) = solana_pubkey::Pubkey::find_program_address(&[real_id.as_ref()], &sdk::bpf_loader_upgradeable::ID);
    assert_eq!(programdata_address_of(&id).unwrap().bytes, pda.to_bytes());
    let program_data = bincode::serialize(&solana_loader_v3_interface::state::UpgradeableLoaderState::Program {
        programdata_address: pda,
    })
    .unwrap();
    assert_eq!(accts[0].data, program_data);
    assert!(accts[0].executable);
    assert_eq!(accts[0].owner.bytes, LOADER_V3);
    assert_eq!(accts[0].lamports, solana_rent::Rent::default().minimum_balance(36));
    let mut header = bincode::serialize(&solana_loader_v3_interface::state::UpgradeableLoaderState::ProgramData {
        slot: 0,
        upgrade_authority_address: None,
    })
    .unwrap();
    header.extend_from_slice(&elf);
    assert_eq!(accts[1].address.bytes, pda.to_bytes());
    assert_eq!(accts[1].data, header);
    assert!(!accts[1].executable);
    assert_eq!(accts[1].lamports, solana_rent::Rent::default().minimum_balance(13 + elf.len()));
    assert!(cache.try_create_program_accounts(&id).is_some());
}

#[test]
fn other_loaders_get_a_stub() {
    let mut cache = ProgramCache::new();
    let id = pk([5; 32]);
    cache.add_program(&id, &pk(LOADER_V4), &[]);
    let accts = cache.maybe_create_program_accounts(&id);
    assert_eq!(accts.len(), 1);
    assert_eq!(accts[0].lamports, 0);
    assert!(accts[0].data.is_empty());
    assert_eq!(accts[0].owner.bytes, [0; 32]);
    assert!(accts[0].executable);
}

#[test]
fn re_adding_replaces_the_program() {
    let mut cache = ProgramCache::new();
    let id = pk([6; 32]);
    cache.add_program(&id, &pk(LOADER_V3), &[1]);
    cache.add_program(&id, &pk(LOADER_V2), &[2]);
    assert_eq!(cache.entries.iter().filter(|e| e.program_id.bytes == [6; 32]).count(), 1);
    assert_eq!(cache.maybe_create_program_accounts(&id).len(), 1);
}

#[test]
fn initial_sysvars_serialize_like_the_sdk() {
    let s = Sysvars::new();
    let data = |id: [u8; 32]| s.sysvar_data_of(&pk(id)).unwrap();
    assert_eq!(data(ids::CLOCK_SYSVAR_ID), bincode::serialize(&solana_clock::Clock::default()).unwrap());
    assert_eq!(
        data(ids::EPOCH_SCHEDULE_SYSVAR_ID),
        bincode::serialize(&solana_epoch_schedule::EpochSchedule::without_warmup()).unwrap()
    );
    assert_eq!(data(ids::RENT_SYSVAR_ID), bincode::serialize(&solana_rent::Rent::default()).unwrap());
    assert_eq!(
        data(ids::EPOCH_REWARDS_SYSVAR_ID),
        bincode::serialize(&solana_epoch_rewards::EpochRewards::default()).unwrap()
    );
    assert_eq!(data(ids::LAST_RESTART_SLOT_SYSVAR_ID), vec![0u8; 8]);
    let mut history = solana_stake_interface::stake_history::StakeHistory::default();
    history.add(0, solana_stake_interface::stake_history::StakeHistoryEntry::default());
    assert_eq!(data(ids::STAKE_HISTORY_SYSVAR_ID), bincode::serialize(&history).unwrap());
    assert_eq!(
        data(ids::RECENT_BLOCKHASHES_SYSVAR_ID),
        bincode::serialize(&solana_sysvar::recent_blockhashes::RecentBlockhashes::default()).unwrap()
    );
    let hashes = solana_slot_hashes::SlotHashes::new(&vec![(0, solana_hash::Hash::default()); 512]);
    assert_eq!(data(ids::SLOT_HASHES_SYSVAR_ID), bincode::serialize(&hashes).unwrap());
    assert!(s.sysvar_data_of(&pk([1; 32])).is_none());
}

#[test]
fn sysvar_accounts_are_rent_exempt_and_owned_by_the_sysvar_program() {
    let s = Sysvars::new();
    let a = s.maybe_create_sysvar_account(&pk(ids::CLOCK_SYSVAR_ID)).unwrap();
    assert_eq!(a.data.len(), 40);
    assert_eq!(a.lamports, solana_rent::Rent::default().minimum_balance(40));
    assert_eq!(a.owner.bytes, ids::SYSVAR_PROGRAM_ID);
    assert!(!a.executable);
    assert!(s.maybe_create_sysvar_account(&pk([2; 32])).is_none());
}

#[test]
fn warp_to_slot_moves_clock_and_slot_hashes() {
    let mut s = Sysvars::new();
    s.warp_to_slot(200);
    assert_eq!(s.clock.slot, 200);
    assert_eq!(s.clock.epoch, 0);
    assert_eq!(s.clock.leader_schedule_epoch, 1);
    assert_eq!(s.clock.unix_timestamp, 0);
    assert_eq!(s.slot_hashes.len(), 512);
    assert_eq!(s.slot_hashes[0].0, 199);
    assert_eq!(s.slot_hashes[198].0, 1);
    assert_eq!(s.slot_hashes[199].0, 0);
    s.warp_to_slot(1_000_000);
    assert_eq!(s.clock.epoch, 2);
    assert_eq!(s.slot_hashes.len(), 512);
    assert_eq!(s.slot_hashes[0].0, 999_999);
    assert_eq!(s.slot_hashes[511].0, 999_488);
}

#[test]
fn epoch_schedule_matches_the_sdk_with_warmup() {
    let real = solana_epoch_schedule::EpochSchedule::new(8192);
    let mine = EpochSchedule {
        slots_per_epoch: real.slots_per_epoch,
        leader_schedule_slot_offset: real.leader_schedule_slot_offset,
        warmup: real.warmup,
        first_normal_epoch: real.first_normal_epoch,
        first_normal_slot: real.first_normal_slot,
    };
    for slot in [0u64, 1, 31, 32, 100, 8000, 8160, 9000, 1 << 30] {
        assert_eq!(mine.get_epoch(slot), real.get_epoch(slot));
        assert_eq!(mine.get_leader_schedule_epoch(slot), real.get_leader_schedule_epoch(slot));
    }
    let nw = EpochSchedule::without_warmup();
    assert_eq!(nw.slots_per_epoch, 432_000);
    assert_eq!(nw.get_epoch(432_000), 1);
}
