use quasar_svm::account::{Account, AccountMeta, Instruction};
use quasar_svm::ids::{INSTRUCTIONS_SYSVAR_ID, SYSVAR_PROGRAM_ID};
use quasar_svm::message::{
    build_instructions_sysvar, collect_key_metas, collect_program_ids, compile_message,
    maybe_build_instructions_sysvar, message_fits,
};
use quasar_svm::pubkey::Pubkey;

fn pk(b: u8) -> Pubkey {
    Pubkey::new_from_array([b; 32])
}

fn meta(b: u8, is_signer: bool, is_writable: bool) -> AccountMeta {
    AccountMeta { pubkey: pk(b), is_signer, is_writable }
}

fn two_instructions() -> Vec<Instruction> {
    vec![
        Instruction {
            program_id: pk(9),
            accounts: vec![meta(1, true, true), meta(2, false, true), meta(3, false, false)],
            data: vec![7, 7],
        },
        Instruction {
            program_id: pk(8),
            accounts: vec![meta(4, true, false), meta(2, false, false), meta(1, false, false)],
            data: vec![],
        },
    ]
}

#[test]
fn key_metas_keep_first_appearance_and_merge_roles() {
    let metas = collect_key_metas(&two_instructions());
    let got: Vec<(u8, bool, bool)> =
        metas.iter().map(|m| (m.pubkey.bytes[0], m.is_signer, m.is_writable)).collect();
    assert_eq!(
        got,
        vec![(9, false, false), (1, true, true), (2, false, true), (3, false, false), (8, false, false), (4, true, false)]
    );
}

#[test]
fn compiled_message_orders_keys_by_role() {
    let m = compile_message(&two_instructions());
    let keys: Vec<u8> = m.account_keys.iter().map(|k| k.bytes[0]).collect();
    assert_eq!(keys, vec![1, 4, 2, 9, 3, 8]);
    assert_eq!(m.header.num_required_signatures, 2);
    assert_eq!(m.header.num_readonly_signed_accounts, 1);
    assert_eq!(m.header.num_readonly_unsigned_accounts, 3);
    assert_eq!(m.instructions.len(), 2);
    assert_eq!(m.instructions[0].program_id_index, 3);
    assert_eq!(m.instructions[0].accounts, vec![0, 2, 4]);
    assert_eq!(m.instructions[0].data, vec![7, 7]);
    assert_eq!(m.instructions[1].program_id_index, 5);
    assert_eq!(m.instructions[1].accounts, vec![1, 2, 0]);
    assert!(m.instructions[1].data.is_empty());
}

#[test]
fn compiled_keys_are_distinct_and_complete() {
    let ixs = two_instructions();
    let m = compile_message(&ixs);
    for (i, a) in m.account_keys.iter().enumerate() {
        for b in &m.account_keys[i + 1..] {
            assert_ne!(a.bytes, b.bytes);
        }
    }
    for ix in &ixs {
        assert!(m.account_keys.iter().any(|k| k.bytes == ix.program_id.bytes));
        for meta in &ix.accounts {
            assert!(m.account_keys.iter().any(|k| k.bytes == meta.pubkey.bytes));
        }
    }
}

#[test]
fn compiled_message_matches_the_sdk_layout() {
    let ixs = two_instructions();
    let m = compile_message(&ixs);
    let sdk_ixs: Vec<solana_instruction::Instruction> = ixs
        .iter()
        .map(|ix| solana_instruction::Instruction {
            program_id: solana_pubkey::Pubkey::new_from_array(ix.program_id.bytes),
            accounts: ix
                .accounts
                .iter()
                .map(|a| solana_instruction::AccountMeta {
                    pubkey: solana_pubkey::Pubkey::new_from_array(a.pubkey.bytes),
                    is_signer: a.is_signer,
                    is_writable: a.is_writable,
                })
                .collect(),
            data: ix.data.clone(),
        })
        .collect();
    let sdk = solana_message::Message::new(&sdk_ixs, None);
    assert_eq!(sdk.header.num_required_signatures, m.header.num_required_signatures);
    assert_eq!(sdk.header.num_readonly_signed_accounts, m.header.num_readonly_signed_accounts);
    assert_eq!(sdk.header.num_readonly_unsigned_accounts, m.header.num_readonly_unsigned_accounts);
    let mut ours: Vec<[u8; 32]> = m.account_keys.iter().map(|k| k.bytes).collect();
    let mut theirs: Vec<[u8; 32]> = sdk.account_keys.iter().map(|k| k.to_bytes()).collect();
    ours.sort();
    theirs.sort();
    assert_eq!(ours, theirs);
}

#[test]
fn empty_instruction_list_compiles_to_empty_message() {
    let m = compile_message(&vec![]);
    assert!(m.account_keys.is_empty());
    assert!(m.instructions.is_empty());
    assert_eq!(m.header.num_required_signatures, 0);
    assert!(message_fits(&vec![]));
}

#[test]
fn message_fits_counts_keys() {
    assert!(message_fits(&two_instructions()));
    let many: Vec<AccountMeta> = (0..=255u8).map(|b| meta(b, false, false)).collect();
    let ix = Instruction { program_id: Pubkey::new_from_array([1; 32]), accounts: many, data: vec![] };
    // 256 read-only keys no longer fit a count byte.
    assert!(!message_fits(&vec![ix]));
}

#[test]
fn program_ids_are_deduplicated_in_order() {
    let mut ixs = two_instructions();
    ixs.push(Instruction { program_id: pk(9), accounts: vec![], data: vec![] });
    let ids: Vec<u8> = collect_program_ids(&ixs).iter().map(|k| k.bytes[0]).collect();
    assert_eq!(ids, vec![9, 8]);
    assert!(collect_program_ids(&vec![]).is_empty());
}

#[test]
fn instructions_sysvar_matches_the_sdk() {
    let ixs = two_instructions();
    let acct = build_instructions_sysvar(&ixs);
    assert_eq!(acct.address.bytes, INSTRUCTIONS_SYSVAR_ID);
    assert_eq!(acct.owner.bytes, SYSVAR_PROGRAM_ID);
    assert_eq!(acct.lamports, 0);
    assert!(!acct.executable);
    let keys: Vec<Vec<solana_pubkey::Pubkey>> = ixs
        .iter()
        .map(|ix| ix.accounts.iter().map(|a| solana_pubkey::Pubkey::new_from_array(a.pubkey.bytes)).collect())
        .collect();
    let pids: Vec<solana_pubkey::Pubkey> =
        ixs.iter().map(|ix| solana_pubkey::Pubkey::new_from_array(ix.program_id.bytes)).collect();
    let borrowed: Vec<solana_instruction::BorrowedInstruction> = ixs
        .iter()
        .enumerate()
        .map(|(i, ix)| solana_instruction::BorrowedInstruction {
            program_id: &pids[i],
            accounts: ix
                .accounts
                .iter()
                .enumerate()
                .map(|(j, a)| solana_instruction::BorrowedAccountMeta {
                    pubkey: &keys[i][j],
                    is_signer: a.is_signer,
                    is_writable: a.is_writable,
                })
                .collect(),
            data: &ix.data,
        })
        .collect();
    let expected = solana_instructions_sysvar::construct_instructions_data(&borrowed);
    assert_eq!(acct.data, expected);
    assert_eq!(u16::from_le_bytes([acct.data[0], acct.data[1]]), 2);
}

#[test]
fn instructions_sysvar_is_not_built_twice() {
    let ixs = two_instructions();
    let none: Vec<Account> = vec![];
    assert!(maybe_build_instructions_sysvar(&ixs, &none).is_some());
    let present = vec![Account {
        address: Pubkey::new_from_array(INSTRUCTIONS_SYSVAR_ID),
        lamports: 1,
        data: vec![],
        owner: pk(0),
        executable: false,
    }];
    assert!(maybe_build_instructions_sysvar(&ixs, &present).is_none());
}

#[test]
fn instructions_sysvar_layout() {
    let ixs = two_instructions();
    let n = ixs.len();
    let mut bodies: Vec<Vec<u8>> = Vec::new();
    for ix in &ixs {
        let mut b = (ix.accounts.len() as u16).to_le_bytes().to_vec();
        for m in &ix.accounts {
            b.push((m.is_signer as u8) | ((m.is_writable as u8) << 1));
            b.extend_from_slice(&m.pubkey.bytes);
        }
        b.extend_from_slice(&ix.program_id.bytes);
        b.extend_from_slice(&(ix.data.len() as u16).to_le_bytes());
        b.extend_from_slice(&ix.data);
        bodies.push(b);
    }
    let mut expected = (n as u16).to_le_bytes().to_vec();
    let mut offset = 2 + 2 * n;
    for b in &bodies {
        expected.extend_from_slice(&(offset as u16).to_le_bytes());
        offset += b.len();
    }
    for b in &bodies {
        expected.extend_from_slice(b);
    }
    expected.extend_from_slice(&[0, 0]);
    assert_eq!(build_instructions_sysvar(&ixs).data, expected);
}
