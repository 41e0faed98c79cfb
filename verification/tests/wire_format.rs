use quasar_svm::account::{Account, AccountMeta, Instruction};
use quasar_svm::error::{InstructionError, RuntimeProgramError};
use quasar_svm::pubkey::Pubkey;
use quasar_svm::svm::{ExecutionResult, ExecutionTrace};
use quasar_svm::wire::{
    deserialize_accounts, deserialize_instruction, deserialize_instructions, error_message,
    program_error_to_i32, serialize_result, Reader, Writer,
};

fn key(b: u8) -> [u8; 32] {
    [b; 32]
}

fn encode_instruction(program_id: [u8; 32], data: &[u8], metas: &[([u8; 32], u8, u8)]) -> Vec<u8> {
    let mut out = Vec::new();
    out.extend_from_slice(&program_id);
    out.extend_from_slice(&(data.len() as u32).to_le_bytes());
    out.extend_from_slice(data);
    out.extend_from_slice(&(metas.len() as u32).to_le_bytes());
    for (k, s, w) in metas {
        out.extend_from_slice(k);
        out.push(*s);
        out.push(*w);
    }
    out
}

fn encode_account(address: [u8; 32], owner: [u8; 32], lamports: u64, data: &[u8], executable: u8) -> Vec<u8> {
    let mut out = Vec::new();
    out.extend_from_slice(&address);
    out.extend_from_slice(&owner);
    out.extend_from_slice(&lamports.to_le_bytes());
    out.extend_from_slice(&(data.len() as u32).to_le_bytes());
    out.extend_from_slice(data);
    out.push(executable);
    out
}

#[test]
fn deserialize_instruction_reads_every_field() {
    let bytes = encode_instruction(key(7), &[1, 2, 3], &[(key(8), 1, 0), (key(9), 0, 1)]);
    let ix = deserialize_instruction(&bytes).unwrap();
    assert_eq!(ix.program_id.bytes, key(7));
    assert_eq!(ix.data, vec![1, 2, 3]);
    assert_eq!(ix.accounts.len(), 2);
    assert_eq!(ix.accounts[0].pubkey.bytes, key(8));
    assert!(ix.accounts[0].is_signer);
    assert!(!ix.accounts[0].is_writable);
    assert_eq!(ix.accounts[1].pubkey.bytes, key(9));
    assert!(!ix.accounts[1].is_signer);
    assert!(ix.accounts[1].is_writable);
}

#[test]
fn deserialize_instruction_any_nonzero_flag_is_true() {
    let bytes = encode_instruction(key(1), &[], &[(key(2), 2, 255)]);
    let ix = deserialize_instruction(&bytes).unwrap();
    assert!(ix.accounts[0].is_signer);
    assert!(ix.accounts[0].is_writable);
}

#[test]
fn deserialize_instruction_reports_short_input() {
    let bytes = encode_instruction(key(1), &[5, 6], &[(key(2), 1, 1)]);
    for cut in 0..bytes.len() {
        assert_eq!(deserialize_instruction(&bytes[..cut]).err(), Some("unexpected end of input"));
    }
}

#[test]
fn deserialize_instruction_reports_trailing_bytes() {
    let mut bytes = encode_instruction(key(1), &[], &[]);
    bytes.push(0);
    assert_eq!(deserialize_instruction(&bytes).err(), Some("trailing data after instruction"));
}

#[test]
fn deserialize_instructions_reads_a_counted_list() {
    let mut bytes = 2u32.to_le_bytes().to_vec();
    bytes.extend(encode_instruction(key(1), &[9], &[]));
    bytes.extend(encode_instruction(key(2), &[], &[(key(3), 0, 0)]));
    let ixs = deserialize_instructions(&bytes).unwrap();
    assert_eq!(ixs.len(), 2);
    assert_eq!(ixs[0].program_id.bytes, key(1));
    assert_eq!(ixs[0].data, vec![9]);
    assert_eq!(ixs[1].accounts[0].pubkey.bytes, key(3));
    bytes.push(1);
    assert_eq!(deserialize_instructions(&bytes).err(), Some("trailing data after instructions"));
    assert_eq!(deserialize_instructions(&[1, 0]).err(), Some("unexpected end of input"));
    assert_eq!(deserialize_instructions(&[3, 0, 0, 0]).err(), Some("unexpected end of input"));
    assert_eq!(deserialize_instructions(&[0, 0, 0, 0]).unwrap().len(), 0);
}

#[test]
fn deserialize_accounts_reads_a_counted_list() {
    let mut bytes = 2u32.to_le_bytes().to_vec();
    bytes.extend(encode_account(key(1), key(2), 1_000_000_007, &[4, 5], 1));
    bytes.extend(encode_account(key(3), key(4), u64::MAX, &[], 0));
    let accts = deserialize_accounts(&bytes).unwrap();
    assert_eq!(accts.len(), 2);
    assert_eq!(accts[0].address.bytes, key(1));
    assert_eq!(accts[0].owner.bytes, key(2));
    assert_eq!(accts[0].lamports, 1_000_000_007);
    assert_eq!(accts[0].data, vec![4, 5]);
    assert!(accts[0].executable);
    assert_eq!(accts[1].lamports, u64::MAX);
    assert!(!accts[1].executable);
    bytes.push(0);
    assert_eq!(deserialize_accounts(&bytes).err(), Some("trailing data after accounts"));
    bytes.truncate(bytes.len() - 2);
    assert_eq!(deserialize_accounts(&bytes).err(), Some("unexpected end of input"));
}

#[test]
fn reader_and_writer_agree_on_integers() {
    let mut w = Writer::new();
    w.write_u32(0xdead_beef);
    w.write_u64(0x0123_4567_89ab_cdef);
    w.write_i32(-2);
    w.write_bool(true);
    w.write_length_prefixed(&[7, 8]);
    let bytes = w.into_boxed_slice();
    assert_eq!(&bytes[..4], &0xdead_beefu32.to_le_bytes());
    let mut r = Reader::new(&bytes);
    assert_eq!(r.read_u32(), Ok(0xdead_beef));
    assert_eq!(r.read_u64(), Ok(0x0123_4567_89ab_cdef));
    assert_eq!(r.read_u32(), Ok((-2i32) as u32));
    assert_eq!(r.read_bool(), Ok(true));
    assert_eq!(r.read_u32(), Ok(2));
    assert_eq!(r.remaining(), 2);
    assert_eq!(r.read_bytes(3).err(), Some("unexpected end of input"));
    assert_eq!(r.remaining(), 2);
    assert_eq!(r.read_u8(), Ok(7));
    assert_eq!(r.read_u8(), Ok(8));
    assert_eq!(r.read_u8(), Err("unexpected end of input"));
}

#[test]
fn reader_reads_a_pubkey() {
    let mut bytes = key(42).to_vec();
    bytes.push(1);
    let mut r = Reader::new(&bytes);
    assert_eq!(r.read_pubkey().unwrap().bytes, key(42));
    assert_eq!(r.remaining(), 1);
    assert!(r.read_pubkey().is_err());
}

fn result_with(raw: Result<(), InstructionError>) -> ExecutionResult {
    ExecutionResult {
        compute_units_consumed: 150,
        execution_time_us: 9,
        raw_result: raw,
        return_data: vec![1, 2],
        accounts: vec![Account {
            address: Pubkey::new_from_array(key(5)),
            lamports: 77,
            data: vec![3],
            owner: Pubkey::new_from_array(key(6)),
            executable: true,
        }],
        logs: vec![],
        pre_balances: vec![],
        post_balances: vec![],
        pre_token_balances: vec![],
        post_token_balances: vec![],
        inner_instructions: vec![],
        execution_trace: ExecutionTrace { instructions: vec![] },
    }
}

fn expected_result_bytes(status: i32, message: Option<&str>, logs: &[&str]) -> Vec<u8> {
    let mut out = Vec::new();
    out.extend_from_slice(&status.to_le_bytes());
    out.extend_from_slice(&150u64.to_le_bytes());
    out.extend_from_slice(&9u64.to_le_bytes());
    out.extend_from_slice(&2u32.to_le_bytes());
    out.extend_from_slice(&[1, 2]);
    out.extend_from_slice(&1u32.to_le_bytes());
    out.extend(encode_account(key(5), key(6), 77, &[3], 1));
    out.extend_from_slice(&(logs.len() as u32).to_le_bytes());
    for l in logs {
        out.extend_from_slice(&(l.len() as u32).to_le_bytes());
        out.extend_from_slice(l.as_bytes());
    }
    match message {
        Some(m) => {
            out.extend_from_slice(&(m.len() as u32).to_le_bytes());
            out.extend_from_slice(m.as_bytes());
        }
        None => out.extend_from_slice(&0u32.to_le_bytes()),
    }
    out
}

#[test]
fn serialize_result_success_layout() {
    let bytes = serialize_result(&result_with(Ok(())), vec!["Program log: hi".to_string(), "é".to_string()]);
    assert_eq!(bytes.to_vec(), expected_result_bytes(0, None, &["Program log: hi", "é"]));
}

#[test]
fn serialize_result_custom_error() {
    let bytes = serialize_result(&result_with(Err(InstructionError::Custom(6001))), vec![]);
    assert_eq!(bytes.to_vec(), expected_result_bytes(6001, Some("Custom(6001)"), &[]));
}

#[test]
fn serialize_result_builtin_and_runtime_errors() {
    let bytes = serialize_result(&result_with(Err(InstructionError::InsufficientFunds)), vec![]);
    assert_eq!(bytes.to_vec(), expected_result_bytes(-6, Some("InsufficientFunds"), &[]));
    let bytes = serialize_result(&result_with(Err(InstructionError::MissingAccount)), vec![]);
    assert_eq!(bytes.to_vec(), expected_result_bytes(-11, Some("MissingAccount"), &[]));
    let bytes = serialize_result(&result_with(Err(InstructionError::ComputationalBudgetExceeded)), vec![]);
    assert_eq!(bytes.to_vec(), expected_result_bytes(-1, Some("ComputationalBudgetExceeded"), &[]));
}

#[test]
fn custom_codes_are_positive_and_builtin_codes_negative() {
    assert_eq!(program_error_to_i32(&RuntimeProgramError::Custom(1)), 1);
    assert_eq!(program_error_to_i32(&RuntimeProgramError::Custom(2_147_483_647)), i32::MAX);
    assert_eq!(program_error_to_i32(&RuntimeProgramError::Custom(u32::MAX)), i32::MAX);
    assert_eq!(program_error_to_i32(&RuntimeProgramError::IncorrectAuthority), -26);
    assert_eq!(program_error_to_i32(&RuntimeProgramError::InvalidArgument), -2);
}

#[test]
fn error_message_is_debug_text() {
    assert_eq!(error_message(&InstructionError::Custom(0)), b"Custom(0)".to_vec());
    assert_eq!(error_message(&InstructionError::Custom(4294967295)), b"Custom(4294967295)".to_vec());
    assert_eq!(error_message(&InstructionError::GenericError), b"GenericError".to_vec());
}

#[test]
fn meta_helpers_set_writability() {
    let m = AccountMeta::new(Pubkey::new_from_array(key(1)), true);
    assert!(m.is_writable && m.is_signer);
    let m = AccountMeta::new_readonly(Pubkey::new_from_array(key(1)), false);
    assert!(!m.is_writable && !m.is_signer);
    let ix = Instruction { program_id: Pubkey::new_from_array(key(2)), accounts: vec![m], data: vec![] };
    assert_eq!(ix.accounts.len(), 1);
}

#[test]
fn status_is_zero_only_for_success_and_custom_zero() {
    let ok = serialize_result(&result_with(Ok(())), vec![]);
    assert_eq!(&ok[0..4], &0i32.to_le_bytes());
    let custom_zero = serialize_result(&result_with(Err(InstructionError::Custom(0))), vec![]);
    assert_eq!(custom_zero.to_vec(), expected_result_bytes(0, Some("Custom(0)"), &[]));
    for e in [InstructionError::Custom(1), InstructionError::InvalidArgument, InstructionError::GenericError] {
        let bytes = serialize_result(&result_with(Err(e)), vec![]);
        assert_ne!(&bytes[0..4], &0i32.to_le_bytes());
    }
}

#[test]
fn a_single_account_serializes_as_a_list_entry() {
    let a = Account { address: quasar_svm::pubkey::Pubkey::new_from_array(key(1)), lamports: 7, data: vec![1, 2], owner: quasar_svm::pubkey::Pubkey::new_from_array(key(2)), executable: true };
    let bytes = quasar_svm::wire::serialize_account(&a).to_vec();
    assert_eq!(bytes, encode_account(key(1), key(2), 7, &[1, 2], 1));
    let mut list = 1u32.to_le_bytes().to_vec();
    list.extend_from_slice(&bytes);
    let back = deserialize_accounts(&list).unwrap();
    assert_eq!(back.len(), 1);
    assert_eq!(back[0].lamports, 7);
    assert_eq!(back[0].data, vec![1, 2]);
}

#[test]
fn reader_position_counts_only_successful_reads() {
    let data: Vec<u8> = (1..=10).collect();
    let mut r = Reader::new(&data);
    assert_eq!(r.read_u32().unwrap(), u32::from_le_bytes([1, 2, 3, 4]));
    assert_eq!(r.pos, 4);
    assert!(r.read_u64().is_err());
    assert_eq!(r.pos, 4);
    assert_eq!(r.read_u8().unwrap(), 5);
    assert_eq!(r.remaining(), 5);
    assert!(r.read_bytes(6).is_err());
    assert_eq!(r.read_bytes(5).unwrap(), &[6, 7, 8, 9, 10]);
    assert_eq!(r.remaining(), 0);
}
