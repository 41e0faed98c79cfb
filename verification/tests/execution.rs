use quasar_svm::account::{Account, AccountMeta, Instruction};
use quasar_svm::error::{InstructionError, ProgramError};
use quasar_svm::ids::{INSTRUCTIONS_SYSVAR_ID, SYSTEM_PROGRAM_ID};
use quasar_svm::loader_keys::NATIVE_LOADER;
use quasar_svm::pubkey::Pubkey;
use quasar_svm::svm::{
    deconstruct_resulting_accounts, extract_execution_trace, extract_token_balances, ExecutionProgress,
    ExecutionResult, ExecutionStatus, ExecutionTrace, QuasarSvm, RuntimeOutcome, TraceFrame,
};
use quasar_svm::token::{create_keyed_mint_account, create_keyed_token_account, AccountState, Mint, TokenAccount};

fn pk(b: u8) -> Pubkey {
    Pubkey::new_from_array([b; 32])
}

fn acct(b: u8, lamports: u64) -> Account {
    Account { address: pk(b), lamports, data: vec![], owner: Pubkey::new_from_array(SYSTEM_PROGRAM_ID), executable: false }
}

fn transfer_ix() -> Instruction {
    Instruction {
        program_id: Pubkey::new_from_array(SYSTEM_PROGRAM_ID),
        accounts: vec![
            AccountMeta { pubkey: pk(1), is_signer: true, is_writable: true },
            AccountMeta { pubkey: pk(2), is_signer: false, is_writable: true },
        ],
        data: vec![2, 0, 0, 0, 100, 0, 0, 0, 0, 0, 0, 0],
    }
}

fn frame(level: usize, program: usize, accounts: Vec<usize>) -> TraceFrame {
    TraceFrame { nesting_level: level, program_account_index: program, instruction_accounts: accounts }
}

fn result_with(raw: Result<(), InstructionError>, accounts: Vec<Account>) -> ExecutionResult {
    ExecutionResult {
        compute_units_consumed: 0,
        execution_time_us: 0,
        raw_result: raw,
        return_data: vec![],
        accounts,
        logs: vec![],
        pre_balances: vec![],
        post_balances: vec![],
        pre_token_balances: vec![],
        post_token_balances: vec![],
        inner_instructions: vec![],
        execution_trace: ExecutionTrace { instructions: vec![] },
    }
}

#[test]
fn transaction_accounts_follow_the_message_keys() {
    let svm = QuasarSvm::new();
    assert!(svm.check_rent_fits());
    let ixs = vec![transfer_ix()];
    let provided = vec![acct(1, 1_000)];
    let prepared = svm.prepare_execution(&ixs, &provided).unwrap();
    let keys: Vec<[u8; 32]> = prepared.account_keys.iter().map(|k| k.bytes).collect();
    assert_eq!(keys, vec![[1; 32], [2; 32], SYSTEM_PROGRAM_ID]);
    let txs = &prepared.transaction_accounts;
    assert_eq!(txs.len(), 4);
    assert_eq!(txs[0].lamports, 1_000);
    // An address nothing provides is an empty system account.
    assert_eq!(txs[1].address.bytes, [2; 32]);
    assert_eq!(txs[1].lamports, 0);
    assert_eq!(txs[1].owner.bytes, SYSTEM_PROGRAM_ID);
    // The builtin program stands for itself.
    assert_eq!(txs[2].owner.bytes, NATIVE_LOADER);
    assert!(txs[2].executable);
    assert_eq!(txs[2].data, b"builtin".to_vec());
    // The instructions sysvar comes last.
    assert_eq!(txs[3].address.bytes, INSTRUCTIONS_SYSVAR_ID);
    assert_eq!(prepared.merged.len(), 1);
}

#[test]
fn stored_accounts_join_the_transaction() {
    let mut svm = QuasarSvm::new();
    svm.set_account(acct(2, 55));
    let prepared = svm.prepare_execution(&vec![transfer_ix()], &vec![acct(1, 1_000)]).unwrap();
    assert_eq!(prepared.merged.len(), 2);
    assert_eq!(prepared.transaction_accounts[1].lamports, 55);
}

#[test]
fn unknown_programs_get_an_executable_stub() {
    let svm = QuasarSvm::new();
    let ix = Instruction { program_id: pk(77), accounts: vec![], data: vec![] };
    let accs = svm.compile_accounts(&vec![ix], &vec![]).unwrap();
    assert_eq!(accs.len(), 2);
    assert_eq!(accs[0].address.bytes, [77; 32]);
    assert!(accs[0].executable);
    assert_eq!(accs[0].lamports, 0);
}

#[test]
fn success_with_commit_stores_the_result() {
    let mut svm = QuasarSvm::new();
    let ixs = vec![transfer_ix()];
    let prepared = svm.prepare_execution(&ixs, &vec![acct(1, 1_000)]).unwrap();
    let after = vec![acct(1, 900), acct(2, 100)];
    let outcome = RuntimeOutcome {
        compute_units_consumed: 150,
        execution_time_us: 3,
        raw_result: Ok(()),
        return_data: vec![],
        transaction_accounts: after,
        logs: vec!["Program 11111111111111111111111111111111 success".to_string()],
        frames: vec![frame(0, 2, vec![0, 1])],
    };
    let r = svm.finish_execution(prepared, outcome, true);
    assert!(r.is_ok());
    assert_eq!(r.status(), ExecutionStatus::Success);
    assert_eq!(r.pre_balances, vec![1_000]);
    assert_eq!(r.post_balances, vec![900]);
    assert_eq!(r.lamports(&pk(1)), 900);
    assert_eq!(r.lamports(&pk(2)), 0);
    assert_eq!(r.compute_units_consumed, 150);
    assert_eq!(r.logs.len(), 1);
    assert_eq!(svm.get_account(&pk(1)).unwrap().lamports, 900);
    assert!(svm.get_account(&pk(2)).is_none());
    assert!(r.execution_trace.instructions[0].succeeded);
}

#[test]
fn simulation_leaves_the_store_alone() {
    let mut svm = QuasarSvm::new();
    svm.set_account(acct(1, 1_000));
    let prepared = svm.prepare_execution(&vec![transfer_ix()], &vec![]).unwrap();
    let outcome = RuntimeOutcome {
        compute_units_consumed: 1,
        execution_time_us: 1,
        raw_result: Ok(()),
        return_data: vec![1],
        transaction_accounts: vec![acct(1, 1)],
        logs: vec![],
        frames: vec![],
    };
    let r = svm.finish_execution(prepared, outcome, false);
    assert_eq!(r.lamports(&pk(1)), 1);
    assert_eq!(r.return_data, vec![1]);
    assert_eq!(svm.get_account(&pk(1)).unwrap().lamports, 1_000);
}

#[test]
fn failure_keeps_accounts_and_store() {
    let mut svm = QuasarSvm::new();
    svm.set_account(acct(1, 1_000));
    let prepared = svm.prepare_execution(&vec![transfer_ix()], &vec![]).unwrap();
    let outcome = RuntimeOutcome {
        compute_units_consumed: 7,
        execution_time_us: 1,
        raw_result: Err(InstructionError::Custom(1)),
        return_data: vec![],
        transaction_accounts: vec![acct(1, 0)],
        logs: vec![],
        frames: vec![frame(0, 2, vec![]), frame(1, 2, vec![])],
    };
    let r = svm.finish_execution(prepared, outcome, true);
    assert!(r.is_err());
    assert_eq!(r.status(), ExecutionStatus::Error(ProgramError::Custom(1)));
    assert_eq!(r.lamports(&pk(1)), 1_000);
    assert_eq!(svm.get_account(&pk(1)).unwrap().lamports, 1_000);
    let s: Vec<bool> = r.execution_trace.instructions.iter().map(|e| e.succeeded).collect();
    assert_eq!(s, vec![true, false]);
}

#[test]
fn runtime_only_errors_are_reported_by_name() {
    let r = result_with(Err(InstructionError::ComputationalBudgetExceeded), vec![]);
    assert_eq!(r.status(), ExecutionStatus::Error(ProgramError::ComputeBudgetExceeded));
    let r = result_with(Err(InstructionError::ProgramFailedToComplete), vec![]);
    assert_eq!(r.status(), ExecutionStatus::Error(ProgramError::Runtime("ProgramFailedToComplete".to_string())));
    let r = result_with(Err(InstructionError::MissingAccount), vec![]);
    assert_eq!(r.status(), ExecutionStatus::Error(ProgramError::MissingAccount));
}

#[test]
fn result_lookups_take_the_first_account() {
    let r = result_with(Ok(()), vec![acct(1, 10), Account { data: vec![4, 5], ..acct(2, 20) }, acct(1, 30)]);
    assert_eq!(r.account(&pk(1)).unwrap().lamports, 10);
    assert_eq!(r.lamports(&pk(2)), 20);
    assert_eq!(r.data(&pk(2)), Some(&[4u8, 5][..]));
    assert!(r.account(&pk(3)).is_none());
    assert_eq!(r.lamports(&pk(3)), 0);
    assert!(r.data(&pk(3)).is_none());
}

#[test]
fn trace_marks_only_the_last_invocation_failed() {
    let frames = vec![frame(0, 2, vec![0]), frame(1, 0, vec![1, 0]), frame(1, 1, vec![]), frame(0, 9, vec![])];
    let keys = vec![pk(1), pk(2), pk(3)];
    let (groups, trace) = extract_execution_trace(&frames, &keys, false);
    let s: Vec<(u8, [u8; 32], bool)> =
        trace.instructions.iter().map(|e| (e.nesting_level, e.program_id.bytes, e.succeeded)).collect();
    assert_eq!(
        s,
        vec![(0, [3; 32], true), (1, [1; 32], true), (1, [2; 32], true), (0, SYSTEM_PROGRAM_ID, false)]
    );
    assert_eq!(groups.len(), 1);
    assert_eq!(groups[0].index, 0);
    assert_eq!(groups[0].instructions.len(), 2);
    assert_eq!(groups[0].instructions[0].program_id_index, 0);
    assert_eq!(groups[0].instructions[0].accounts, vec![1, 0]);
    assert_eq!(groups[0].instructions[1].program_id_index, 1);
    let (_, ok_trace) = extract_execution_trace(&frames, &keys, true);
    assert!(ok_trace.instructions.iter().all(|e| e.succeeded));
    let (none, empty) = extract_execution_trace(&vec![], &keys, false);
    assert!(none.is_empty() && empty.instructions.is_empty());
}

#[test]
fn inner_instructions_group_under_their_top_level_index() {
    let frames = vec![frame(0, 0, vec![]), frame(0, 0, vec![]), frame(1, 1, vec![2]), frame(2, 1, vec![]), frame(0, 0, vec![])];
    let (groups, _) = extract_execution_trace(&frames, &vec![pk(1), pk(2), pk(3)], true);
    assert_eq!(groups.len(), 1);
    assert_eq!(groups[0].index, 1);
    assert_eq!(groups[0].instructions.len(), 2);
}

#[test]
fn progress_stops_at_the_first_error() {
    let mut p = ExecutionProgress::new();
    assert!(p.record(10, Ok(())));
    assert!(!p.record(5, Err(InstructionError::InvalidArgument)));
    assert_eq!(p.compute_units_consumed, 15);
    assert_eq!(p.raw_result, Err(InstructionError::InvalidArgument));
}

#[test]
fn resulting_accounts_replace_by_address() {
    let original = vec![acct(1, 1), acct(2, 2), acct(3, 3)];
    let after = vec![acct(3, 30), acct(1, 10), acct(1, 11)];
    let r = deconstruct_resulting_accounts(&original, &after);
    let got: Vec<(u8, u64)> = r.iter().map(|a| (a.address.bytes[0], a.lamports)).collect();
    assert_eq!(got, vec![(1, 10), (2, 2), (3, 30)]);
}

#[test]
fn token_balances_carry_their_mint_decimals() {
    let mint = Mint { mint_authority: None, supply: 100, decimals: 6, is_initialized: true, freeze_authority: None };
    let token = TokenAccount {
        mint: pk(40),
        owner: pk(41),
        amount: 99,
        delegate: None,
        state: AccountState::Initialized,
        is_native: None,
        delegated_amount: 0,
        close_authority: None,
    };
    let orphan = TokenAccount { mint: pk(60), ..token };
    let accounts = vec![
        acct(1, 5),
        create_keyed_mint_account(&pk(40), &mint),
        create_keyed_token_account(&pk(42), &token),
        create_keyed_token_account(&pk(43), &orphan),
    ];
    let b = extract_token_balances(&accounts);
    assert_eq!(b.len(), 2);
    assert_eq!(b[0].account_index, 2);
    assert_eq!(b[0].mint.bytes, [40; 32]);
    assert_eq!(b[0].owner.bytes, [41; 32]);
    assert_eq!(b[0].amount, 99);
    assert_eq!(b[0].decimals, 6);
    assert_eq!(b[1].account_index, 3);
    assert_eq!(b[1].decimals, 0);
}

#[test]
fn message_keys_are_grouped_by_role_then_ordered_by_address() {
    let svm = QuasarSvm::new();
    let ix = Instruction {
        program_id: pk(90),
        accounts: vec![
            AccountMeta { pubkey: pk(7), is_signer: false, is_writable: true },
            AccountMeta { pubkey: pk(5), is_signer: false, is_writable: false },
            AccountMeta { pubkey: pk(3), is_signer: false, is_writable: true },
            AccountMeta { pubkey: pk(9), is_signer: true, is_writable: false },
            AccountMeta { pubkey: pk(8), is_signer: true, is_writable: true },
            AccountMeta { pubkey: pk(6), is_signer: true, is_writable: true },
        ],
        data: vec![],
    };
    let prepared = svm.prepare_execution(&vec![ix], &vec![]).unwrap();
    let keys: Vec<u8> = prepared.account_keys.iter().map(|k| k.bytes[0]).collect();
    assert_eq!(keys, vec![6, 8, 9, 3, 7, 5, 90]);
}

#[test]
fn simulation_and_processing_report_the_same_result() {
    let run = |commit: bool| {
        let mut svm = QuasarSvm::new();
        svm.set_account(acct(1, 1_000));
        let prepared = svm.prepare_execution(&vec![transfer_ix()], &vec![]).unwrap();
        let outcome = RuntimeOutcome {
            compute_units_consumed: 150,
            execution_time_us: 2,
            raw_result: Ok(()),
            return_data: vec![4],
            transaction_accounts: vec![acct(1, 900), acct(2, 100)],
            logs: vec!["log".to_string()],
            frames: vec![frame(0, 2, vec![0, 1])],
        };
        let r = svm.finish_execution(prepared, outcome, commit);
        (r, svm.get_account(&pk(1)).unwrap().lamports)
    };
    let (sim, sim_stored) = run(false);
    let (pro, pro_stored) = run(true);
    assert_eq!(sim.raw_result, pro.raw_result);
    assert_eq!(sim.compute_units_consumed, pro.compute_units_consumed);
    assert_eq!(sim.return_data, pro.return_data);
    assert_eq!(sim.pre_balances, pro.pre_balances);
    assert_eq!(sim.post_balances, pro.post_balances);
    let a: Vec<(u8, u64)> = sim.accounts.iter().map(|x| (x.address.bytes[0], x.lamports)).collect();
    let b: Vec<(u8, u64)> = pro.accounts.iter().map(|x| (x.address.bytes[0], x.lamports)).collect();
    assert_eq!(a, b);
    assert_eq!(sim_stored, 1_000);
    assert_eq!(pro_stored, 900);
}
