#![allow(deprecated)]
use quasar_svm::error::{
    clear_last_error, program_error_try_from, set_last_error, InstructionError, LastError, ProgramError,
};
use quasar_svm::wire::{error_message, program_error_to_i32};
use solana_instruction_error::InstructionError as SolError;
use spl_token::solana_program::program_error::ProgramError as SolProgramError;

fn all_errors() -> Vec<(InstructionError, SolError)> {
    vec![
        (InstructionError::GenericError, SolError::GenericError),
        (InstructionError::InvalidArgument, SolError::InvalidArgument),
        (InstructionError::InvalidInstructionData, SolError::InvalidInstructionData),
        (InstructionError::InvalidAccountData, SolError::InvalidAccountData),
        (InstructionError::AccountDataTooSmall, SolError::AccountDataTooSmall),
        (InstructionError::InsufficientFunds, SolError::InsufficientFunds),
        (InstructionError::IncorrectProgramId, SolError::IncorrectProgramId),
        (InstructionError::MissingRequiredSignature, SolError::MissingRequiredSignature),
        (InstructionError::AccountAlreadyInitialized, SolError::AccountAlreadyInitialized),
        (InstructionError::UninitializedAccount, SolError::UninitializedAccount),
        (InstructionError::UnbalancedInstruction, SolError::UnbalancedInstruction),
        (InstructionError::ModifiedProgramId, SolError::ModifiedProgramId),
        (InstructionError::ExternalAccountLamportSpend, SolError::ExternalAccountLamportSpend),
        (InstructionError::ExternalAccountDataModified, SolError::ExternalAccountDataModified),
        (InstructionError::ReadonlyLamportChange, SolError::ReadonlyLamportChange),
        (InstructionError::ReadonlyDataModified, SolError::ReadonlyDataModified),
        (InstructionError::DuplicateAccountIndex, SolError::DuplicateAccountIndex),
        (InstructionError::ExecutableModified, SolError::ExecutableModified),
        (InstructionError::RentEpochModified, SolError::RentEpochModified),
        (InstructionError::NotEnoughAccountKeys, SolError::NotEnoughAccountKeys),
        (InstructionError::AccountDataSizeChanged, SolError::AccountDataSizeChanged),
        (InstructionError::AccountNotExecutable, SolError::AccountNotExecutable),
        (InstructionError::AccountBorrowFailed, SolError::AccountBorrowFailed),
        (InstructionError::AccountBorrowOutstanding, SolError::AccountBorrowOutstanding),
        (InstructionError::DuplicateAccountOutOfSync, SolError::DuplicateAccountOutOfSync),
        (InstructionError::Custom(0), SolError::Custom(0)),
        (InstructionError::Custom(1), SolError::Custom(1)),
        (InstructionError::Custom(6001), SolError::Custom(6001)),
        (InstructionError::Custom(4294967295), SolError::Custom(4294967295)),
        (InstructionError::InvalidError, SolError::InvalidError),
        (InstructionError::ExecutableDataModified, SolError::ExecutableDataModified),
        (InstructionError::ExecutableLamportChange, SolError::ExecutableLamportChange),
        (InstructionError::ExecutableAccountNotRentExempt, SolError::ExecutableAccountNotRentExempt),
        (InstructionError::UnsupportedProgramId, SolError::UnsupportedProgramId),
        (InstructionError::CallDepth, SolError::CallDepth),
        (InstructionError::MissingAccount, SolError::MissingAccount),
        (InstructionError::ReentrancyNotAllowed, SolError::ReentrancyNotAllowed),
        (InstructionError::MaxSeedLengthExceeded, SolError::MaxSeedLengthExceeded),
        (InstructionError::InvalidSeeds, SolError::InvalidSeeds),
        (InstructionError::InvalidRealloc, SolError::InvalidRealloc),
        (InstructionError::ComputationalBudgetExceeded, SolError::ComputationalBudgetExceeded),
        (InstructionError::PrivilegeEscalation, SolError::PrivilegeEscalation),
        (InstructionError::ProgramEnvironmentSetupFailure, SolError::ProgramEnvironmentSetupFailure),
        (InstructionError::ProgramFailedToComplete, SolError::ProgramFailedToComplete),
        (InstructionError::ProgramFailedToCompile, SolError::ProgramFailedToCompile),
        (InstructionError::Immutable, SolError::Immutable),
        (InstructionError::IncorrectAuthority, SolError::IncorrectAuthority),
        (InstructionError::BorshIoError, SolError::BorshIoError),
        (InstructionError::AccountNotRentExempt, SolError::AccountNotRentExempt),
        (InstructionError::InvalidAccountOwner, SolError::InvalidAccountOwner),
        (InstructionError::ArithmeticOverflow, SolError::ArithmeticOverflow),
        (InstructionError::UnsupportedSysvar, SolError::UnsupportedSysvar),
        (InstructionError::IllegalOwner, SolError::IllegalOwner),
        (InstructionError::MaxAccountsDataAllocationsExceeded, SolError::MaxAccountsDataAllocationsExceeded),
        (InstructionError::MaxAccountsExceeded, SolError::MaxAccountsExceeded),
        (InstructionError::MaxInstructionTraceLengthExceeded, SolError::MaxInstructionTraceLengthExceeded),
        (InstructionError::BuiltinProgramsMustConsumeComputeUnits, SolError::BuiltinProgramsMustConsumeComputeUnits),
    ]
}

#[test]
fn names_match_the_runtime_debug_text() {
    for (mine, real) in all_errors() {
        let text = format!("{:?}", real);
        assert_eq!(error_message(&mine), text.as_bytes().to_vec());
        if !matches!(mine, InstructionError::Custom(_)) {
            assert_eq!(mine.name(), text);
        }
    }
}

#[test]
fn conversion_matches_the_runtime() {
    for (mine, real) in all_errors() {
        let expected = SolProgramError::try_from(real.clone()).ok();
        let got = program_error_try_from(&mine);
        assert_eq!(got.is_some(), expected.is_some(), "{:?}", real);
        if let (Some(g), Some(e)) = (got, expected) {
            assert_eq!(format!("{:?}", g), format!("{:?}", e));
        }
    }
}

#[test]
fn status_codes_follow_the_program_error_order() {
    let builtin: Vec<(InstructionError, i32)> = vec![
        (InstructionError::InvalidArgument, -2),
        (InstructionError::InvalidInstructionData, -3),
        (InstructionError::InvalidAccountData, -4),
        (InstructionError::AccountDataTooSmall, -5),
        (InstructionError::InsufficientFunds, -6),
        (InstructionError::IncorrectProgramId, -7),
        (InstructionError::MissingRequiredSignature, -8),
        (InstructionError::AccountAlreadyInitialized, -9),
        (InstructionError::UninitializedAccount, -10),
        (InstructionError::NotEnoughAccountKeys, -11),
        (InstructionError::MissingAccount, -11),
        (InstructionError::AccountBorrowFailed, -12),
        (InstructionError::MaxSeedLengthExceeded, -13),
        (InstructionError::InvalidSeeds, -14),
        (InstructionError::BorshIoError, -15),
        (InstructionError::AccountNotRentExempt, -16),
        (InstructionError::UnsupportedSysvar, -17),
        (InstructionError::IllegalOwner, -18),
        (InstructionError::MaxAccountsDataAllocationsExceeded, -19),
        (InstructionError::InvalidRealloc, -20),
        (InstructionError::MaxInstructionTraceLengthExceeded, -21),
        (InstructionError::BuiltinProgramsMustConsumeComputeUnits, -22),
        (InstructionError::InvalidAccountOwner, -23),
        (InstructionError::ArithmeticOverflow, -24),
        (InstructionError::Immutable, -25),
        (InstructionError::IncorrectAuthority, -26),
    ];
    for (e, code) in builtin {
        let p = program_error_try_from(&e).unwrap();
        assert_eq!(program_error_to_i32(&p), code);
    }
    assert!(program_error_try_from(&InstructionError::GenericError).is_none());
}

#[test]
fn program_error_names_common_errors() {
    assert_eq!(ProgramError::from_instruction_error(&InstructionError::Custom(7)), ProgramError::Custom(7));
    assert_eq!(ProgramError::from_instruction_error(&InstructionError::NotEnoughAccountKeys), ProgramError::MissingAccount);
    assert_eq!(ProgramError::from_instruction_error(&InstructionError::ComputationalBudgetExceeded), ProgramError::ComputeBudgetExceeded);
    assert_eq!(
        ProgramError::from_instruction_error(&InstructionError::CallDepth),
        ProgramError::Runtime("CallDepth".to_string())
    );
}

#[test]
fn last_error_slot() {
    let mut slot = LastError::new();
    assert!(slot.message.is_none());
    set_last_error(&mut slot, "Null pointer argument".to_string());
    assert_eq!(slot.message.as_deref(), Some("Null pointer argument"));
    set_last_error(&mut slot, "bad\0text".to_string());
    assert!(slot.message.is_none());
    set_last_error(&mut slot, "x".to_string());
    clear_last_error(&mut slot);
    assert!(slot.message.is_none());
}

#[test]
fn builtin_status_codes_are_distinct_and_negative() {
    let mut codes: Vec<i32> = all_errors()
        .into_iter()
        .filter(|(e, _)| !matches!(e, InstructionError::Custom(_)))
        .filter_map(|(e, _)| program_error_try_from(&e))
        .map(|p| program_error_to_i32(&p))
        .collect();
    assert!(codes.iter().all(|c| *c < -1));
    codes.sort();
    codes.dedup();
    // NotEnoughAccountKeys and MissingAccount share a program error.
    assert_eq!(codes.len(), 25);
}
