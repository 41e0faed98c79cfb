//! Errors: the runtime's instruction errors, the program errors they map to,
//! and the slot that holds the last error message of the C interface.
use vstd::prelude::*;
use vstd::utf8::encode_utf8;

verus! {

/// Why an instruction failed, as the runtime reports it.
#[derive(Clone, Copy, Debug, PartialEq, Eq, Structural)]
pub enum InstructionError {
    GenericError,
    InvalidArgument,
    InvalidInstructionData,
    InvalidAccountData,
    AccountDataTooSmall,
    InsufficientFunds,
    IncorrectProgramId,
    MissingRequiredSignature,
    AccountAlreadyInitialized,
    UninitializedAccount,
    UnbalancedInstruction,
    ModifiedProgramId,
    ExternalAccountLamportSpend,
    ExternalAccountDataModified,
    ReadonlyLamportChange,
    ReadonlyDataModified,
    DuplicateAccountIndex,
    ExecutableModified,
    RentEpochModified,
    NotEnoughAccountKeys,
    AccountDataSizeChanged,
    AccountNotExecutable,
    AccountBorrowFailed,
    AccountBorrowOutstanding,
    DuplicateAccountOutOfSync,
    Custom(u32),
    InvalidError,
    ExecutableDataModified,
    ExecutableLamportChange,
    ExecutableAccountNotRentExempt,
    UnsupportedProgramId,
    CallDepth,
    MissingAccount,
    ReentrancyNotAllowed,
    MaxSeedLengthExceeded,
    InvalidSeeds,
    InvalidRealloc,
    ComputationalBudgetExceeded,
    PrivilegeEscalation,
    ProgramEnvironmentSetupFailure,
    ProgramFailedToComplete,
    ProgramFailedToCompile,
    Immutable,
    IncorrectAuthority,
    BorshIoError,
    AccountNotRentExempt,
    InvalidAccountOwner,
    ArithmeticOverflow,
    UnsupportedSysvar,
    IllegalOwner,
    MaxAccountsDataAllocationsExceeded,
    MaxAccountsExceeded,
    MaxInstructionTraceLengthExceeded,
    BuiltinProgramsMustConsumeComputeUnits,
}

/// The name under which an instruction error prints (its variant name).
pub open spec fn spec_error_name(e: InstructionError) -> Seq<char> {
    match e {
        InstructionError::GenericError => "GenericError"@,
        InstructionError::InvalidArgument => "InvalidArgument"@,
        InstructionError::InvalidInstructionData => "InvalidInstructionData"@,
        InstructionError::InvalidAccountData => "InvalidAccountData"@,
        InstructionError::AccountDataTooSmall => "AccountDataTooSmall"@,
        InstructionError::InsufficientFunds => "InsufficientFunds"@,
        InstructionError::IncorrectProgramId => "IncorrectProgramId"@,
        InstructionError::MissingRequiredSignature => "MissingRequiredSignature"@,
        InstructionError::AccountAlreadyInitialized => "AccountAlreadyInitialized"@,
        InstructionError::UninitializedAccount => "UninitializedAccount"@,
        InstructionError::UnbalancedInstruction => "UnbalancedInstruction"@,
        InstructionError::ModifiedProgramId => "ModifiedProgramId"@,
        InstructionError::ExternalAccountLamportSpend => "ExternalAccountLamportSpend"@,
        InstructionError::ExternalAccountDataModified => "ExternalAccountDataModified"@,
        InstructionError::ReadonlyLamportChange => "ReadonlyLamportChange"@,
        InstructionError::ReadonlyDataModified => "ReadonlyDataModified"@,
        InstructionError::DuplicateAccountIndex => "DuplicateAccountIndex"@,
        InstructionError::ExecutableModified => "ExecutableModified"@,
        InstructionError::RentEpochModified => "RentEpochModified"@,
        InstructionError::NotEnoughAccountKeys => "NotEnoughAccountKeys"@,
        InstructionError::AccountDataSizeChanged => "AccountDataSizeChanged"@,
        InstructionError::AccountNotExecutable => "AccountNotExecutable"@,
        InstructionError::AccountBorrowFailed => "AccountBorrowFailed"@,
        InstructionError::AccountBorrowOutstanding => "AccountBorrowOutstanding"@,
        InstructionError::DuplicateAccountOutOfSync => "DuplicateAccountOutOfSync"@,
        InstructionError::Custom(_) => "Custom"@,
        InstructionError::InvalidError => "InvalidError"@,
        InstructionError::ExecutableDataModified => "ExecutableDataModified"@,
        InstructionError::ExecutableLamportChange => "ExecutableLamportChange"@,
        InstructionError::ExecutableAccountNotRentExempt => "ExecutableAccountNotRentExempt"@,
        InstructionError::UnsupportedProgramId => "UnsupportedProgramId"@,
        InstructionError::CallDepth => "CallDepth"@,
        InstructionError::MissingAccount => "MissingAccount"@,
        InstructionError::ReentrancyNotAllowed => "ReentrancyNotAllowed"@,
        InstructionError::MaxSeedLengthExceeded => "MaxSeedLengthExceeded"@,
        InstructionError::InvalidSeeds => "InvalidSeeds"@,
        InstructionError::InvalidRealloc => "InvalidRealloc"@,
        InstructionError::ComputationalBudgetExceeded => "ComputationalBudgetExceeded"@,
        InstructionError::PrivilegeEscalation => "PrivilegeEscalation"@,
        InstructionError::ProgramEnvironmentSetupFailure => "ProgramEnvironmentSetupFailure"@,
        InstructionError::ProgramFailedToComplete => "ProgramFailedToComplete"@,
        InstructionError::ProgramFailedToCompile => "ProgramFailedToCompile"@,
        InstructionError::Immutable => "Immutable"@,
        InstructionError::IncorrectAuthority => "IncorrectAuthority"@,
        InstructionError::BorshIoError => "BorshIoError"@,
        InstructionError::AccountNotRentExempt => "AccountNotRentExempt"@,
        InstructionError::InvalidAccountOwner => "InvalidAccountOwner"@,
        InstructionError::ArithmeticOverflow => "ArithmeticOverflow"@,
        InstructionError::UnsupportedSysvar => "UnsupportedSysvar"@,
        InstructionError::IllegalOwner => "IllegalOwner"@,
        InstructionError::MaxAccountsDataAllocationsExceeded => "MaxAccountsDataAllocationsExceeded"@,
        InstructionError::MaxAccountsExceeded => "MaxAccountsExceeded"@,
        InstructionError::MaxInstructionTraceLengthExceeded => "MaxInstructionTraceLengthExceeded"@,
        InstructionError::BuiltinProgramsMustConsumeComputeUnits => "BuiltinProgramsMustConsumeComputeUnits"@,
    }
}

impl InstructionError {
    /// The variant name of the error.
    pub fn name(&self) -> (r: &'static str)
        ensures
            r@ == spec_error_name(*self),
    {
        match self {
            InstructionError::GenericError => "GenericError",
            InstructionError::InvalidArgument => "InvalidArgument",
            InstructionError::InvalidInstructionData => "InvalidInstructionData",
            InstructionError::InvalidAccountData => "InvalidAccountData",
            InstructionError::AccountDataTooSmall => "AccountDataTooSmall",
            InstructionError::InsufficientFunds => "InsufficientFunds",
            InstructionError::IncorrectProgramId => "IncorrectProgramId",
            InstructionError::MissingRequiredSignature => "MissingRequiredSignature",
            InstructionError::AccountAlreadyInitialized => "AccountAlreadyInitialized",
            InstructionError::UninitializedAccount => "UninitializedAccount",
            InstructionError::UnbalancedInstruction => "UnbalancedInstruction",
            InstructionError::ModifiedProgramId => "ModifiedProgramId",
            InstructionError::ExternalAccountLamportSpend => "ExternalAccountLamportSpend",
            InstructionError::ExternalAccountDataModified => "ExternalAccountDataModified",
            InstructionError::ReadonlyLamportChange => "ReadonlyLamportChange",
            InstructionError::ReadonlyDataModified => "ReadonlyDataModified",
            InstructionError::DuplicateAccountIndex => "DuplicateAccountIndex",
            InstructionError::ExecutableModified => "ExecutableModified",
            InstructionError::RentEpochModified => "RentEpochModified",
            InstructionError::NotEnoughAccountKeys => "NotEnoughAccountKeys",
            InstructionError::AccountDataSizeChanged => "AccountDataSizeChanged",
            InstructionError::AccountNotExecutable => "AccountNotExecutable",
            InstructionError::AccountBorrowFailed => "AccountBorrowFailed",
            InstructionError::AccountBorrowOutstanding => "AccountBorrowOutstanding",
            InstructionError::DuplicateAccountOutOfSync => "DuplicateAccountOutOfSync",
            InstructionError::Custom(_) => "Custom",
            InstructionError::InvalidError => "InvalidError",
            InstructionError::ExecutableDataModified => "ExecutableDataModified",
            InstructionError::ExecutableLamportChange => "ExecutableLamportChange",
            InstructionError::ExecutableAccountNotRentExempt => "ExecutableAccountNotRentExempt",
            InstructionError::UnsupportedProgramId => "UnsupportedProgramId",
            InstructionError::CallDepth => "CallDepth",
            InstructionError::MissingAccount => "MissingAccount",
            InstructionError::ReentrancyNotAllowed => "ReentrancyNotAllowed",
            InstructionError::MaxSeedLengthExceeded => "MaxSeedLengthExceeded",
            InstructionError::InvalidSeeds => "InvalidSeeds",
            InstructionError::InvalidRealloc => "InvalidRealloc",
            InstructionError::ComputationalBudgetExceeded => "ComputationalBudgetExceeded",
            InstructionError::PrivilegeEscalation => "PrivilegeEscalation",
            InstructionError::ProgramEnvironmentSetupFailure => "ProgramEnvironmentSetupFailure",
            InstructionError::ProgramFailedToComplete => "ProgramFailedToComplete",
            InstructionError::ProgramFailedToCompile => "ProgramFailedToCompile",
            InstructionError::Immutable => "Immutable",
            InstructionError::IncorrectAuthority => "IncorrectAuthority",
            InstructionError::BorshIoError => "BorshIoError",
            InstructionError::AccountNotRentExempt => "AccountNotRentExempt",
            InstructionError::InvalidAccountOwner => "InvalidAccountOwner",
            InstructionError::ArithmeticOverflow => "ArithmeticOverflow",
            InstructionError::UnsupportedSysvar => "UnsupportedSysvar",
            InstructionError::IllegalOwner => "IllegalOwner",
            InstructionError::MaxAccountsDataAllocationsExceeded => "MaxAccountsDataAllocationsExceeded",
            InstructionError::MaxAccountsExceeded => "MaxAccountsExceeded",
            InstructionError::MaxInstructionTraceLengthExceeded => "MaxInstructionTraceLengthExceeded",
            InstructionError::BuiltinProgramsMustConsumeComputeUnits => "BuiltinProgramsMustConsumeComputeUnits",
        }
    }
}

/// The program errors of the on-chain program interface (the image of an
/// instruction error under the runtime's conversion).
#[derive(Clone, Copy, Debug, PartialEq, Eq, Structural)]
pub enum RuntimeProgramError {
    Custom(u32),
    InvalidArgument,
    InvalidInstructionData,
    InvalidAccountData,
    AccountDataTooSmall,
    InsufficientFunds,
    IncorrectProgramId,
    MissingRequiredSignature,
    AccountAlreadyInitialized,
    UninitializedAccount,
    NotEnoughAccountKeys,
    AccountBorrowFailed,
    MaxSeedLengthExceeded,
    InvalidSeeds,
    BorshIoError,
    AccountNotRentExempt,
    UnsupportedSysvar,
    IllegalOwner,
    MaxAccountsDataAllocationsExceeded,
    InvalidRealloc,
    MaxInstructionTraceLengthExceeded,
    BuiltinProgramsMustConsumeComputeUnits,
    InvalidAccountOwner,
    ArithmeticOverflow,
    Immutable,
    IncorrectAuthority,
}

/// The program error that an instruction error converts to, if any: the
/// conversion from instruction errors to program errors of the runtime.
pub open spec fn spec_to_runtime_program_error(e: InstructionError) -> Option<RuntimeProgramError> {
    match e {
        InstructionError::Custom(n) => Some(RuntimeProgramError::Custom(n)),
        InstructionError::InvalidArgument => Some(RuntimeProgramError::InvalidArgument),
        InstructionError::InvalidInstructionData => Some(RuntimeProgramError::InvalidInstructionData),
        InstructionError::InvalidAccountData => Some(RuntimeProgramError::InvalidAccountData),
        InstructionError::AccountDataTooSmall => Some(RuntimeProgramError::AccountDataTooSmall),
        InstructionError::InsufficientFunds => Some(RuntimeProgramError::InsufficientFunds),
        InstructionError::IncorrectProgramId => Some(RuntimeProgramError::IncorrectProgramId),
        InstructionError::MissingRequiredSignature => Some(RuntimeProgramError::MissingRequiredSignature),
        InstructionError::AccountAlreadyInitialized => Some(RuntimeProgramError::AccountAlreadyInitialized),
        InstructionError::UninitializedAccount => Some(RuntimeProgramError::UninitializedAccount),
        InstructionError::NotEnoughAccountKeys => Some(RuntimeProgramError::NotEnoughAccountKeys),
        InstructionError::MissingAccount => Some(RuntimeProgramError::NotEnoughAccountKeys),
        InstructionError::AccountBorrowFailed => Some(RuntimeProgramError::AccountBorrowFailed),
        InstructionError::MaxSeedLengthExceeded => Some(RuntimeProgramError::MaxSeedLengthExceeded),
        InstructionError::InvalidSeeds => Some(RuntimeProgramError::InvalidSeeds),
        InstructionError::BorshIoError => Some(RuntimeProgramError::BorshIoError),
        InstructionError::AccountNotRentExempt => Some(RuntimeProgramError::AccountNotRentExempt),
        InstructionError::UnsupportedSysvar => Some(RuntimeProgramError::UnsupportedSysvar),
        InstructionError::IllegalOwner => Some(RuntimeProgramError::IllegalOwner),
        InstructionError::MaxAccountsDataAllocationsExceeded => Some(RuntimeProgramError::MaxAccountsDataAllocationsExceeded),
        InstructionError::InvalidRealloc => Some(RuntimeProgramError::InvalidRealloc),
        InstructionError::MaxInstructionTraceLengthExceeded => Some(RuntimeProgramError::MaxInstructionTraceLengthExceeded),
        InstructionError::BuiltinProgramsMustConsumeComputeUnits => Some(RuntimeProgramError::BuiltinProgramsMustConsumeComputeUnits),
        InstructionError::InvalidAccountOwner => Some(RuntimeProgramError::InvalidAccountOwner),
        InstructionError::ArithmeticOverflow => Some(RuntimeProgramError::ArithmeticOverflow),
        InstructionError::Immutable => Some(RuntimeProgramError::Immutable),
        InstructionError::IncorrectAuthority => Some(RuntimeProgramError::IncorrectAuthority),
        _ => None,
    }
}

/// Converts an instruction error to the program error it stands for, or
/// `None` for the errors that only the runtime raises.
pub fn program_error_try_from(e: &InstructionError) -> (r: Option<RuntimeProgramError>)
    ensures
        r == spec_to_runtime_program_error(*e),
{
    match e {
        InstructionError::Custom(n) => Some(RuntimeProgramError::Custom(*n)),
        InstructionError::InvalidArgument => Some(RuntimeProgramError::InvalidArgument),
        InstructionError::InvalidInstructionData => Some(RuntimeProgramError::InvalidInstructionData),
        InstructionError::InvalidAccountData => Some(RuntimeProgramError::InvalidAccountData),
        InstructionError::AccountDataTooSmall => Some(RuntimeProgramError::AccountDataTooSmall),
        InstructionError::InsufficientFunds => Some(RuntimeProgramError::InsufficientFunds),
        InstructionError::IncorrectProgramId => Some(RuntimeProgramError::IncorrectProgramId),
        InstructionError::MissingRequiredSignature => Some(RuntimeProgramError::MissingRequiredSignature),
        InstructionError::AccountAlreadyInitialized => Some(RuntimeProgramError::AccountAlreadyInitialized),
        InstructionError::UninitializedAccount => Some(RuntimeProgramError::UninitializedAccount),
        InstructionError::NotEnoughAccountKeys => Some(RuntimeProgramError::NotEnoughAccountKeys),
        InstructionError::MissingAccount => Some(RuntimeProgramError::NotEnoughAccountKeys),
        InstructionError::AccountBorrowFailed => Some(RuntimeProgramError::AccountBorrowFailed),
        InstructionError::MaxSeedLengthExceeded => Some(RuntimeProgramError::MaxSeedLengthExceeded),
        InstructionError::InvalidSeeds => Some(RuntimeProgramError::InvalidSeeds),
        InstructionError::BorshIoError => Some(RuntimeProgramError::BorshIoError),
        InstructionError::AccountNotRentExempt => Some(RuntimeProgramError::AccountNotRentExempt),
        InstructionError::UnsupportedSysvar => Some(RuntimeProgramError::UnsupportedSysvar),
        InstructionError::IllegalOwner => Some(RuntimeProgramError::IllegalOwner),
        InstructionError::MaxAccountsDataAllocationsExceeded => Some(RuntimeProgramError::MaxAccountsDataAllocationsExceeded),
        InstructionError::InvalidRealloc => Some(RuntimeProgramError::InvalidRealloc),
        InstructionError::MaxInstructionTraceLengthExceeded => Some(RuntimeProgramError::MaxInstructionTraceLengthExceeded),
        InstructionError::BuiltinProgramsMustConsumeComputeUnits => Some(RuntimeProgramError::BuiltinProgramsMustConsumeComputeUnits),
        InstructionError::InvalidAccountOwner => Some(RuntimeProgramError::InvalidAccountOwner),
        InstructionError::ArithmeticOverflow => Some(RuntimeProgramError::ArithmeticOverflow),
        InstructionError::Immutable => Some(RuntimeProgramError::Immutable),
        InstructionError::IncorrectAuthority => Some(RuntimeProgramError::IncorrectAuthority),
        _ => None,
    }
}

/// An error of an execution as this library reports it: the common program
/// errors by name, custom program errors by code, and every other runtime
/// error by its name.
#[derive(Clone, Debug, PartialEq, Eq)]
pub enum ProgramError {
    InvalidArgument,
    InvalidInstructionData,
    InvalidAccountData,
    AccountDataTooSmall,
    InsufficientFunds,
    IncorrectProgramId,
    MissingRequiredSignature,
    AccountAlreadyInitialized,
    UninitializedAccount,
    MissingAccount,
    InvalidSeeds,
    ArithmeticOverflow,
    AccountNotRentExempt,
    InvalidAccountOwner,
    IncorrectAuthority,
    Immutable,
    BorshIoError,
    ComputeBudgetExceeded,
    Custom(u32),
    Runtime(String),
}

/// The program error that an instruction error is reported as.
pub open spec fn spec_program_error_kind(e: InstructionError) -> Option<ProgramError> {
    match e {
        InstructionError::InvalidArgument => Some(ProgramError::InvalidArgument),
        InstructionError::InvalidInstructionData => Some(ProgramError::InvalidInstructionData),
        InstructionError::InvalidAccountData => Some(ProgramError::InvalidAccountData),
        InstructionError::AccountDataTooSmall => Some(ProgramError::AccountDataTooSmall),
        InstructionError::InsufficientFunds => Some(ProgramError::InsufficientFunds),
        InstructionError::IncorrectProgramId => Some(ProgramError::IncorrectProgramId),
        InstructionError::MissingRequiredSignature => Some(ProgramError::MissingRequiredSignature),
        InstructionError::AccountAlreadyInitialized => Some(ProgramError::AccountAlreadyInitialized),
        InstructionError::UninitializedAccount => Some(ProgramError::UninitializedAccount),
        InstructionError::MissingAccount => Some(ProgramError::MissingAccount),
        InstructionError::NotEnoughAccountKeys => Some(ProgramError::MissingAccount),
        InstructionError::InvalidSeeds => Some(ProgramError::InvalidSeeds),
        InstructionError::ArithmeticOverflow => Some(ProgramError::ArithmeticOverflow),
        InstructionError::AccountNotRentExempt => Some(ProgramError::AccountNotRentExempt),
        InstructionError::InvalidAccountOwner => Some(ProgramError::InvalidAccountOwner),
        InstructionError::IncorrectAuthority => Some(ProgramError::IncorrectAuthority),
        InstructionError::Immutable => Some(ProgramError::Immutable),
        InstructionError::BorshIoError => Some(ProgramError::BorshIoError),
        InstructionError::ComputationalBudgetExceeded => Some(ProgramError::ComputeBudgetExceeded),
        InstructionError::Custom(n) => Some(ProgramError::Custom(n)),
        _ => None,
    }
}

/// The named program error whose variant name is `n`, if there is one.
pub open spec fn named_program_error(n: Seq<char>) -> Option<ProgramError> {
    if n == "InvalidArgument"@ {
        Some(ProgramError::InvalidArgument)
    } else if n == "InvalidInstructionData"@ {
        Some(ProgramError::InvalidInstructionData)
    } else if n == "InvalidAccountData"@ {
        Some(ProgramError::InvalidAccountData)
    } else if n == "AccountDataTooSmall"@ {
        Some(ProgramError::AccountDataTooSmall)
    } else if n == "InsufficientFunds"@ {
        Some(ProgramError::InsufficientFunds)
    } else if n == "IncorrectProgramId"@ {
        Some(ProgramError::IncorrectProgramId)
    } else if n == "MissingRequiredSignature"@ {
        Some(ProgramError::MissingRequiredSignature)
    } else if n == "AccountAlreadyInitialized"@ {
        Some(ProgramError::AccountAlreadyInitialized)
    } else if n == "UninitializedAccount"@ {
        Some(ProgramError::UninitializedAccount)
    } else if n == "MissingAccount"@ {
        Some(ProgramError::MissingAccount)
    } else if n == "InvalidSeeds"@ {
        Some(ProgramError::InvalidSeeds)
    } else if n == "ArithmeticOverflow"@ {
        Some(ProgramError::ArithmeticOverflow)
    } else if n == "AccountNotRentExempt"@ {
        Some(ProgramError::AccountNotRentExempt)
    } else if n == "InvalidAccountOwner"@ {
        Some(ProgramError::InvalidAccountOwner)
    } else if n == "IncorrectAuthority"@ {
        Some(ProgramError::IncorrectAuthority)
    } else if n == "Immutable"@ {
        Some(ProgramError::Immutable)
    } else if n == "BorshIoError"@ {
        Some(ProgramError::BorshIoError)
    } else if n == "ComputeBudgetExceeded"@ {
        Some(ProgramError::ComputeBudgetExceeded)
    } else {
        None
    }
}

/// An instruction error whose name is that of a named program error is
/// reported as that named error; an error reported by none has a name that
/// no named program error bears; a custom error keeps its code; a missing
/// account key is reported as a missing account, and an exhausted compute
/// budget as such.
pub proof fn law_named_errors_keep_their_variant(e: InstructionError)
    ensures
        named_program_error(spec_error_name(e)) matches Some(p) ==> spec_program_error_kind(e)
            == Some(p),
        spec_program_error_kind(e) is None ==> named_program_error(spec_error_name(e)) is None,
        e matches InstructionError::Custom(c) ==> spec_program_error_kind(e) == Some(
            ProgramError::Custom(c),
        ),
        e == InstructionError::NotEnoughAccountKeys ==> spec_program_error_kind(e) == Some(
            ProgramError::MissingAccount,
        ),
        e == InstructionError::ComputationalBudgetExceeded ==> spec_program_error_kind(e) == Some(
            ProgramError::ComputeBudgetExceeded,
        ),
{
    reveal_strlit("InvalidArgument");
    assert("InvalidArgument"@.len() == 15 && "InvalidArgument"@[0] == 'I' && "InvalidArgument"@[9] == 'g' && "InvalidArgument"@[10] == 'u');
    reveal_strlit("InvalidInstructionData");
    assert("InvalidInstructionData"@.len() == 22 && "InvalidInstructionData"@[0] == 'I' && "InvalidInstructionData"@[9] == 's' && "InvalidInstructionData"@[10] == 't');
    reveal_strlit("InvalidAccountData");
    assert("InvalidAccountData"@.len() == 18 && "InvalidAccountData"@[0] == 'I' && "InvalidAccountData"@[9] == 'c' && "InvalidAccountData"@[10] == 'o');
    reveal_strlit("AccountDataTooSmall");
    assert("AccountDataTooSmall"@.len() == 19 && "AccountDataTooSmall"@[0] == 'A' && "AccountDataTooSmall"@[9] == 't' && "AccountDataTooSmall"@[10] == 'a');
    reveal_strlit("InsufficientFunds");
    assert("InsufficientFunds"@.len() == 17 && "InsufficientFunds"@[0] == 'I' && "InsufficientFunds"@[9] == 'e' && "InsufficientFunds"@[10] == 'n');
    reveal_strlit("IncorrectProgramId");
    assert("IncorrectProgramId"@.len() == 18 && "IncorrectProgramId"@[0] == 'I' && "IncorrectProgramId"@[9] == 'P' && "IncorrectProgramId"@[10] == 'r');
    reveal_strlit("MissingRequiredSignature");
    assert("MissingRequiredSignature"@.len() == 24 && "MissingRequiredSignature"@[0] == 'M' && "MissingRequiredSignature"@[9] == 'q' && "MissingRequiredSignature"@[10] == 'u');
    reveal_strlit("AccountAlreadyInitialized");
    assert("AccountAlreadyInitialized"@.len() == 25 && "AccountAlreadyInitialized"@[0] == 'A' && "AccountAlreadyInitialized"@[9] == 'r' && "AccountAlreadyInitialized"@[10] == 'e');
    reveal_strlit("UninitializedAccount");
    assert("UninitializedAccount"@.len() == 20 && "UninitializedAccount"@[0] == 'U' && "UninitializedAccount"@[9] == 'i' && "UninitializedAccount"@[10] == 'z');
    reveal_strlit("MissingAccount");
    assert("MissingAccount"@.len() == 14 && "MissingAccount"@[0] == 'M' && "MissingAccount"@[9] == 'c' && "MissingAccount"@[10] == 'o');
    reveal_strlit("InvalidSeeds");
    assert("InvalidSeeds"@.len() == 12 && "InvalidSeeds"@[0] == 'I' && "InvalidSeeds"@[9] == 'e' && "InvalidSeeds"@[10] == 'd');
    reveal_strlit("ArithmeticOverflow");
    assert("ArithmeticOverflow"@.len() == 18 && "ArithmeticOverflow"@[0] == 'A' && "ArithmeticOverflow"@[9] == 'c' && "ArithmeticOverflow"@[10] == 'O');
    reveal_strlit("AccountNotRentExempt");
    assert("AccountNotRentExempt"@.len() == 20 && "AccountNotRentExempt"@[0] == 'A' && "AccountNotRentExempt"@[9] == 't' && "AccountNotRentExempt"@[10] == 'R');
    reveal_strlit("InvalidAccountOwner");
    assert("InvalidAccountOwner"@.len() == 19 && "InvalidAccountOwner"@[0] == 'I' && "InvalidAccountOwner"@[9] == 'c' && "InvalidAccountOwner"@[10] == 'o');
    reveal_strlit("IncorrectAuthority");
    assert("IncorrectAuthority"@.len() == 18 && "IncorrectAuthority"@[0] == 'I' && "IncorrectAuthority"@[9] == 'A' && "IncorrectAuthority"@[10] == 'u');
    reveal_strlit("Immutable");
    assert("Immutable"@.len() == 9 && "Immutable"@[0] == 'I');
    reveal_strlit("BorshIoError");
    assert("BorshIoError"@.len() == 12 && "BorshIoError"@[0] == 'B' && "BorshIoError"@[9] == 'r' && "BorshIoError"@[10] == 'o');
    reveal_strlit("ComputeBudgetExceeded");
    assert("ComputeBudgetExceeded"@.len() == 21 && "ComputeBudgetExceeded"@[0] == 'C' && "ComputeBudgetExceeded"@[9] == 'd' && "ComputeBudgetExceeded"@[10] == 'g');
    // A name's length and its characters at 0, 9 and 10 tell it apart from
    // every other name here.
    match e {
        InstructionError::GenericError => {
            reveal_strlit("GenericError");
            assert("GenericError"@.len() == 12 && "GenericError"@[0] == 'G' && "GenericError"@[9] == 'r' && "GenericError"@[10] == 'o');
        },
        InstructionError::InvalidArgument => {
            reveal_strlit("InvalidArgument");
            assert("InvalidArgument"@.len() == 15 && "InvalidArgument"@[0] == 'I' && "InvalidArgument"@[9] == 'g' && "InvalidArgument"@[10] == 'u');
        },
        InstructionError::InvalidInstructionData => {
            reveal_strlit("InvalidInstructionData");
            assert("InvalidInstructionData"@.len() == 22 && "InvalidInstructionData"@[0] == 'I' && "InvalidInstructionData"@[9] == 's' && "InvalidInstructionData"@[10] == 't');
        },
        InstructionError::InvalidAccountData => {
            reveal_strlit("InvalidAccountData");
            assert("InvalidAccountData"@.len() == 18 && "InvalidAccountData"@[0] == 'I' && "InvalidAccountData"@[9] == 'c' && "InvalidAccountData"@[10] == 'o');
        },
        InstructionError::AccountDataTooSmall => {
            reveal_strlit("AccountDataTooSmall");
            assert("AccountDataTooSmall"@.len() == 19 && "AccountDataTooSmall"@[0] == 'A' && "AccountDataTooSmall"@[9] == 't' && "AccountDataTooSmall"@[10] == 'a');
        },
        InstructionError::InsufficientFunds => {
            reveal_strlit("InsufficientFunds");
            assert("InsufficientFunds"@.len() == 17 && "InsufficientFunds"@[0] == 'I' && "InsufficientFunds"@[9] == 'e' && "InsufficientFunds"@[10] == 'n');
        },
        InstructionError::IncorrectProgramId => {
            reveal_strlit("IncorrectProgramId");
            assert("IncorrectProgramId"@.len() == 18 && "IncorrectProgramId"@[0] == 'I' && "IncorrectProgramId"@[9] == 'P' && "IncorrectProgramId"@[10] == 'r');
        },
        InstructionError::MissingRequiredSignature => {
            reveal_strlit("MissingRequiredSignature");
            assert("MissingRequiredSignature"@.len() == 24 && "MissingRequiredSignature"@[0] == 'M' && "MissingRequiredSignature"@[9] == 'q' && "MissingRequiredSignature"@[10] == 'u');
        },
        InstructionError::AccountAlreadyInitialized => {
            reveal_strlit("AccountAlreadyInitialized");
            assert("AccountAlreadyInitialized"@.len() == 25 && "AccountAlreadyInitialized"@[0] == 'A' && "AccountAlreadyInitialized"@[9] == 'r' && "AccountAlreadyInitialized"@[10] == 'e');
        },
        InstructionError::UninitializedAccount => {
            reveal_strlit("UninitializedAccount");
            assert("UninitializedAccount"@.len() == 20 && "UninitializedAccount"@[0] == 'U' && "UninitializedAccount"@[9] == 'i' && "UninitializedAccount"@[10] == 'z');
        },
        InstructionError::UnbalancedInstruction => {
            reveal_strlit("UnbalancedInstruction");
            assert("UnbalancedInstruction"@.len() == 21 && "UnbalancedInstruction"@[0] == 'U' && "UnbalancedInstruction"@[9] == 'd' && "UnbalancedInstruction"@[10] == 'I');
        },
        InstructionError::ModifiedProgramId => {
            reveal_strlit("ModifiedProgramId");
            assert("ModifiedProgramId"@.len() == 17 && "ModifiedProgramId"@[0] == 'M' && "ModifiedProgramId"@[9] == 'r' && "ModifiedProgramId"@[10] == 'o');
        },
        InstructionError::ExternalAccountLamportSpend => {
            reveal_strlit("ExternalAccountLamportSpend");
            assert("ExternalAccountLamportSpend"@.len() == 27 && "ExternalAccountLamportSpend"@[0] == 'E' && "ExternalAccountLamportSpend"@[9] == 'c' && "ExternalAccountLamportSpend"@[10] == 'c');
        },
        InstructionError::ExternalAccountDataModified => {
            reveal_strlit("ExternalAccountDataModified");
            assert("ExternalAccountDataModified"@.len() == 27 && "ExternalAccountDataModified"@[0] == 'E' && "ExternalAccountDataModified"@[9] == 'c' && "ExternalAccountDataModified"@[10] == 'c');
        },
        InstructionError::ReadonlyLamportChange => {
            reveal_strlit("ReadonlyLamportChange");
            assert("ReadonlyLamportChange"@.len() == 21 && "ReadonlyLamportChange"@[0] == 'R' && "ReadonlyLamportChange"@[9] == 'a' && "ReadonlyLamportChange"@[10] == 'm');
        },
        InstructionError::ReadonlyDataModified => {
            reveal_strlit("ReadonlyDataModified");
            assert("ReadonlyDataModified"@.len() == 20 && "ReadonlyDataModified"@[0] == 'R' && "ReadonlyDataModified"@[9] == 'a' && "ReadonlyDataModified"@[10] == 't');
        },
        InstructionError::DuplicateAccountIndex => {
            reveal_strlit("DuplicateAccountIndex");
            assert("DuplicateAccountIndex"@.len() == 21 && "DuplicateAccountIndex"@[0] == 'D' && "DuplicateAccountIndex"@[9] == 'A' && "DuplicateAccountIndex"@[10] == 'c');
        },
        InstructionError::ExecutableModified => {
            reveal_strlit("ExecutableModified");
            assert("ExecutableModified"@.len() == 18 && "ExecutableModified"@[0] == 'E' && "ExecutableModified"@[9] == 'e' && "ExecutableModified"@[10] == 'M');
        },
        InstructionError::RentEpochModified => {
            reveal_strlit("RentEpochModified");
            assert("RentEpochModified"@.len() == 17 && "RentEpochModified"@[0] == 'R' && "RentEpochModified"@[9] == 'M' && "RentEpochModified"@[10] == 'o');
        },
        InstructionError::NotEnoughAccountKeys => {
            reveal_strlit("NotEnoughAccountKeys");
            assert("NotEnoughAccountKeys"@.len() == 20 && "NotEnoughAccountKeys"@[0] == 'N' && "NotEnoughAccountKeys"@[9] == 'A' && "NotEnoughAccountKeys"@[10] == 'c');
        },
        InstructionError::AccountDataSizeChanged => {
            reveal_strlit("AccountDataSizeChanged");
            assert("AccountDataSizeChanged"@.len() == 22 && "AccountDataSizeChanged"@[0] == 'A' && "AccountDataSizeChanged"@[9] == 't' && "AccountDataSizeChanged"@[10] == 'a');
        },
        InstructionError::AccountNotExecutable => {
            reveal_strlit("AccountNotExecutable");
            assert("AccountNotExecutable"@.len() == 20 && "AccountNotExecutable"@[0] == 'A' && "AccountNotExecutable"@[9] == 't' && "AccountNotExecutable"@[10] == 'E');
        },
        InstructionError::AccountBorrowFailed => {
            reveal_strlit("AccountBorrowFailed");
            assert("AccountBorrowFailed"@.len() == 19 && "AccountBorrowFailed"@[0] == 'A' && "AccountBorrowFailed"@[9] == 'r' && "AccountBorrowFailed"@[10] == 'r');
        },
        InstructionError::AccountBorrowOutstanding => {
            reveal_strlit("AccountBorrowOutstanding");
            assert("AccountBorrowOutstanding"@.len() == 24 && "AccountBorrowOutstanding"@[0] == 'A' && "AccountBorrowOutstanding"@[9] == 'r' && "AccountBorrowOutstanding"@[10] == 'r');
        },
        InstructionError::DuplicateAccountOutOfSync => {
            reveal_strlit("DuplicateAccountOutOfSync");
            assert("DuplicateAccountOutOfSync"@.len() == 25 && "DuplicateAccountOutOfSync"@[0] == 'D' && "DuplicateAccountOutOfSync"@[9] == 'A' && "DuplicateAccountOutOfSync"@[10] == 'c');
        },
        InstructionError::Custom(_) => {
            reveal_strlit("Custom");
            assert("Custom"@.len() == 6 && "Custom"@[0] == 'C');
        },
        InstructionError::InvalidError => {
            reveal_strlit("InvalidError");
            assert("InvalidError"@.len() == 12 && "InvalidError"@[0] == 'I' && "InvalidError"@[9] == 'r' && "InvalidError"@[10] == 'o');
        },
        InstructionError::ExecutableDataModified => {
            reveal_strlit("ExecutableDataModified");
            assert("ExecutableDataModified"@.len() == 22 && "ExecutableDataModified"@[0] == 'E' && "ExecutableDataModified"@[9] == 'e' && "ExecutableDataModified"@[10] == 'D');
        },
        InstructionError::ExecutableLamportChange => {
            reveal_strlit("ExecutableLamportChange");
            assert("ExecutableLamportChange"@.len() == 23 && "ExecutableLamportChange"@[0] == 'E' && "ExecutableLamportChange"@[9] == 'e' && "ExecutableLamportChange"@[10] == 'L');
        },
        InstructionError::ExecutableAccountNotRentExempt => {
            reveal_strlit("ExecutableAccountNotRentExempt");
            assert("ExecutableAccountNotRentExempt"@.len() == 30 && "ExecutableAccountNotRentExempt"@[0] == 'E' && "ExecutableAccountNotRentExempt"@[9] == 'e' && "ExecutableAccountNotRentExempt"@[10] == 'A');
        },
        InstructionError::UnsupportedProgramId => {
            reveal_strlit("UnsupportedProgramId");
            assert("UnsupportedProgramId"@.len() == 20 && "UnsupportedProgramId"@[0] == 'U' && "UnsupportedProgramId"@[9] == 'e' && "UnsupportedProgramId"@[10] == 'd');
        },
        InstructionError::CallDepth => {
            reveal_strlit("CallDepth");
            assert("CallDepth"@.len() == 9 && "CallDepth"@[0] == 'C');
        },
        InstructionError::MissingAccount => {
            reveal_strlit("MissingAccount");
            assert("MissingAccount"@.len() == 14 && "MissingAccount"@[0] == 'M' && "MissingAccount"@[9] == 'c' && "MissingAccount"@[10] == 'o');
        },
        InstructionError::ReentrancyNotAllowed => {
            reveal_strlit("ReentrancyNotAllowed");
            assert("ReentrancyNotAllowed"@.len() == 20 && "ReentrancyNotAllowed"@[0] == 'R' && "ReentrancyNotAllowed"@[9] == 'y' && "ReentrancyNotAllowed"@[10] == 'N');
        },
        InstructionError::MaxSeedLengthExceeded => {
            reveal_strlit("MaxSeedLengthExceeded");
            assert("MaxSeedLengthExceeded"@.len() == 21 && "MaxSeedLengthExceeded"@[0] == 'M' && "MaxSeedLengthExceeded"@[9] == 'n' && "MaxSeedLengthExceeded"@[10] == 'g');
        },
        InstructionError::InvalidSeeds => {
            reveal_strlit("InvalidSeeds");
            assert("InvalidSeeds"@.len() == 12 && "InvalidSeeds"@[0] == 'I' && "InvalidSeeds"@[9] == 'e' && "InvalidSeeds"@[10] == 'd');
        },
        InstructionError::InvalidRealloc => {
            reveal_strlit("InvalidRealloc");
            assert("InvalidRealloc"@.len() == 14 && "InvalidRealloc"@[0] == 'I' && "InvalidRealloc"@[9] == 'a' && "InvalidRealloc"@[10] == 'l');
        },
        InstructionError::ComputationalBudgetExceeded => {
            reveal_strlit("ComputationalBudgetExceeded");
            assert("ComputationalBudgetExceeded"@.len() == 27 && "ComputationalBudgetExceeded"@[0] == 'C' && "ComputationalBudgetExceeded"@[9] == 'o' && "ComputationalBudgetExceeded"@[10] == 'n');
        },
        InstructionError::PrivilegeEscalation => {
            reveal_strlit("PrivilegeEscalation");
            assert("PrivilegeEscalation"@.len() == 19 && "PrivilegeEscalation"@[0] == 'P' && "PrivilegeEscalation"@[9] == 'E' && "PrivilegeEscalation"@[10] == 's');
        },
        InstructionError::ProgramEnvironmentSetupFailure => {
            reveal_strlit("ProgramEnvironmentSetupFailure");
            assert("ProgramEnvironmentSetupFailure"@.len() == 30 && "ProgramEnvironmentSetupFailure"@[0] == 'P' && "ProgramEnvironmentSetupFailure"@[9] == 'v' && "ProgramEnvironmentSetupFailure"@[10] == 'i');
        },
        InstructionError::ProgramFailedToComplete => {
            reveal_strlit("ProgramFailedToComplete");
            assert("ProgramFailedToComplete"@.len() == 23 && "ProgramFailedToComplete"@[0] == 'P' && "ProgramFailedToComplete"@[9] == 'i' && "ProgramFailedToComplete"@[10] == 'l');
        },
        InstructionError::ProgramFailedToCompile => {
            reveal_strlit("ProgramFailedToCompile");
            assert("ProgramFailedToCompile"@.len() == 22 && "ProgramFailedToCompile"@[0] == 'P' && "ProgramFailedToCompile"@[9] == 'i' && "ProgramFailedToCompile"@[10] == 'l');
        },
        InstructionError::Immutable => {
            reveal_strlit("Immutable");
            assert("Immutable"@.len() == 9 && "Immutable"@[0] == 'I');
        },
        InstructionError::IncorrectAuthority => {
            reveal_strlit("IncorrectAuthority");
            assert("IncorrectAuthority"@.len() == 18 && "IncorrectAuthority"@[0] == 'I' && "IncorrectAuthority"@[9] == 'A' && "IncorrectAuthority"@[10] == 'u');
        },
        InstructionError::BorshIoError => {
            reveal_strlit("BorshIoError");
            assert("BorshIoError"@.len() == 12 && "BorshIoError"@[0] == 'B' && "BorshIoError"@[9] == 'r' && "BorshIoError"@[10] == 'o');
        },
        InstructionError::AccountNotRentExempt => {
            reveal_strlit("AccountNotRentExempt");
            assert("AccountNotRentExempt"@.len() == 20 && "AccountNotRentExempt"@[0] == 'A' && "AccountNotRentExempt"@[9] == 't' && "AccountNotRentExempt"@[10] == 'R');
        },
        InstructionError::InvalidAccountOwner => {
            reveal_strlit("InvalidAccountOwner");
            assert("InvalidAccountOwner"@.len() == 19 && "InvalidAccountOwner"@[0] == 'I' && "InvalidAccountOwner"@[9] == 'c' && "InvalidAccountOwner"@[10] == 'o');
        },
        InstructionError::ArithmeticOverflow => {
            reveal_strlit("ArithmeticOverflow");
            assert("ArithmeticOverflow"@.len() == 18 && "ArithmeticOverflow"@[0] == 'A' && "ArithmeticOverflow"@[9] == 'c' && "ArithmeticOverflow"@[10] == 'O');
        },
        InstructionError::UnsupportedSysvar => {
            reveal_strlit("UnsupportedSysvar");
            assert("UnsupportedSysvar"@.len() == 17 && "UnsupportedSysvar"@[0] == 'U' && "UnsupportedSysvar"@[9] == 'e' && "UnsupportedSysvar"@[10] == 'd');
        },
        InstructionError::IllegalOwner => {
            reveal_strlit("IllegalOwner");
            assert("IllegalOwner"@.len() == 12 && "IllegalOwner"@[0] == 'I' && "IllegalOwner"@[9] == 'n' && "IllegalOwner"@[10] == 'e');
        },
        InstructionError::MaxAccountsDataAllocationsExceeded => {
            reveal_strlit("MaxAccountsDataAllocationsExceeded");
            assert("MaxAccountsDataAllocationsExceeded"@.len() == 34 && "MaxAccountsDataAllocationsExceeded"@[0] == 'M' && "MaxAccountsDataAllocationsExceeded"@[9] == 't' && "MaxAccountsDataAllocationsExceeded"@[10] == 's');
        },
        InstructionError::MaxAccountsExceeded => {
            reveal_strlit("MaxAccountsExceeded");
            assert("MaxAccountsExceeded"@.len() == 19 && "MaxAccountsExceeded"@[0] == 'M' && "MaxAccountsExceeded"@[9] == 't' && "MaxAccountsExceeded"@[10] == 's');
        },
        InstructionError::MaxInstructionTraceLengthExceeded => {
            reveal_strlit("MaxInstructionTraceLengthExceeded");
            assert("MaxInstructionTraceLengthExceeded"@.len() == 33 && "MaxInstructionTraceLengthExceeded"@[0] == 'M' && "MaxInstructionTraceLengthExceeded"@[9] == 'c' && "MaxInstructionTraceLengthExceeded"@[10] == 't');
        },
        InstructionError::BuiltinProgramsMustConsumeComputeUnits => {
            reveal_strlit("BuiltinProgramsMustConsumeComputeUnits");
            assert("BuiltinProgramsMustConsumeComputeUnits"@.len() == 38 && "BuiltinProgramsMustConsumeComputeUnits"@[0] == 'B' && "BuiltinProgramsMustConsumeComputeUnits"@[9] == 'o' && "BuiltinProgramsMustConsumeComputeUnits"@[10] == 'g');
        },
    }
}

impl ProgramError {
    /// The program error that an instruction error is reported as: its named
    /// counterpart where there is one, else `Runtime` with the error's name.
    pub fn from_instruction_error(e: &InstructionError) -> (r: ProgramError)
        ensures
            spec_program_error_kind(*e) matches Some(p) ==> r == p,
            spec_program_error_kind(*e) is None ==> (r matches ProgramError::Runtime(m) && m@
                == spec_error_name(*e)),
            named_program_error(spec_error_name(*e)) matches Some(p) ==> r == p,
            r matches ProgramError::Runtime(m) ==> named_program_error(m@) is None,
    {
        proof {
            law_named_errors_keep_their_variant(*e);
        }
        match e {
            InstructionError::InvalidArgument => ProgramError::InvalidArgument,
            InstructionError::InvalidInstructionData => ProgramError::InvalidInstructionData,
            InstructionError::InvalidAccountData => ProgramError::InvalidAccountData,
            InstructionError::AccountDataTooSmall => ProgramError::AccountDataTooSmall,
            InstructionError::InsufficientFunds => ProgramError::InsufficientFunds,
            InstructionError::IncorrectProgramId => ProgramError::IncorrectProgramId,
            InstructionError::MissingRequiredSignature => ProgramError::MissingRequiredSignature,
            InstructionError::AccountAlreadyInitialized => ProgramError::AccountAlreadyInitialized,
            InstructionError::UninitializedAccount => ProgramError::UninitializedAccount,
            InstructionError::MissingAccount => ProgramError::MissingAccount,
            InstructionError::NotEnoughAccountKeys => ProgramError::MissingAccount,
            InstructionError::InvalidSeeds => ProgramError::InvalidSeeds,
            InstructionError::ArithmeticOverflow => ProgramError::ArithmeticOverflow,
            InstructionError::AccountNotRentExempt => ProgramError::AccountNotRentExempt,
            InstructionError::InvalidAccountOwner => ProgramError::InvalidAccountOwner,
            InstructionError::IncorrectAuthority => ProgramError::IncorrectAuthority,
            InstructionError::Immutable => ProgramError::Immutable,
            InstructionError::BorshIoError => ProgramError::BorshIoError,
            InstructionError::ComputationalBudgetExceeded => ProgramError::ComputeBudgetExceeded,
            InstructionError::Custom(n) => ProgramError::Custom(*n),
            _ => ProgramError::Runtime(e.name().to_owned()),
        }
    }
}

/// Status code of the C interface: success.
pub const QUASAR_OK: i32 = 0;

/// Status code of the C interface: a pointer argument was null.
pub const QUASAR_ERR_NULL_POINTER: i32 = -1;

/// Status code of the C interface: a string was not valid UTF-8.
pub const QUASAR_ERR_INVALID_UTF8: i32 = -2;

/// Status code of the C interface: a program could not be loaded.
pub const QUASAR_ERR_PROGRAM_LOAD: i32 = -3;

/// Status code of the C interface: an execution could not be carried out.
pub const QUASAR_ERR_EXECUTION: i32 = -4;

/// Status code of the C interface: an index was out of bounds.
pub const QUASAR_ERR_OUT_OF_BOUNDS: i32 = -5;

/// Status code of the C interface: an internal failure.
pub const QUASAR_ERR_INTERNAL: i32 = -99;

/// The message of the last failure of the C interface, if any.
pub struct LastError {
    pub message: Option<String>,
}

impl LastError {
    /// A slot with no message.
    pub fn new() -> (r: LastError)
        ensures
            r.message is None,
    {
        LastError { message: None }
    }
}

/// Whether some byte of `b` is NUL: such a text cannot be handed to C.
pub open spec fn has_nul(b: Seq<u8>) -> bool {
    exists|i: int| 0 <= i < b.len() && b[i] == 0
}

/// Whether a byte string holds a NUL byte.
fn contains_nul(b: &[u8]) -> (r: bool)
    ensures
        r == has_nul(b@),
{
    let mut i: usize = 0;
    while i < b.len()
        invariant
            i <= b@.len(),
            forall|j: int| 0 <= j < i ==> b@[j] != 0,
        decreases b@.len() - i,
    {
        if b[i] == 0 {
            return true;
        }
        i = i + 1;
    }
    false
}

/// Records `msg` as the last error message. A message with a NUL byte
/// cannot be handed to C and leaves no message.
pub fn set_last_error(slot: &mut LastError, msg: String)
    ensures
        has_nul(encode_utf8(msg@)) ==> final(slot).message is None,
        !has_nul(encode_utf8(msg@)) ==> (final(slot).message matches Some(m) && m@ == msg@),
{
    if contains_nul(msg.as_str().as_bytes()) {
        slot.message = None;
    } else {
        slot.message = Some(msg);
    }
}

/// Forgets the last error message.
pub fn clear_last_error(slot: &mut LastError)
    ensures
        final(slot).message is None,
{
    slot.message = None;
}

} // verus!
