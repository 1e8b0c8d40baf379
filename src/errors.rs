//! Errors of the node's query interface, with their protocol codes.
use vstd::prelude::*;

use crate::store::StorageError;

verus! {

/// An error answered to a query, as the Starknet RPC interface numbers it.
#[derive(Debug, Clone)]
pub enum StarknetRpcApiError {
    /// Failed to write transaction.
    FailedToReceiveTxn,
    /// Contract not found.
    ContractNotFound,
    /// Block not found.
    BlockNotFound,
    /// Invalid transaction hash.
    InvalidTxnHash,
    /// Invalid block hash.
    InvalidBlockHash,
    /// Invalid transaction index in a block.
    InvalidTxnIndex,
    /// Class hash not found.
    ClassHashNotFound,
    /// Transaction hash not found.
    TxnHashNotFound,
    /// Requested page size is too big.
    PageSizeTooBig,
    /// There are no blocks.
    NoBlocks,
    /// The supplied continuation token is invalid or unknown.
    InvalidContinuationToken,
    /// Too many keys provided in a filter.
    TooManyKeysInFilter,
    /// Failed to fetch pending transactions.
    FailedToFetchPendingTransactions,
    /// Contract error.
    ContractError,
    /// Transaction execution error.
    TxnExecutionError,
    /// Invalid contract class.
    InvalidContractClass,
    /// Class already declared.
    ClassAlreadyDeclared,
    /// Invalid transaction nonce.
    InvalidTxnNonce,
    /// Max fee is smaller than the minimal transaction cost (validation plus fee transfer).
    InsufficientMaxFee,
    /// Account balance is smaller than the transaction's max_fee.
    InsufficientAccountBalance,
    /// Account validation failed.
    ValidationFailure,
    /// Compilation failed.
    CompilationFailed,
    /// Contract class size is too large.
    ContractClassSizeTooLarge,
    /// Sender address is not an account contract.
    NonAccount,
    /// A transaction with the same hash already exists in the mempool.
    DuplicateTxn,
    /// The compiled class hash did not match the one supplied in the transaction.
    CompiledClassHashMismatch,
    /// The transaction version is not supported.
    UnsupportedTxnVersion,
    /// The contract class version is not supported.
    UnsupportedContractClassVersion,
    /// An unexpected error occurred.
    ErrUnexpectedError { data: String },
    /// Internal server error.
    InternalServerError,
    /// Unimplemented method.
    UnimplementedMethod,
    /// Too many storage keys requested.
    ProofLimitExceeded,
}

/// The protocol code of each error.
pub open spec fn code_of(e: StarknetRpcApiError) -> i32 {
    match e {
        StarknetRpcApiError::FailedToReceiveTxn => 1,
        StarknetRpcApiError::ContractNotFound => 20,
        StarknetRpcApiError::BlockNotFound => 24,
        StarknetRpcApiError::InvalidTxnHash => 25,
        StarknetRpcApiError::InvalidBlockHash => 26,
        StarknetRpcApiError::InvalidTxnIndex => 27,
        StarknetRpcApiError::ClassHashNotFound => 28,
        StarknetRpcApiError::TxnHashNotFound => 29,
        StarknetRpcApiError::PageSizeTooBig => 31,
        StarknetRpcApiError::NoBlocks => 32,
        StarknetRpcApiError::InvalidContinuationToken => 33,
        StarknetRpcApiError::TooManyKeysInFilter => 34,
        StarknetRpcApiError::FailedToFetchPendingTransactions => 38,
        StarknetRpcApiError::ContractError => 40,
        StarknetRpcApiError::TxnExecutionError => 41,
        StarknetRpcApiError::InvalidContractClass => 50,
        StarknetRpcApiError::ClassAlreadyDeclared => 51,
        StarknetRpcApiError::InvalidTxnNonce => 52,
        StarknetRpcApiError::InsufficientMaxFee => 53,
        StarknetRpcApiError::InsufficientAccountBalance => 54,
        StarknetRpcApiError::ValidationFailure => 55,
        StarknetRpcApiError::CompilationFailed => 56,
        StarknetRpcApiError::ContractClassSizeTooLarge => 57,
        StarknetRpcApiError::NonAccount => 58,
        StarknetRpcApiError::DuplicateTxn => 59,
        StarknetRpcApiError::CompiledClassHashMismatch => 60,
        StarknetRpcApiError::UnsupportedTxnVersion => 61,
        StarknetRpcApiError::UnsupportedContractClassVersion => 62,
        StarknetRpcApiError::ErrUnexpectedError { .. } => 63,
        StarknetRpcApiError::InternalServerError => 500,
        StarknetRpcApiError::UnimplementedMethod => 501,
        StarknetRpcApiError::ProofLimitExceeded => 10000,
    }
}

/// The message of each error.
pub open spec fn message_of(e: StarknetRpcApiError) -> Seq<char> {
    match e {
        StarknetRpcApiError::FailedToReceiveTxn => "Failed to write transaction"@,
        StarknetRpcApiError::ContractNotFound => "Contract not found"@,
        StarknetRpcApiError::BlockNotFound => "Block not found"@,
        StarknetRpcApiError::InvalidTxnHash => "Invalid transaction hash"@,
        StarknetRpcApiError::InvalidBlockHash => "Invalid tblock hash"@,
        StarknetRpcApiError::InvalidTxnIndex => "Invalid transaction index in a block"@,
        StarknetRpcApiError::ClassHashNotFound => "Class hash not found"@,
        StarknetRpcApiError::TxnHashNotFound => "Transaction hash not found"@,
        StarknetRpcApiError::PageSizeTooBig => "Requested page size is too big"@,
        StarknetRpcApiError::NoBlocks => "There are no blocks"@,
        StarknetRpcApiError::InvalidContinuationToken => "The supplied continuation token is invalid or unknown"@,
        StarknetRpcApiError::TooManyKeysInFilter => "Too many keys provided in a filter"@,
        StarknetRpcApiError::FailedToFetchPendingTransactions => "Failed to fetch pending transactions"@,
        StarknetRpcApiError::ContractError => "Contract error"@,
        StarknetRpcApiError::TxnExecutionError => "Transaction execution error"@,
        StarknetRpcApiError::InvalidContractClass => "Invalid contract class"@,
        StarknetRpcApiError::ClassAlreadyDeclared => "Class already declared"@,
        StarknetRpcApiError::InvalidTxnNonce => "Invalid transaction nonce"@,
        StarknetRpcApiError::InsufficientMaxFee => "Max fee is smaller than the minimal transaction cost (validation plus fee transfer)"@,
        StarknetRpcApiError::InsufficientAccountBalance => "Account balance is smaller than the transaction's max_fee"@,
        StarknetRpcApiError::ValidationFailure => "Account validation failed"@,
        StarknetRpcApiError::CompilationFailed => "Compilation failed"@,
        StarknetRpcApiError::ContractClassSizeTooLarge => "Contract class size is too large"@,
        StarknetRpcApiError::NonAccount => "Sender address is not an account contract"@,
        StarknetRpcApiError::DuplicateTxn => "A transaction with the same hash already exists in the mempool"@,
        StarknetRpcApiError::CompiledClassHashMismatch => "The compiled class hash did not match the one supplied in the transaction"@,
        StarknetRpcApiError::UnsupportedTxnVersion => "The transaction version is not supported"@,
        StarknetRpcApiError::UnsupportedContractClassVersion => "The contract class version is not supported"@,
        StarknetRpcApiError::ErrUnexpectedError { .. } => "An unexpected error occurred"@,
        StarknetRpcApiError::InternalServerError => "Internal server error"@,
        StarknetRpcApiError::UnimplementedMethod => "Unimplemented method"@,
        StarknetRpcApiError::ProofLimitExceeded => "Too many storage keys requested"@,
    }
}

impl StarknetRpcApiError {
    /// The protocol code of this error.
    pub fn code(&self) -> (r: i32)
        ensures
            r == code_of(*self),
    {
        match self {
            StarknetRpcApiError::FailedToReceiveTxn => 1,
            StarknetRpcApiError::ContractNotFound => 20,
            StarknetRpcApiError::BlockNotFound => 24,
            StarknetRpcApiError::InvalidTxnHash => 25,
            StarknetRpcApiError::InvalidBlockHash => 26,
            StarknetRpcApiError::InvalidTxnIndex => 27,
            StarknetRpcApiError::ClassHashNotFound => 28,
            StarknetRpcApiError::TxnHashNotFound => 29,
            StarknetRpcApiError::PageSizeTooBig => 31,
            StarknetRpcApiError::NoBlocks => 32,
            StarknetRpcApiError::InvalidContinuationToken => 33,
            StarknetRpcApiError::TooManyKeysInFilter => 34,
            StarknetRpcApiError::FailedToFetchPendingTransactions => 38,
            StarknetRpcApiError::ContractError => 40,
            StarknetRpcApiError::TxnExecutionError => 41,
            StarknetRpcApiError::InvalidContractClass => 50,
            StarknetRpcApiError::ClassAlreadyDeclared => 51,
            StarknetRpcApiError::InvalidTxnNonce => 52,
            StarknetRpcApiError::InsufficientMaxFee => 53,
            StarknetRpcApiError::InsufficientAccountBalance => 54,
            StarknetRpcApiError::ValidationFailure => 55,
            StarknetRpcApiError::CompilationFailed => 56,
            StarknetRpcApiError::ContractClassSizeTooLarge => 57,
            StarknetRpcApiError::NonAccount => 58,
            StarknetRpcApiError::DuplicateTxn => 59,
            StarknetRpcApiError::CompiledClassHashMismatch => 60,
            StarknetRpcApiError::UnsupportedTxnVersion => 61,
            StarknetRpcApiError::UnsupportedContractClassVersion => 62,
            StarknetRpcApiError::ErrUnexpectedError { .. } => 63,
            StarknetRpcApiError::InternalServerError => 500,
            StarknetRpcApiError::UnimplementedMethod => 501,
            StarknetRpcApiError::ProofLimitExceeded => 10000,
        }
    }

    /// The human-readable message of this error.
    pub fn message(&self) -> (r: &'static str)
        ensures
            r@ == message_of(*self),
    {
        match self {
            StarknetRpcApiError::FailedToReceiveTxn => "Failed to write transaction",
            StarknetRpcApiError::ContractNotFound => "Contract not found",
            StarknetRpcApiError::BlockNotFound => "Block not found",
            StarknetRpcApiError::InvalidTxnHash => "Invalid transaction hash",
            StarknetRpcApiError::InvalidBlockHash => "Invalid tblock hash",
            StarknetRpcApiError::InvalidTxnIndex => "Invalid transaction index in a block",
            StarknetRpcApiError::ClassHashNotFound => "Class hash not found",
            StarknetRpcApiError::TxnHashNotFound => "Transaction hash not found",
            StarknetRpcApiError::PageSizeTooBig => "Requested page size is too big",
            StarknetRpcApiError::NoBlocks => "There are no blocks",
            StarknetRpcApiError::InvalidContinuationToken => "The supplied continuation token is invalid or unknown",
            StarknetRpcApiError::TooManyKeysInFilter => "Too many keys provided in a filter",
            StarknetRpcApiError::FailedToFetchPendingTransactions => "Failed to fetch pending transactions",
            StarknetRpcApiError::ContractError => "Contract error",
            StarknetRpcApiError::TxnExecutionError => "Transaction execution error",
            StarknetRpcApiError::InvalidContractClass => "Invalid contract class",
            StarknetRpcApiError::ClassAlreadyDeclared => "Class already declared",
            StarknetRpcApiError::InvalidTxnNonce => "Invalid transaction nonce",
            StarknetRpcApiError::InsufficientMaxFee => "Max fee is smaller than the minimal transaction cost (validation plus fee transfer)",
            StarknetRpcApiError::InsufficientAccountBalance => "Account balance is smaller than the transaction's max_fee",
            StarknetRpcApiError::ValidationFailure => "Account validation failed",
            StarknetRpcApiError::CompilationFailed => "Compilation failed",
            StarknetRpcApiError::ContractClassSizeTooLarge => "Contract class size is too large",
            StarknetRpcApiError::NonAccount => "Sender address is not an account contract",
            StarknetRpcApiError::DuplicateTxn => "A transaction with the same hash already exists in the mempool",
            StarknetRpcApiError::CompiledClassHashMismatch => "The compiled class hash did not match the one supplied in the transaction",
            StarknetRpcApiError::UnsupportedTxnVersion => "The transaction version is not supported",
            StarknetRpcApiError::UnsupportedContractClassVersion => "The contract class version is not supported",
            StarknetRpcApiError::ErrUnexpectedError { .. } => "An unexpected error occurred",
            StarknetRpcApiError::InternalServerError => "Internal server error",
            StarknetRpcApiError::UnimplementedMethod => "Unimplemented method",
            StarknetRpcApiError::ProofLimitExceeded => "Too many storage keys requested",
        }
    }

    /// The extra data carried by the error, which only an unexpected error has.
    pub fn data(&self) -> (r: Option<String>)
        ensures
            match *self {
                StarknetRpcApiError::ErrUnexpectedError { data } => r == Some(data),
                _ => r is None,
            },
    {
        match self {
            StarknetRpcApiError::ErrUnexpectedError { data } => Some(data.clone()),
            _ => None,
        }
    }

    /// A failure of the storage layer, as the query interface reports it.
    pub fn from_storage_error(_e: StorageError) -> (r: StarknetRpcApiError)
        ensures
            r matches StarknetRpcApiError::ErrUnexpectedError { data } && data@ == "DB error"@,
    {
        StarknetRpcApiError::ErrUnexpectedError { data: "DB error".to_owned() }
    }
}

} // verus!
