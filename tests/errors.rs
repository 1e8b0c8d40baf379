use deoxys_core::errors::StarknetRpcApiError;
use deoxys_core::store::StorageError;

#[test]
fn codes_follow_the_protocol() {
    assert_eq!(StarknetRpcApiError::FailedToReceiveTxn.code(), 1);
    assert_eq!(StarknetRpcApiError::ContractNotFound.code(), 20);
    assert_eq!(StarknetRpcApiError::BlockNotFound.code(), 24);
    assert_eq!(StarknetRpcApiError::TxnHashNotFound.code(), 29);
    assert_eq!(StarknetRpcApiError::ErrUnexpectedError { data: String::new() }.code(), 63);
    assert_eq!(StarknetRpcApiError::InternalServerError.code(), 500);
    assert_eq!(StarknetRpcApiError::UnimplementedMethod.code(), 501);
    assert_eq!(StarknetRpcApiError::ProofLimitExceeded.code(), 10000);
}

#[test]
fn only_unexpected_error_has_data() {
    let e = StarknetRpcApiError::ErrUnexpectedError { data: "boom".to_string() };
    assert_eq!(e.data(), Some("boom".to_string()));
    assert_eq!(StarknetRpcApiError::BlockNotFound.data(), None);
}

#[test]
fn messages() {
    assert_eq!(StarknetRpcApiError::BlockNotFound.message(), "Block not found");
    assert_eq!(StarknetRpcApiError::NoBlocks.message(), "There are no blocks");
}

#[test]
fn storage_errors_become_unexpected() {
    let e = StarknetRpcApiError::from_storage_error(StorageError::Codec);
    assert_eq!(e.data(), Some("DB error".to_string()));
    assert_eq!(e.code(), 63);
}
