use ferry_runtime::core_errors::{
    AdbError, ChunkSizeError, DiscoveryError, FrameError, ManifestError, NoiseError, OpError,
    PairingError, PathError, PeerError, RootsError, RpcError, TcpError, TransferError,
    VersionError, WireError,
};
use ferry_runtime::errors::{
    bad_config, from_adb, from_chunk_size, from_discovery, from_frame, from_manifest, from_noise,
    from_offer, from_op, from_path, from_peer, from_roots, from_rpc, from_tcp, from_transfer,
    from_version, from_wire, peer_shares_nothing,
};
use ferry_runtime::types::FerryError;

fn code_of(error: &FerryError) -> String {
    let FerryError::Failed { code, .. } = error;
    code.clone()
}

fn detail_of(error: &FerryError) -> Option<String> {
    let FerryError::Failed { detail, .. } = error;
    detail.clone()
}

#[test]
fn a_remote_refusal_reports_the_peer_code() {
    let error = from_rpc(&RpcError::Remote(OpError::NotFound));
    assert_eq!(code_of(&error), "OpError::NotFound");
}

#[test]
fn a_wrapped_remote_refusal_still_reaches_the_peer_code() {
    let error = from_transfer(&TransferError::Rpc(RpcError::Remote(OpError::IsADirectory)));
    assert_eq!(code_of(&error), "OpError::IsADirectory");
}

#[test]
fn a_commitment_mismatch_reaches_the_pairing_screen_as_itself() {
    let error = from_tcp(&TcpError::Noise(NoiseError::CommitmentMismatch));
    assert_eq!(code_of(&error), "NoiseError::CommitmentMismatch");
}

#[test]
fn a_local_storage_failure_keeps_the_transfer_code() {
    let error = from_transfer(&TransferError::Local(OpError::PermissionDenied));
    assert_eq!(code_of(&error), "TransferError::Local");
}

#[test]
fn no_code_carries_a_detail_unless_its_row_asks_for_one() {
    let FerryError::Failed { detail, .. } = from_op(OpError::NotFound);
    assert_eq!(detail, None);
}

#[test]
fn every_family_reports_its_own_code() {
    assert_eq!(code_of(&from_wire(&WireError::TooLong)), "WireError::TooLong");
    assert_eq!(code_of(&from_path(PathError::Absolute)), "PathError::Absolute");
    assert_eq!(code_of(&from_frame(&FrameError::Io)), "FrameError::Io");
    assert_eq!(code_of(&from_noise(&NoiseError::Crypto)), "NoiseError::Crypto");
    assert_eq!(code_of(&from_version(&VersionError::NotFerry)), "VersionError::NotFerry");
    assert_eq!(code_of(&from_offer(PairingError::OfferExpired)), "PairingError::OfferExpired");
    assert_eq!(code_of(&from_tcp(&TcpError::Timeout)), "TcpError::Timeout");
    assert_eq!(
        code_of(&from_chunk_size(ChunkSizeError::NotPowerOfTwo)),
        "ChunkSizeError::NotPowerOfTwo"
    );
    assert_eq!(
        code_of(&from_manifest(ManifestError::RootMismatch)),
        "ManifestError::RootMismatch"
    );
    assert_eq!(code_of(&from_peer(&PeerError::TooMany)), "PeerError::TooMany");
    assert_eq!(code_of(&from_roots(RootsError::RootOverlaps)), "RootsError::RootOverlaps");
    assert_eq!(code_of(&from_discovery(&DiscoveryError::Mdns)), "DiscoveryError::Mdns");
    assert_eq!(code_of(&from_adb(&AdbError::NotFound)), "AdbError::NotFound");
}

#[test]
fn a_bad_configuration_says_what_is_wrong() {
    let error = bad_config("the folder is missing");
    assert_eq!(code_of(&error), "Runtime::BadConfig");
    assert_eq!(detail_of(&error), Some("the folder is missing".to_owned()));
}

#[test]
fn a_device_that_shares_nothing_is_named() {
    let error = peer_shares_nothing("Pixel");
    assert!(detail_of(&error).unwrap().contains("Pixel"));
}
