//! Turning every error of the layers below into one [`FerryError`].
//!
//! A wrapper unwraps when its own code says nothing the inner code does not
//! already say, and keeps its own code when it names the part of Ferry that
//! failed, which the inner code cannot know. Only a configuration failure and
//! a chunk that failed verification carry a detail.

use crate::core_errors::{
    AdbError, ChunkSizeError, DiscoveryError, FrameError, ManifestError, NoiseError, OpError,
    PairingError, PathError, PeerError, RootsError, RpcError, TcpError, TransferError,
    VersionError, WireError,
};
use crate::text::{copy_of, copy_opt, decimal, decimal_text, opt_view};
use crate::types::FerryError;
use vstd::prelude::*;

verus! {

/// `error` carries `code` and nothing else.
pub open spec fn is_failed(error: FerryError, code: Seq<char>) -> bool {
    match error {
        FerryError::Failed { code: c, detail } => c@ == code && detail is None,
    }
}

/// `error` carries `code` and `detail`.
pub open spec fn is_failed_with(error: FerryError, code: Seq<char>, detail: Seq<char>) -> bool {
    match error {
        FerryError::Failed { code: c, detail: d } => c@ == code && (d matches Some(t) && t@
            == detail),
    }
}

/// What an error says: its code, and its detail.
pub open spec fn error_view(error: FerryError) -> (Seq<char>, Option<Seq<char>>) {
    match error {
        FerryError::Failed { code, detail } => (code@, opt_view(detail)),
    }
}

/// What an optional error says.
pub open spec fn opt_error_view(error: Option<FerryError>) -> Option<
    (Seq<char>, Option<Seq<char>>),
> {
    match error {
        Some(e) => Some(error_view(e)),
        None => None,
    }
}

/// The same error once more.
pub fn copy_error(error: &FerryError) -> (copy: FerryError)
    ensures
        error_view(copy) == error_view(*error),
{
    match error {
        FerryError::Failed { code, detail } => FerryError::Failed {
            code: copy_of(code.as_str()),
            detail: copy_opt(detail),
        },
    }
}

/// The same optional error once more.
pub fn copy_opt_error(error: &Option<FerryError>) -> (copy: Option<FerryError>)
    ensures
        opt_error_view(copy) == opt_error_view(*error),
{
    match error {
        Some(e) => Some(copy_error(e)),
        None => None,
    }
}

/// Builds an error that carries a code and nothing else.
pub fn failed(code: &str) -> (error: FerryError)
    ensures
        is_failed(error, code@),
{
    FerryError::Failed { code: copy_of(code), detail: None }
}

/// Builds an error that carries a code and a detail.
pub fn failed_with(code: &str, detail: &str) -> (error: FerryError)
    ensures
        is_failed_with(error, code@, detail@),
{
    FerryError::Failed { code: copy_of(code), detail: Some(copy_of(detail)) }
}

/// Ferry could not start, and this sentence says which part failed.
pub fn bad_config(detail: &str) -> (error: FerryError)
    ensures
        is_failed_with(error, "Runtime::BadConfig"@, detail@),
{
    failed_with("Runtime::BadConfig", detail)
}

/// A push has nowhere to land on `peer_name`, because that device shares no
/// folder at all.
pub fn peer_shares_nothing(peer_name: &str) -> (error: FerryError)
    ensures
        is_failed_with(error, "Runtime::PeerSharesNothing"@, peer_name@),
{
    failed_with("Runtime::PeerSharesNothing", peer_name)
}

/// What [`from_wire`] reports.
pub open spec fn wire_code(error: WireError) -> Seq<char> {
    match error {
        WireError::UnexpectedEnd => "WireError::UnexpectedEnd"@,
        WireError::TooLong => "WireError::TooLong"@,
        WireError::NotUtf8 => "WireError::NotUtf8"@,
        WireError::UnknownTag(_) => "WireError::UnknownTag"@,
        WireError::TrailingBytes => "WireError::TrailingBytes"@,
        WireError::InvalidPath => "WireError::InvalidPath"@,
        WireError::BadManifest => "WireError::BadManifest"@,
    }
}

/// The code for a decoding failure.
pub fn from_wire(error: &WireError) -> (reported: FerryError)
    ensures
        is_failed(reported, wire_code(*error)),
{
    match error {
        WireError::UnexpectedEnd => failed("WireError::UnexpectedEnd"),
        WireError::TooLong => failed("WireError::TooLong"),
        WireError::NotUtf8 => failed("WireError::NotUtf8"),
        WireError::UnknownTag(_) => failed("WireError::UnknownTag"),
        WireError::TrailingBytes => failed("WireError::TrailingBytes"),
        WireError::InvalidPath => failed("WireError::InvalidPath"),
        WireError::BadManifest => failed("WireError::BadManifest"),
    }
}

/// What [`from_path`] reports.
pub open spec fn path_code(error: PathError) -> Seq<char> {
    match error {
        PathError::Empty => "PathError::Empty"@,
        PathError::Absolute => "PathError::Absolute"@,
        PathError::ParentComponent => "PathError::ParentComponent"@,
        PathError::CurrentComponent => "PathError::CurrentComponent"@,
        PathError::NulByte => "PathError::NulByte"@,
        PathError::Backslash => "PathError::Backslash"@,
        PathError::TooLong => "PathError::TooLong"@,
    }
}

/// The code for a path that failed validation.
pub fn from_path(error: PathError) -> (reported: FerryError)
    ensures
        is_failed(reported, path_code(error)),
{
    match error {
        PathError::Empty => failed("PathError::Empty"),
        PathError::Absolute => failed("PathError::Absolute"),
        PathError::ParentComponent => failed("PathError::ParentComponent"),
        PathError::CurrentComponent => failed("PathError::CurrentComponent"),
        PathError::NulByte => failed("PathError::NulByte"),
        PathError::Backslash => failed("PathError::Backslash"),
        PathError::TooLong => failed("PathError::TooLong"),
    }
}

/// What [`from_op`] reports.
pub open spec fn op_code(error: OpError) -> Seq<char> {
    match error {
        OpError::NotFound => "OpError::NotFound"@,
        OpError::NotADirectory => "OpError::NotADirectory"@,
        OpError::IsADirectory => "OpError::IsADirectory"@,
        OpError::NotEmpty => "OpError::NotEmpty"@,
        OpError::AlreadyExists => "OpError::AlreadyExists"@,
        OpError::PermissionDenied => "OpError::PermissionDenied"@,
        OpError::InvalidPath => "OpError::InvalidPath"@,
        OpError::RangeTooLarge => "OpError::RangeTooLarge"@,
        OpError::Unsupported => "OpError::Unsupported"@,
        OpError::Internal => "OpError::Internal"@,
    }
}

/// The code for a refused file operation.
pub fn from_op(error: OpError) -> (reported: FerryError)
    ensures
        is_failed(reported, op_code(error)),
{
    match error {
        OpError::NotFound => failed("OpError::NotFound"),
        OpError::NotADirectory => failed("OpError::NotADirectory"),
        OpError::IsADirectory => failed("OpError::IsADirectory"),
        OpError::NotEmpty => failed("OpError::NotEmpty"),
        OpError::AlreadyExists => failed("OpError::AlreadyExists"),
        OpError::PermissionDenied => failed("OpError::PermissionDenied"),
        OpError::InvalidPath => failed("OpError::InvalidPath"),
        OpError::RangeTooLarge => failed("OpError::RangeTooLarge"),
        OpError::Unsupported => failed("OpError::Unsupported"),
        OpError::Internal => failed("OpError::Internal"),
    }
}

/// What [`from_frame`] reports.
pub open spec fn frame_code(error: FrameError) -> Seq<char> {
    match error {
        FrameError::Io => "FrameError::Io"@,
        FrameError::PayloadTooLarge(_) => "FrameError::PayloadTooLarge"@,
        FrameError::UnknownKind(_) => "FrameError::UnknownKind"@,
        FrameError::Wire(inner) => wire_code(inner),
    }
}

/// The code for a frame layer failure.
pub fn from_frame(error: &FrameError) -> (reported: FerryError)
    ensures
        is_failed(reported, frame_code(*error)),
{
    match error {
        FrameError::Io => failed("FrameError::Io"),
        FrameError::PayloadTooLarge(_) => failed("FrameError::PayloadTooLarge"),
        FrameError::UnknownKind(_) => failed("FrameError::UnknownKind"),
        FrameError::Wire(inner) => from_wire(inner),
    }
}

/// What [`from_rpc`] reports.
pub open spec fn rpc_code(error: RpcError) -> Seq<char> {
    match error {
        RpcError::Frame(inner) => frame_code(inner),
        RpcError::Wire(inner) => wire_code(inner),
        RpcError::Remote(inner) => op_code(inner),
        RpcError::MismatchedRequestId => "RpcError::MismatchedRequestId"@,
        RpcError::UnexpectedFrameKind(_) => "RpcError::UnexpectedFrameKind"@,
        RpcError::BadName => "RpcError::BadName"@,
    }
}

/// The code for a failed call across a connection: a refusal by the other
/// device is the whole story, so its code wins.
pub fn from_rpc(error: &RpcError) -> (reported: FerryError)
    ensures
        is_failed(reported, rpc_code(*error)),
{
    match error {
        RpcError::Frame(inner) => from_frame(inner),
        RpcError::Wire(inner) => from_wire(inner),
        RpcError::Remote(inner) => from_op(*inner),
        RpcError::MismatchedRequestId => failed("RpcError::MismatchedRequestId"),
        RpcError::UnexpectedFrameKind(_) => failed("RpcError::UnexpectedFrameKind"),
        RpcError::BadName => failed("RpcError::BadName"),
    }
}

/// What [`from_noise`] reports.
pub open spec fn noise_code(error: NoiseError) -> Seq<char> {
    match error {
        NoiseError::BadHello(inner) => rpc_code(inner),
        NoiseError::Io => "NoiseError::Io"@,
        NoiseError::Crypto => "NoiseError::Crypto"@,
        NoiseError::BadPattern => "NoiseError::BadPattern"@,
        NoiseError::BadKeyLength => "NoiseError::BadKeyLength"@,
        NoiseError::CommitmentMismatch => "NoiseError::CommitmentMismatch"@,
        NoiseError::HandshakeMessageTooLarge(_) => "NoiseError::HandshakeMessageTooLarge"@,
        NoiseError::BadHandshakePayload => "NoiseError::BadHandshakePayload"@,
        NoiseError::MissingPeerKey => "NoiseError::MissingPeerKey"@,
        NoiseError::UnknownOffer => "NoiseError::UnknownOffer"@,
    }
}

/// The code for a failed handshake.
pub fn from_noise(error: &NoiseError) -> (reported: FerryError)
    ensures
        is_failed(reported, noise_code(*error)),
{
    match error {
        NoiseError::BadHello(inner) => from_rpc(inner),
        NoiseError::Io => failed("NoiseError::Io"),
        NoiseError::Crypto => failed("NoiseError::Crypto"),
        NoiseError::BadPattern => failed("NoiseError::BadPattern"),
        NoiseError::BadKeyLength => failed("NoiseError::BadKeyLength"),
        NoiseError::CommitmentMismatch => failed("NoiseError::CommitmentMismatch"),
        NoiseError::HandshakeMessageTooLarge(_) => failed("NoiseError::HandshakeMessageTooLarge"),
        NoiseError::BadHandshakePayload => failed("NoiseError::BadHandshakePayload"),
        NoiseError::MissingPeerKey => failed("NoiseError::MissingPeerKey"),
        NoiseError::UnknownOffer => failed("NoiseError::UnknownOffer"),
    }
}

/// What [`from_version`] reports.
pub open spec fn version_code(error: VersionError) -> Seq<char> {
    match error {
        VersionError::Io => "VersionError::Io"@,
        VersionError::NotFerry => "VersionError::NotFerry"@,
        VersionError::NoSharedVersion => "VersionError::NoSharedVersion"@,
        VersionError::UnknownMode(_) => "VersionError::UnknownMode"@,
    }
}

/// The code for a failed version exchange.
pub fn from_version(error: &VersionError) -> (reported: FerryError)
    ensures
        is_failed(reported, version_code(*error)),
{
    match error {
        VersionError::Io => failed("VersionError::Io"),
        VersionError::NotFerry => failed("VersionError::NotFerry"),
        VersionError::NoSharedVersion => failed("VersionError::NoSharedVersion"),
        VersionError::UnknownMode(_) => failed("VersionError::UnknownMode"),
    }
}

/// What [`from_offer`] reports.
pub open spec fn offer_code(error: PairingError) -> Seq<char> {
    match error {
        PairingError::OfferExpired => "PairingError::OfferExpired"@,
        PairingError::OfferNotFerry => "PairingError::OfferNotFerry"@,
        PairingError::AlreadyPaired => "PairingError::AlreadyPaired"@,
        PairingError::CameraRefused => "PairingError::CameraRefused"@,
    }
}

/// The code for a refused pairing offer.
pub fn from_offer(error: PairingError) -> (reported: FerryError)
    ensures
        is_failed(reported, offer_code(error)),
{
    match error {
        PairingError::OfferExpired => failed("PairingError::OfferExpired"),
        PairingError::OfferNotFerry => failed("PairingError::OfferNotFerry"),
        PairingError::AlreadyPaired => failed("PairingError::AlreadyPaired"),
        PairingError::CameraRefused => failed("PairingError::CameraRefused"),
    }
}

/// What [`from_tcp`] reports.
pub open spec fn tcp_code(error: TcpError) -> Seq<char> {
    match error {
        TcpError::Io => "TcpError::Io"@,
        TcpError::Version(inner) => version_code(inner),
        TcpError::Noise(inner) => noise_code(inner),
        TcpError::TooManyPending => "TcpError::TooManyPending"@,
        TcpError::TooManyPendingFromAddr => "TcpError::TooManyPendingFromAddr"@,
        TcpError::Timeout => "TcpError::Timeout"@,
    }
}

/// The code for a connection that never became a usable channel. A failed
/// handshake reaches the person as itself, not as a refused connection.
pub fn from_tcp(error: &TcpError) -> (reported: FerryError)
    ensures
        is_failed(reported, tcp_code(*error)),
{
    match error {
        TcpError::Io => failed("TcpError::Io"),
        TcpError::Version(inner) => from_version(inner),
        TcpError::Noise(inner) => from_noise(inner),
        TcpError::TooManyPending => failed("TcpError::TooManyPending"),
        TcpError::TooManyPendingFromAddr => failed("TcpError::TooManyPendingFromAddr"),
        TcpError::Timeout => failed("TcpError::Timeout"),
    }
}

/// What [`from_chunk_size`] reports.
pub open spec fn chunk_size_code(error: ChunkSizeError) -> Seq<char> {
    match error {
        ChunkSizeError::NotPowerOfTwo => "ChunkSizeError::NotPowerOfTwo"@,
        ChunkSizeError::TooSmall => "ChunkSizeError::TooSmall"@,
        ChunkSizeError::TooLarge => "ChunkSizeError::TooLarge"@,
    }
}

/// The code for a chunk size the hash tree will not accept.
pub fn from_chunk_size(error: ChunkSizeError) -> (reported: FerryError)
    ensures
        is_failed(reported, chunk_size_code(error)),
{
    match error {
        ChunkSizeError::NotPowerOfTwo => failed("ChunkSizeError::NotPowerOfTwo"),
        ChunkSizeError::TooSmall => failed("ChunkSizeError::TooSmall"),
        ChunkSizeError::TooLarge => failed("ChunkSizeError::TooLarge"),
    }
}

/// What [`from_manifest`] reports.
pub open spec fn manifest_code(error: ManifestError) -> Seq<char> {
    match error {
        ManifestError::Wire(_) => "ManifestError::Wire"@,
        ManifestError::BadChunkSize(_) => "ManifestError::BadChunkSize"@,
        ManifestError::WrongChunkCount => "ManifestError::WrongChunkCount"@,
        ManifestError::TooManyChunks => "ManifestError::TooManyChunks"@,
        ManifestError::RootMismatch => "ManifestError::RootMismatch"@,
    }
}

/// The code for a stored manifest that does not agree with itself.
pub fn from_manifest(error: ManifestError) -> (reported: FerryError)
    ensures
        is_failed(reported, manifest_code(error)),
{
    match error {
        ManifestError::Wire(_) => failed("ManifestError::Wire"),
        ManifestError::BadChunkSize(_) => failed("ManifestError::BadChunkSize"),
        ManifestError::WrongChunkCount => failed("ManifestError::WrongChunkCount"),
        ManifestError::TooManyChunks => failed("ManifestError::TooManyChunks"),
        ManifestError::RootMismatch => failed("ManifestError::RootMismatch"),
    }
}

/// What [`from_transfer`] reports.
pub open spec fn transfer_code(error: TransferError) -> Seq<char> {
    match error {
        TransferError::Rpc(inner) => rpc_code(inner),
        TransferError::Local(_) => "TransferError::Local"@,
        TransferError::Record(inner) => manifest_code(inner),
        TransferError::BadPath(_) => "TransferError::BadPath"@,
        TransferError::ChunkFailedVerification { .. } => "TransferError::ChunkFailedVerification"@,
        TransferError::ShortRead => "TransferError::ShortRead"@,
        TransferError::NoRandomness => "TransferError::NoRandomness"@,
    }
}

/// The code for a transfer that stopped. A failure of local storage keeps its
/// own code, because the codes of refused operations speak of the other
/// device; a chunk that failed verification carries its index as the detail.
pub fn from_transfer(error: &TransferError) -> (reported: FerryError)
    ensures
        match *error {
            TransferError::ChunkFailedVerification { index } => is_failed_with(
                reported,
                transfer_code(*error),
                decimal(index as nat),
            ),
            _ => is_failed(reported, transfer_code(*error)),
        },
{
    match error {
        TransferError::Rpc(inner) => from_rpc(inner),
        TransferError::Local(_) => failed("TransferError::Local"),
        TransferError::Record(inner) => from_manifest(*inner),
        TransferError::BadPath(_) => failed("TransferError::BadPath"),
        TransferError::ChunkFailedVerification { index } => failed_with(
            "TransferError::ChunkFailedVerification",
            decimal_text(*index).as_str(),
        ),
        TransferError::ShortRead => failed("TransferError::ShortRead"),
        TransferError::NoRandomness => failed("TransferError::NoRandomness"),
    }
}

/// What [`from_peer`] reports.
pub open spec fn peer_code(error: PeerError) -> Seq<char> {
    match error {
        PeerError::Io => "PeerError::Io"@,
        PeerError::Wire(_) => "PeerError::Wire"@,
        PeerError::BadKey => "PeerError::BadKey"@,
        PeerError::UnknownFormat(_) => "PeerError::UnknownFormat"@,
        PeerError::TooMany => "PeerError::TooMany"@,
        PeerError::NameTooLong => "PeerError::NameTooLong"@,
        PeerError::NoRandomness => "PeerError::NoRandomness"@,
    }
}

/// The code for a failure of the paired device list.
pub fn from_peer(error: &PeerError) -> (reported: FerryError)
    ensures
        is_failed(reported, peer_code(*error)),
{
    match error {
        PeerError::Io => failed("PeerError::Io"),
        PeerError::Wire(_) => failed("PeerError::Wire"),
        PeerError::BadKey => failed("PeerError::BadKey"),
        PeerError::UnknownFormat(_) => failed("PeerError::UnknownFormat"),
        PeerError::TooMany => failed("PeerError::TooMany"),
        PeerError::NameTooLong => failed("PeerError::NameTooLong"),
        PeerError::NoRandomness => failed("PeerError::NoRandomness"),
    }
}

/// What [`from_roots`] reports.
pub open spec fn roots_code(error: RootsError) -> Seq<char> {
    match error {
        RootsError::RootNameInvalid => "RootsError::RootNameInvalid"@,
        RootsError::RootNameTaken => "RootsError::RootNameTaken"@,
        RootsError::RootNotAFolder => "RootsError::RootNotAFolder"@,
        RootsError::RootOverlaps => "RootsError::RootOverlaps"@,
        RootsError::NoRoots => "RootsError::NoRoots"@,
    }
}

/// The code for a set of roots that could not be opened.
pub fn from_roots(error: RootsError) -> (reported: FerryError)
    ensures
        is_failed(reported, roots_code(error)),
{
    match error {
        RootsError::RootNameInvalid => failed("RootsError::RootNameInvalid"),
        RootsError::RootNameTaken => failed("RootsError::RootNameTaken"),
        RootsError::RootNotAFolder => failed("RootsError::RootNotAFolder"),
        RootsError::RootOverlaps => failed("RootsError::RootOverlaps"),
        RootsError::NoRoots => failed("RootsError::NoRoots"),
    }
}

/// What [`from_discovery`] reports.
pub open spec fn discovery_code(error: DiscoveryError) -> Seq<char> {
    match error {
        DiscoveryError::Mdns => "DiscoveryError::Mdns"@,
        DiscoveryError::NoRandomness => "DiscoveryError::NoRandomness"@,
    }
}

/// The code for a discovery failure.
pub fn from_discovery(error: &DiscoveryError) -> (reported: FerryError)
    ensures
        is_failed(reported, discovery_code(*error)),
{
    match error {
        DiscoveryError::Mdns => failed("DiscoveryError::Mdns"),
        DiscoveryError::NoRandomness => failed("DiscoveryError::NoRandomness"),
    }
}

/// What [`from_adb`] reports.
pub open spec fn adb_code(error: AdbError) -> Seq<char> {
    match error {
        AdbError::NotFound => "AdbError::NotFound"@,
        AdbError::Io => "AdbError::Io"@,
        AdbError::Failed => "AdbError::Failed"@,
        AdbError::Timeout => "AdbError::Timeout"@,
        AdbError::Unparseable => "AdbError::Unparseable"@,
        AdbError::RelativeBinary => "AdbError::RelativeBinary"@,
    }
}

/// The code for a failed call to `adb`.
pub fn from_adb(error: &AdbError) -> (reported: FerryError)
    ensures
        is_failed(reported, adb_code(*error)),
{
    match error {
        AdbError::NotFound => failed("AdbError::NotFound"),
        AdbError::Io => failed("AdbError::Io"),
        AdbError::Failed => failed("AdbError::Failed"),
        AdbError::Timeout => failed("AdbError::Timeout"),
        AdbError::Unparseable => failed("AdbError::Unparseable"),
        AdbError::RelativeBinary => failed("AdbError::RelativeBinary"),
    }
}

/// Two different failures that the other device reports never reach the
/// app as one.
pub proof fn lemma_failures_of_the_device_are_told_apart(
    a: OpError,
    b: OpError,
    x: FerryError,
    y: FerryError,
)
    requires
        call_ensures(from_op, (a,), x),
        call_ensures(from_op, (b,), y),
        error_view(x) == error_view(y),
    ensures
        a is NotFound <==> b is NotFound,
        a is NotADirectory <==> b is NotADirectory,
        a is IsADirectory <==> b is IsADirectory,
        a is NotEmpty <==> b is NotEmpty,
        a is AlreadyExists <==> b is AlreadyExists,
        a is PermissionDenied <==> b is PermissionDenied,
        a is InvalidPath <==> b is InvalidPath,
        a is RangeTooLarge <==> b is RangeTooLarge,
        a is Unsupported <==> b is Unsupported,
        a is Internal <==> b is Internal,
{
    reveal_strlit("OpError::NotFound");
    assert("OpError::NotFound"@.len() == 17);
    reveal_strlit("OpError::NotADirectory");
    assert("OpError::NotADirectory"@.len() == 22);
    reveal_strlit("OpError::IsADirectory");
    assert("OpError::IsADirectory"@.len() == 21);
    reveal_strlit("OpError::NotEmpty");
    assert("OpError::NotEmpty"@.len() == 17);
    reveal_strlit("OpError::AlreadyExists");
    assert("OpError::AlreadyExists"@.len() == 22);
    reveal_strlit("OpError::PermissionDenied");
    assert("OpError::PermissionDenied"@.len() == 25);
    reveal_strlit("OpError::InvalidPath");
    assert("OpError::InvalidPath"@.len() == 20);
    reveal_strlit("OpError::RangeTooLarge");
    assert("OpError::RangeTooLarge"@.len() == 22);
    reveal_strlit("OpError::Unsupported");
    assert("OpError::Unsupported"@.len() == 20);
    reveal_strlit("OpError::Internal");
    assert("OpError::Internal"@.len() == 17);
    assert("OpError::NotFound"@[12] != "OpError::NotEmpty"@[12]);
    assert("OpError::NotFound"@[9] != "OpError::Internal"@[9]);
    assert("OpError::NotADirectory"@[9] != "OpError::AlreadyExists"@[9]);
    assert("OpError::NotADirectory"@[9] != "OpError::RangeTooLarge"@[9]);
    assert("OpError::NotEmpty"@[9] != "OpError::Internal"@[9]);
    assert("OpError::AlreadyExists"@[9] != "OpError::RangeTooLarge"@[9]);
    assert("OpError::InvalidPath"@[9] != "OpError::Unsupported"@[9]);
}

/// Two different problems of a path never reach the
/// app as one.
pub proof fn lemma_problems_of_a_path_are_told_apart(
    a: PathError,
    b: PathError,
    x: FerryError,
    y: FerryError,
)
    requires
        call_ensures(from_path, (a,), x),
        call_ensures(from_path, (b,), y),
        error_view(x) == error_view(y),
    ensures
        a is Empty <==> b is Empty,
        a is Absolute <==> b is Absolute,
        a is ParentComponent <==> b is ParentComponent,
        a is CurrentComponent <==> b is CurrentComponent,
        a is NulByte <==> b is NulByte,
        a is Backslash <==> b is Backslash,
        a is TooLong <==> b is TooLong,
{
    reveal_strlit("PathError::Empty");
    assert("PathError::Empty"@.len() == 16);
    reveal_strlit("PathError::Absolute");
    assert("PathError::Absolute"@.len() == 19);
    reveal_strlit("PathError::ParentComponent");
    assert("PathError::ParentComponent"@.len() == 26);
    reveal_strlit("PathError::CurrentComponent");
    assert("PathError::CurrentComponent"@.len() == 27);
    reveal_strlit("PathError::NulByte");
    assert("PathError::NulByte"@.len() == 18);
    reveal_strlit("PathError::Backslash");
    assert("PathError::Backslash"@.len() == 20);
    reveal_strlit("PathError::TooLong");
    assert("PathError::TooLong"@.len() == 18);
    assert("PathError::NulByte"@[11] != "PathError::TooLong"@[11]);
}

/// Two different problems of a message never reach the
/// app as one.
pub proof fn lemma_problems_on_the_wire_are_told_apart(
    a: WireError,
    b: WireError,
    x: FerryError,
    y: FerryError,
)
    requires
        call_ensures(from_wire, (&a,), x),
        call_ensures(from_wire, (&b,), y),
        error_view(x) == error_view(y),
    ensures
        a is UnexpectedEnd <==> b is UnexpectedEnd,
        a is TooLong <==> b is TooLong,
        a is NotUtf8 <==> b is NotUtf8,
        a is UnknownTag <==> b is UnknownTag,
        a is TrailingBytes <==> b is TrailingBytes,
        a is InvalidPath <==> b is InvalidPath,
        a is BadManifest <==> b is BadManifest,
{
    reveal_strlit("WireError::UnexpectedEnd");
    assert("WireError::UnexpectedEnd"@.len() == 24);
    reveal_strlit("WireError::TooLong");
    assert("WireError::TooLong"@.len() == 18);
    reveal_strlit("WireError::NotUtf8");
    assert("WireError::NotUtf8"@.len() == 18);
    reveal_strlit("WireError::UnknownTag");
    assert("WireError::UnknownTag"@.len() == 21);
    reveal_strlit("WireError::TrailingBytes");
    assert("WireError::TrailingBytes"@.len() == 24);
    reveal_strlit("WireError::InvalidPath");
    assert("WireError::InvalidPath"@.len() == 22);
    reveal_strlit("WireError::BadManifest");
    assert("WireError::BadManifest"@.len() == 22);
    assert("WireError::UnexpectedEnd"@[11] != "WireError::TrailingBytes"@[11]);
    assert("WireError::TooLong"@[11] != "WireError::NotUtf8"@[11]);
    assert("WireError::InvalidPath"@[11] != "WireError::BadManifest"@[11]);
}

/// Two different problems of a version never reach the
/// app as one.
pub proof fn lemma_problems_of_a_version_are_told_apart(
    a: VersionError,
    b: VersionError,
    x: FerryError,
    y: FerryError,
)
    requires
        call_ensures(from_version, (&a,), x),
        call_ensures(from_version, (&b,), y),
        error_view(x) == error_view(y),
    ensures
        a is Io <==> b is Io,
        a is NotFerry <==> b is NotFerry,
        a is NoSharedVersion <==> b is NoSharedVersion,
        a is UnknownMode <==> b is UnknownMode,
{
    reveal_strlit("VersionError::Io");
    assert("VersionError::Io"@.len() == 16);
    reveal_strlit("VersionError::NotFerry");
    assert("VersionError::NotFerry"@.len() == 22);
    reveal_strlit("VersionError::NoSharedVersion");
    assert("VersionError::NoSharedVersion"@.len() == 29);
    reveal_strlit("VersionError::UnknownMode");
    assert("VersionError::UnknownMode"@.len() == 25);
}

/// Two different problems of an offer never reach the
/// app as one.
pub proof fn lemma_problems_of_an_offer_are_told_apart(
    a: PairingError,
    b: PairingError,
    x: FerryError,
    y: FerryError,
)
    requires
        call_ensures(from_offer, (a,), x),
        call_ensures(from_offer, (b,), y),
        error_view(x) == error_view(y),
    ensures
        a is OfferExpired <==> b is OfferExpired,
        a is OfferNotFerry <==> b is OfferNotFerry,
        a is AlreadyPaired <==> b is AlreadyPaired,
        a is CameraRefused <==> b is CameraRefused,
{
    reveal_strlit("PairingError::OfferExpired");
    assert("PairingError::OfferExpired"@.len() == 26);
    reveal_strlit("PairingError::OfferNotFerry");
    assert("PairingError::OfferNotFerry"@.len() == 27);
    reveal_strlit("PairingError::AlreadyPaired");
    assert("PairingError::AlreadyPaired"@.len() == 27);
    reveal_strlit("PairingError::CameraRefused");
    assert("PairingError::CameraRefused"@.len() == 27);
    assert("PairingError::OfferNotFerry"@[14] != "PairingError::AlreadyPaired"@[14]);
    assert("PairingError::OfferNotFerry"@[14] != "PairingError::CameraRefused"@[14]);
    assert("PairingError::AlreadyPaired"@[14] != "PairingError::CameraRefused"@[14]);
}

/// Two different problems of the list of devices never reach the
/// app as one.
pub proof fn lemma_problems_of_the_list_are_told_apart(
    a: PeerError,
    b: PeerError,
    x: FerryError,
    y: FerryError,
)
    requires
        call_ensures(from_peer, (&a,), x),
        call_ensures(from_peer, (&b,), y),
        error_view(x) == error_view(y),
    ensures
        a is Io <==> b is Io,
        a is Wire <==> b is Wire,
        a is BadKey <==> b is BadKey,
        a is UnknownFormat <==> b is UnknownFormat,
        a is TooMany <==> b is TooMany,
        a is NameTooLong <==> b is NameTooLong,
        a is NoRandomness <==> b is NoRandomness,
{
    reveal_strlit("PeerError::Io");
    assert("PeerError::Io"@.len() == 13);
    reveal_strlit("PeerError::Wire");
    assert("PeerError::Wire"@.len() == 15);
    reveal_strlit("PeerError::BadKey");
    assert("PeerError::BadKey"@.len() == 17);
    reveal_strlit("PeerError::UnknownFormat");
    assert("PeerError::UnknownFormat"@.len() == 24);
    reveal_strlit("PeerError::TooMany");
    assert("PeerError::TooMany"@.len() == 18);
    reveal_strlit("PeerError::NameTooLong");
    assert("PeerError::NameTooLong"@.len() == 22);
    reveal_strlit("PeerError::NoRandomness");
    assert("PeerError::NoRandomness"@.len() == 23);
}

/// Two different problems of the shared folders never reach the
/// app as one.
pub proof fn lemma_problems_of_the_roots_are_told_apart(
    a: RootsError,
    b: RootsError,
    x: FerryError,
    y: FerryError,
)
    requires
        call_ensures(from_roots, (a,), x),
        call_ensures(from_roots, (b,), y),
        error_view(x) == error_view(y),
    ensures
        a is RootNameInvalid <==> b is RootNameInvalid,
        a is RootNameTaken <==> b is RootNameTaken,
        a is RootNotAFolder <==> b is RootNotAFolder,
        a is RootOverlaps <==> b is RootOverlaps,
        a is NoRoots <==> b is NoRoots,
{
    reveal_strlit("RootsError::RootNameInvalid");
    assert("RootsError::RootNameInvalid"@.len() == 27);
    reveal_strlit("RootsError::RootNameTaken");
    assert("RootsError::RootNameTaken"@.len() == 25);
    reveal_strlit("RootsError::RootNotAFolder");
    assert("RootsError::RootNotAFolder"@.len() == 26);
    reveal_strlit("RootsError::RootOverlaps");
    assert("RootsError::RootOverlaps"@.len() == 24);
    reveal_strlit("RootsError::NoRoots");
    assert("RootsError::NoRoots"@.len() == 19);
}

/// Two different problems of the cable never reach the
/// app as one.
pub proof fn lemma_problems_of_the_cable_are_told_apart(
    a: AdbError,
    b: AdbError,
    x: FerryError,
    y: FerryError,
)
    requires
        call_ensures(from_adb, (&a,), x),
        call_ensures(from_adb, (&b,), y),
        error_view(x) == error_view(y),
    ensures
        a is NotFound <==> b is NotFound,
        a is Io <==> b is Io,
        a is Failed <==> b is Failed,
        a is Timeout <==> b is Timeout,
        a is Unparseable <==> b is Unparseable,
        a is RelativeBinary <==> b is RelativeBinary,
{
    reveal_strlit("AdbError::NotFound");
    assert("AdbError::NotFound"@.len() == 18);
    reveal_strlit("AdbError::Io");
    assert("AdbError::Io"@.len() == 12);
    reveal_strlit("AdbError::Failed");
    assert("AdbError::Failed"@.len() == 16);
    reveal_strlit("AdbError::Timeout");
    assert("AdbError::Timeout"@.len() == 17);
    reveal_strlit("AdbError::Unparseable");
    assert("AdbError::Unparseable"@.len() == 21);
    reveal_strlit("AdbError::RelativeBinary");
    assert("AdbError::RelativeBinary"@.len() == 24);
}

/// Two different problems of a chunk size never reach the
/// app as one.
pub proof fn lemma_problems_of_a_size_are_told_apart(
    a: ChunkSizeError,
    b: ChunkSizeError,
    x: FerryError,
    y: FerryError,
)
    requires
        call_ensures(from_chunk_size, (a,), x),
        call_ensures(from_chunk_size, (b,), y),
        error_view(x) == error_view(y),
    ensures
        a is NotPowerOfTwo <==> b is NotPowerOfTwo,
        a is TooSmall <==> b is TooSmall,
        a is TooLarge <==> b is TooLarge,
{
    reveal_strlit("ChunkSizeError::NotPowerOfTwo");
    assert("ChunkSizeError::NotPowerOfTwo"@.len() == 29);
    reveal_strlit("ChunkSizeError::TooSmall");
    assert("ChunkSizeError::TooSmall"@.len() == 24);
    reveal_strlit("ChunkSizeError::TooLarge");
    assert("ChunkSizeError::TooLarge"@.len() == 24);
    assert("ChunkSizeError::TooSmall"@[19] != "ChunkSizeError::TooLarge"@[19]);
}

/// A failure that wraps another is told as that other one, however deep it
/// lies.
pub proof fn lemma_inner_failures_are_told(
    op: OpError,
    frame: FrameError,
    wire: WireError,
    rpc: RpcError,
    version: VersionError,
    noise: NoiseError,
    inner: FerryError,
    outer: FerryError,
)
    ensures
        call_ensures(from_op, (op,), inner) && call_ensures(
            from_rpc,
            (&RpcError::Remote(op),),
            outer,
        ) ==> error_view(inner) == error_view(outer),
        call_ensures(from_frame, (&frame,), inner) && call_ensures(
            from_rpc,
            (&RpcError::Frame(frame),),
            outer,
        ) ==> error_view(inner) == error_view(outer),
        call_ensures(from_wire, (&wire,), inner) && call_ensures(
            from_rpc,
            (&RpcError::Wire(wire),),
            outer,
        ) ==> error_view(inner) == error_view(outer),
        call_ensures(from_rpc, (&rpc,), inner) && call_ensures(
            from_noise,
            (&NoiseError::BadHello(rpc),),
            outer,
        ) ==> error_view(inner) == error_view(outer),
        call_ensures(from_version, (&version,), inner) && call_ensures(
            from_tcp,
            (&TcpError::Version(version),),
            outer,
        ) ==> error_view(inner) == error_view(outer),
        call_ensures(from_noise, (&noise,), inner) && call_ensures(
            from_tcp,
            (&TcpError::Noise(noise),),
            outer,
        ) ==> error_view(inner) == error_view(outer),
        call_ensures(from_rpc, (&rpc,), inner) && call_ensures(
            from_transfer,
            (&TransferError::Rpc(rpc),),
            outer,
        ) ==> error_view(inner) == error_view(outer),
{
}

} // verus!
