//! The errors and the directory entries of the file operations layer, as the
//! runtime reads them.

use vstd::prelude::*;

verus! {

/// Why a message or a stored record did not decode.
#[derive(Debug, Clone, Copy, PartialEq, Eq, Structural)]
pub enum WireError {
    /// The bytes ended before the value did.
    UnexpectedEnd,
    /// A length was over its bound.
    TooLong,
    /// A text was not UTF-8.
    NotUtf8,
    /// A tag byte names nothing.
    UnknownTag(u8),
    /// Bytes were left after the last value.
    TrailingBytes,
    /// A path did not validate.
    InvalidPath,
    /// A manifest did not agree with itself.
    BadManifest,
}

/// Why a text is not a path.
#[derive(Debug, Clone, Copy, PartialEq, Eq, Structural)]
pub enum PathError {
    /// It names the shared root where a file or folder was wanted.
    Empty,
    /// It begins with a slash.
    Absolute,
    /// One component is `..`.
    ParentComponent,
    /// One component is `.`.
    CurrentComponent,
    /// It holds a NUL byte.
    NulByte,
    /// It holds a backslash.
    Backslash,
    /// It is over the bound on a path.
    TooLong,
}

/// Why the other device refused a file operation.
#[derive(Debug, Clone, Copy, PartialEq, Eq, Structural)]
pub enum OpError {
    /// Nothing is there.
    NotFound,
    /// A folder was wanted.
    NotADirectory,
    /// A file was wanted.
    IsADirectory,
    /// The folder still holds something.
    NotEmpty,
    /// Something is there already.
    AlreadyExists,
    /// The device does not allow it.
    PermissionDenied,
    /// The path did not validate.
    InvalidPath,
    /// The range is over the bound on one call.
    RangeTooLarge,
    /// The device does not do this.
    Unsupported,
    /// The device failed.
    Internal,
}

/// Why the frame layer failed.
#[derive(Debug, Clone, Copy, PartialEq, Eq, Structural)]
pub enum FrameError {
    /// The stream failed.
    Io,
    /// A frame declared more than the bound.
    PayloadTooLarge(u32),
    /// A frame kind names nothing.
    UnknownKind(u8),
    /// A frame did not decode.
    Wire(WireError),
}

/// Why a call across a connection failed.
#[derive(Debug, Clone, Copy, PartialEq, Eq, Structural)]
pub enum RpcError {
    /// The frame layer failed.
    Frame(FrameError),
    /// An answer did not decode.
    Wire(WireError),
    /// The other device answered with a refusal.
    Remote(OpError),
    /// An answer was for another request.
    MismatchedRequestId,
    /// A frame of another kind came.
    UnexpectedFrameKind(u8),
    /// A name in `hello` was not usable.
    BadName,
}

/// Why a handshake failed.
#[derive(Debug, Clone, Copy, PartialEq, Eq, Structural)]
pub enum NoiseError {
    /// The `hello` did not read.
    BadHello(RpcError),
    /// The stream failed.
    Io,
    /// A message did not authenticate.
    Crypto,
    /// The handshake pattern is unknown.
    BadPattern,
    /// A key is not 32 bytes.
    BadKeyLength,
    /// The revealed value is not the committed one.
    CommitmentMismatch,
    /// A message was over the bound.
    HandshakeMessageTooLarge(u32),
    /// A payload did not decode.
    BadHandshakePayload,
    /// The other key is not known.
    MissingPeerKey,
    /// No offer with that nonce is open.
    UnknownOffer,
}

/// Why the version exchange failed.
#[derive(Debug, Clone, Copy, PartialEq, Eq, Structural)]
pub enum VersionError {
    /// The stream failed.
    Io,
    /// The other side is not Ferry.
    NotFerry,
    /// No version is shared.
    NoSharedVersion,
    /// The mode byte names nothing.
    UnknownMode(u8),
}

/// Why a scanned pairing offer was refused.
#[derive(Debug, Clone, Copy, PartialEq, Eq, Structural)]
pub enum PairingError {
    /// It is past its deadline.
    OfferExpired,
    /// It is not an offer.
    OfferNotFerry,
    /// The device is paired already.
    AlreadyPaired,
    /// The camera is not allowed.
    CameraRefused,
}

/// Why a connection never became a channel.
#[derive(Debug, Clone, Copy, PartialEq, Eq, Structural)]
pub enum TcpError {
    /// The socket failed.
    Io,
    /// The version exchange failed.
    Version(VersionError),
    /// The handshake failed.
    Noise(NoiseError),
    /// Too many handshakes are open.
    TooManyPending,
    /// Too many handshakes are open from this address.
    TooManyPendingFromAddr,
    /// Nothing came in time.
    Timeout,
}

/// Why a chunk size is not accepted.
#[derive(Debug, Clone, Copy, PartialEq, Eq, Structural)]
pub enum ChunkSizeError {
    /// It is not a power of two.
    NotPowerOfTwo,
    /// It is under the smallest.
    TooSmall,
    /// It is over the largest.
    TooLarge,
}

/// Why a stored manifest does not agree with itself.
#[derive(Debug, Clone, Copy, PartialEq, Eq, Structural)]
pub enum ManifestError {
    /// It does not decode.
    Wire(WireError),
    /// Its chunk size is not accepted.
    BadChunkSize(ChunkSizeError),
    /// It has the wrong number of chunks.
    WrongChunkCount,
    /// It has too many chunks.
    TooManyChunks,
    /// Its root is not the root of its chunks.
    RootMismatch,
}

/// Why a transfer stopped.
#[derive(Debug, Clone, Copy, PartialEq, Eq, Structural)]
pub enum TransferError {
    /// A call failed.
    Rpc(RpcError),
    /// The storage of this device failed.
    Local(OpError),
    /// The saved record is damaged.
    Record(ManifestError),
    /// A path did not validate.
    BadPath(PathError),
    /// A chunk is not what its hash says.
    ChunkFailedVerification { index: u64 },
    /// The other device sent too little.
    ShortRead,
    /// No randomness was available.
    NoRandomness,
}

/// Why the list of paired devices failed.
#[derive(Debug, Clone, Copy, PartialEq, Eq, Structural)]
pub enum PeerError {
    /// The storage failed.
    Io,
    /// The list does not decode.
    Wire(WireError),
    /// A key is not a key.
    BadKey,
    /// The format version is unknown.
    UnknownFormat(u8),
    /// The list is full.
    TooMany,
    /// A name is over its bound.
    NameTooLong,
    /// No randomness was available.
    NoRandomness,
}

/// Why a set of shared roots could not be opened.
#[derive(Debug, Clone, Copy, PartialEq, Eq, Structural)]
pub enum RootsError {
    /// A name is not one path component.
    RootNameInvalid,
    /// Two roots have one name.
    RootNameTaken,
    /// A root is not a folder.
    RootNotAFolder,
    /// One root lies inside another.
    RootOverlaps,
    /// There are none.
    NoRoots,
}

/// Why discovery failed.
#[derive(Debug, Clone, Copy, PartialEq, Eq, Structural)]
pub enum DiscoveryError {
    /// The multicast service failed.
    Mdns,
    /// No randomness was available.
    NoRandomness,
}

/// Why a call to `adb` failed.
#[derive(Debug, Clone, Copy, PartialEq, Eq, Structural)]
pub enum AdbError {
    /// There is no such binary.
    NotFound,
    /// It could not be run.
    Io,
    /// It reported a failure.
    Failed,
    /// It did not answer in time.
    Timeout,
    /// Its answer could not be read.
    Unparseable,
    /// Its path is not absolute.
    RelativeBinary,
}

} // verus!
