//! The values that cross between the engine and the apps.

use vstd::prelude::*;

verus! {

/// One named, shared folder, as the peer sees it.
#[derive(Debug, Clone)]
pub struct Root {
    /// What the peer sees as this root's first path segment, such as
    /// `"Desktop"`.
    pub name: String,
    /// Where this root lives on disk. Must be an existing directory.
    pub path: String,
    /// False for a root the peer may read but not write.
    pub writable: bool,
}

/// What kind of device this is, or a peer said it is in `hello`.
#[derive(Debug, Clone, Copy, PartialEq, Eq, Structural)]
pub enum DeviceKind {
    /// An Android phone.
    Phone,
    /// A Mac.
    Mac,
}

/// What the app tells the engine at construction.
#[derive(Clone)]
pub struct Config {
    /// Where the engine keeps its own files: paired devices and transfer
    /// records. Must exist and be private to the app.
    pub data_dir: String,
    /// The named folders served to paired devices. At least one.
    pub shared_roots: Vec<Root>,
    /// Where a pulled file lands. Never served to a peer by being here.
    pub download_dir: String,
    /// The name sent in `hello`. At most 64 bytes. Defaults to the model.
    pub display_name: String,
    /// The port to listen on. Zero means any free port.
    pub listen_port: u16,
    /// This device's long-lived key. The app loaded it from secure storage.
    pub key: KeyPair,
    /// What kind of device this is. Sent in `hello`.
    pub kind: DeviceKind,
}

/// A static key pair as bytes. The platform stores it; the engine uses it.
#[derive(Clone)]
pub struct KeyPair {
    /// Thirty-two bytes. Never logged, never shown.
    pub private: Vec<u8>,
    /// Thirty-two bytes. Safe to show as a fingerprint.
    pub public: Vec<u8>,
}

/// One way a device is reached.
#[derive(Debug, Clone, Copy, PartialEq, Eq, Structural)]
pub enum Transport {
    /// Through the adb tunnel over a cable.
    Usb,
    /// Over the local network.
    Wifi,
}

/// Everything this engine currently is, as one call rather than several
/// facts held twice.
#[derive(Debug, Clone)]
pub struct Status {
    /// True while this device advertises and accepts connections.
    pub reachable: bool,
    /// The port the listener is bound to. Zero before `start` has run.
    pub listen_port: u16,
    /// Whether `adb` was found when the engine started.
    pub adb_present: bool,
    /// The Wi-Fi network name the app last set. `None` when unknown.
    pub network: Option<String>,
    /// True while this device advertises, browses, and accepts over Wi-Fi.
    pub wifi_presence: bool,
}

/// Where the `WebDAV` bridge for one device answers, and the credentials to
/// mount it.
///
/// Loopback only: `url` is always
/// `"http://127.0.0.1:<port>/"`.
#[derive(Clone)]
pub struct MountEndpoint {
    /// `"http://127.0.0.1:<port>/"`.
    pub url: String,
    /// The Basic auth user name. Fixed; only the password is secret.
    pub user: String,
    /// Random per `mount_start`. Never shown on screen.
    pub password: String,
}

/// One paired device, as the Devices screen shows it.
#[derive(Debug, Clone)]
pub struct DeviceInfo {
    /// The public key as 64 lowercase hex characters. This is the identity.
    pub key_hex: String,
    /// The name it sent in `hello`. Shown, never trusted.
    pub name: String,
    /// When it was paired.
    pub paired_unix_secs: i64,
    /// How it is reachable right now, if at all.
    pub reachable_via: Option<Transport>,
    /// Bytes per second moving to or from it in the last second, if any.
    pub speed_bytes_per_sec: Option<u64>,
    /// When it was last reachable, if it is not reachable now.
    pub last_seen_unix_secs: Option<i64>,
    /// Every transport this device could currently be reached through,
    /// `Usb` first. `reachable_via`, when it is `Some`, is always in this
    /// list.
    pub available_transports: Vec<Transport>,
    /// What kind of device it said it was, in `hello` at pairing time.
    pub kind: DeviceKind,
    /// Where the peer's roots are mounted on this device, or `None` while
    /// no bridge is serving it or the app has not reported a path yet.
    pub mount_path: Option<String>,
}

/// Where a transfer is.
#[derive(Debug, Clone, Copy, PartialEq, Eq, Structural)]
pub enum TransferState {
    /// Waiting for a thread or for the device to be reachable.
    Queued,
    /// Moving bytes.
    Active,
    /// The link dropped. Resumes on its own when the device is reachable.
    Paused,
    /// Every chunk verified and the file is at its final name.
    Done,
    /// Stopped for a reason in `error`. A retry starts from the resume point.
    Failed,
}

/// Which way a transfer moves a file.
#[derive(Debug, Clone, Copy, PartialEq, Eq, Structural)]
pub enum Direction {
    /// This device fetched the file from the peer.
    Pull,
    /// This device sent the file to the peer.
    Push,
}

/// One transfer, as the Transfers screen shows it.
#[derive(Debug, Clone)]
pub struct TransferInfo {
    /// Stable for the life of the transfer, across restarts.
    pub id: String,
    /// Which device it is with.
    pub device_key_hex: String,
    /// The file's name, for display.
    pub file_name: String,
    /// Total size in bytes.
    pub bytes_total: u64,
    /// Bytes verified in place.
    pub bytes_done: u64,
    /// Where it is.
    pub state: TransferState,
    /// Which transport is carrying it, while active.
    pub transport: Option<Transport>,
    /// Why it failed or paused, when it did.
    pub error: Option<FerryError>,
    /// When `pull` created this transfer.
    pub started_unix_secs: i64,
    /// When the state last became `Done` or `Failed`. Cleared by `retry`.
    pub ended_unix_secs: Option<i64>,
    /// Which way this transfer moves the file.
    pub direction: Direction,
    /// Bytes per second, measured over this transfer's own bytes across the
    /// last two seconds. `None` unless the state is `Active`.
    pub speed_bytes_per_sec: Option<u64>,
    /// The chunk count of the file, known once the size is.
    pub chunks_total: u32,
    /// How many chunks have a verified hash so far.
    pub chunks_verified: u32,
    /// Which batch this transfer belongs to, if `pull_folder` created it.
    /// `None` for a transfer a single `pull` created.
    pub batch_id: Option<String>,
}

/// Why a batch exists.
#[derive(Debug, Clone, Copy, PartialEq, Eq, Structural)]
pub enum Origin {
    /// A person asked for it.
    Manual,
    /// Ferry decided.
    Automatic,
}

/// One group of transfers made by one [`Engine::pull_folder`] call, as the
/// Files section shows it.
///
/// Only what does not change
/// once the batch is made is stored on disk. Every other field here —
/// `files_done`, the byte counts, `state`, `speed_bytes_per_sec`,
/// `ended_unix_secs`, `transport`, and `error` — is computed fresh from the
/// transfers named on the batch, every time the app asks.
#[derive(Debug, Clone)]
pub struct BatchInfo {
    /// Stable for the life of the batch, across restarts.
    pub id: String,
    /// Which device the files come from.
    pub device_key_hex: String,
    /// The remote path as given: `"Internal storage/DCIM/Camera"`.
    pub label: String,
    /// How many files this batch covers.
    pub files_total: u32,
    /// How many of those files are `Done`.
    pub files_done: u32,
    /// The sum of `bytes_total` over its transfers.
    pub bytes_total: u64,
    /// The sum of `bytes_done` over its transfers.
    pub bytes_done: u64,
    /// The worst state among its transfers: `Failed`, then `Paused`, then
    /// `Active`, then `Queued`, then `Done`. A batch with no files is `Done`.
    pub state: TransferState,
    /// Which way every transfer in this batch moves its file.
    pub direction: Direction,
    /// Why this batch exists.
    pub origin: Origin,
    /// The sum over its active transfers. `None` while none are active.
    pub speed_bytes_per_sec: Option<u64>,
    /// When `pull_folder` created this batch.
    pub started_unix_secs: i64,
    /// The latest end time among its transfers, once none is `Queued`,
    /// `Active`, or `Paused`. `None` while one still is. A `retry` clears
    /// this the same way it clears that one transfer's own end time. A
    /// batch with no files carries `started_unix_secs` here.
    pub ended_unix_secs: Option<i64>,
    /// The transport of any transfer in this batch that is `Active`.
    /// `None` while none are.
    pub transport: Option<Transport>,
    /// The error of the first `Failed` transfer in this batch, in id order.
    /// `None` unless `state` is `Failed`.
    pub error: Option<FerryError>,
}

/// Whether this device copies a paired device's camera folder to
/// itself on its own, and what its last run did.
///
/// `source` and `destination` are never
/// stored: `source` is learned fresh from the peer's own roots each time a
/// run starts, and is the placeholder `"DCIM"` until the first run has
/// learned it; `destination` is always computed from the current download
/// folder. [`Engine::auto_copy`] always answers, even for a device that is
/// not paired.
#[derive(Debug, Clone)]
pub struct AutoCopy {
    /// Which device this describes.
    pub device_key_hex: String,
    /// Whether the switch is on.
    pub enabled: bool,
    /// The peer folder watched, root-relative: `"Internal storage/DCIM"`.
    pub source: String,
    /// Where copies land: `"<download_dir>/DCIM"`.
    pub destination: String,
    /// When the last run ended, if one ever has.
    pub last_run_unix_secs: Option<i64>,
    /// How many files the last run copied, zero when it found nothing new.
    /// `Some` exactly when `last_run_unix_secs` is.
    pub last_run_files: Option<u32>,
    /// Whether a run is moving files right now.
    ///
    /// Derived, not stored: true while a batch with `Origin::Automatic` for
    /// this device is not `Done` or `Failed`. A run that finds nothing new
    /// records a run and makes no batch, so `running` is only ever true
    /// while files are actually moving, never for the run's own listing and
    /// skip-check.
    pub running: bool,
}

/// What kind of thing an [`Entry`] names.
#[derive(Debug, Clone, Copy, PartialEq, Eq, Structural)]
pub enum EntryKind {
    /// A regular file.
    File,
    /// A directory.
    Directory,
}

/// One file or directory inside another device's shared root, as
/// [`Engine::list`] returns it.
#[derive(Debug, Clone)]
pub struct Entry {
    /// The entry's name within its parent directory. Never a full path.
    pub name: String,
    /// Whether the entry is a file or a directory.
    pub kind: EntryKind,
    /// The size in bytes.
    pub size: u64,
    /// The last modification time, in seconds since the Unix epoch.
    pub modified_unix_secs: i64,
}

/// A device that could be paired, as the Mac's pairing screen lists it.
#[derive(Debug, Clone)]
pub struct PairingCandidate {
    /// Opaque, for `pick_candidate`.
    pub id: String,
    /// How it was found.
    pub transport: Transport,
    /// The last four characters of its random mDNS name, or the adb serial's
    /// last four. The phone shows the same four so a person can match them.
    pub short_code: String,
}

/// How two devices pair.
#[derive(Debug, Clone, Copy, PartialEq, Eq, Structural)]
pub enum PairingMethod {
    /// A six digit code, shown on both screens and confirmed on both.
    Code,
    /// A code scanned from the other device's screen. `Offering` draws it,
    /// `offer_scanned` reads it.
    Qr,
}

/// What a Mac draws as a QR code while `PairingState::Offering`.
#[derive(Debug, Clone)]
pub struct PairingOffer {
    /// ASCII: `"FERRY1:"` then base64url of version(1), the Mac's static
    /// public key(32), expiry(8), nonce(16), then addresses as count(1) and
    /// ip(16 or 4 with a tag) and port(2) each. Drawn as a QR code.
    pub payload: Vec<u8>,
    /// When this offer stops accepting a scan.
    pub expires_unix_secs: i64,
}

/// Where pairing is.
#[derive(Debug, Clone)]
pub enum PairingState {
    /// Not pairing.
    Idle,
    /// Looking for a device, or on the phone, waiting for a Mac. Code
    /// method.
    Waiting {
        /// When this pairing attempt gives up.
        expires_unix_secs: i64,
    },
    /// The Mac has candidates to pick from. Code method.
    Found {
        /// What can be picked.
        candidates: Vec<PairingCandidate>,
        /// When this pairing attempt gives up.
        expires_unix_secs: i64,
    },
    /// Both screens show the code. Code method.
    Code {
        /// Six digits, zero padded.
        code: String,
        /// When this pairing attempt gives up.
        expires_unix_secs: i64,
    },
    /// The Mac is showing a QR code, and nobody has scanned it yet. QR
    /// method.
    Offering {
        /// What to draw. `offer.expires_unix_secs` is this state's deadline.
        offer: PairingOffer,
    },
    /// The Mac read a scan's hello and is waiting for `confirm_pairing`. QR
    /// method. The phone never shows this: it asks no question of its own.
    Requested {
        /// The scanning phone's name, from its hello.
        name: String,
        /// The scanning device's kind, from its hello. Shown as the
        /// device's own icon, rather than assuming every scan is a phone.
        kind: DeviceKind,
        /// How the phone reached this Mac. Always `Wifi`: QR pairing only
        /// dials the Wi-Fi addresses in the offer.
        transport: Transport,
    },
    /// Both sides confirmed. The device is now in `devices()`.
    Confirmed {
        /// The new device.
        device: DeviceInfo,
    },
    /// Pairing stopped.
    Failed {
        /// Why.
        error: FerryError,
    },
}

/// An error crossing to the app.
///
/// `code` is the Rust path of the underlying variant, such as
/// `OpError::NotFound` or `TcpError::Timeout`. The app maps it to words
/// through the table generated from `design/errors.json`. `detail` carries a
/// value the words may need, such as a file name, and is optional.
#[derive(Debug, Clone, PartialEq, Eq)]
pub enum FerryError {
    /// The only variant. A code and an optional detail.
    Failed {
        /// The Rust path of the variant, used as the lookup key.
        code: String,
        /// A value the message may need. Never a sentence.
        detail: Option<String>,
    },
}

/// One kind of file operation the access log records.
///
/// `set_mtime` has no member here: it is never logged, because it always follows a write that already
/// is.
#[derive(Debug, Clone, Copy, PartialEq, Eq, Structural)]
pub enum AccessVerb {
    /// A folder listing. One entry covers every page of it.
    List,
    /// A single file or folder's metadata.
    Stat,
    /// Bytes read from a file.
    Read,
    /// Bytes written to a file.
    Write,
    /// A file shortened or extended to a given length.
    Truncate,
    /// A file or folder renamed.
    Rename,
    /// A folder created.
    Mkdir,
    /// A file or folder removed.
    Delete,
}

/// Who performed an access log entry's operation.
#[derive(Debug, Clone, Copy, PartialEq, Eq, Structural)]
pub enum Actor {
    /// The peer, on this device's files.
    Peer,
    /// This device, on the peer's files.
    This,
}

/// One access log entry, as [`Engine::access_log`] returns it.
#[derive(Debug, Clone)]
pub struct AccessEntry {
    /// `"<day>-<sequence>"`. Stable across restarts.
    pub id: String,
    /// The paired device this entry is about, as 64 lowercase hex
    /// characters.
    pub device_key_hex: String,
    /// Who performed the operation.
    pub actor: Actor,
    /// Which kind of operation.
    pub verb: AccessVerb,
    /// Root-relative, beginning with the root name: `"Desktop/Q3 notes.md"`.
    pub path: String,
    /// Bytes moved, for a read or a write.
    pub bytes: Option<u64>,
    /// For a list, how many entries were returned.
    pub entries: Option<u32>,
    /// For a folder copy, how many files it covered.
    pub files: Option<u32>,
    /// When the operation this entry describes first happened.
    pub at_unix_secs: i64,
}

/// How the engine tells the app something changed.
///
/// Every method is called from an engine thread, never from the thread the
/// app called into. The app must hop to its main thread before touching a
/// view.
pub trait EngineListener: Send + Sync {
    /// The device list, or a device's reachability or speed, changed.
    fn devices_changed(&self);
    /// A transfer was added, moved, or changed state.
    fn transfers_changed(&self);
    /// Pairing moved to a new state.
    fn pairing_changed(&self, state: PairingState);
    /// An access log entry became final. At most once every 250
    /// milliseconds. The app then calls [`Engine::access_log`].
    fn access_log_changed(&self);
}

} // verus!
