//! Windows userspace-filesystem-driver skeleton.
//!
//! The decisions that every WinFsp-based filesystem driver makes, apart from
//! the operating-system calls around them:
//!
//! - [`partition`] -- MBR/GPT parsing.
//! - [`device`] -- the `BlockSource` trait and the arithmetic of sector-aligned
//!   raw-disk I/O.
//! - [`probe`] -- drive-letter selection, filesystem detection at an offset,
//!   `DEV_BROADCAST_DEVICEINTERFACE_W` payload parsing.
//! - [`translate`] -- POSIX values to their Windows equivalents and back.
//! - [`reader`] -- what a driver's filesystem reader has to provide.
//! - [`mounts`] -- which partitions are mounted.
//! - [`arrival`] -- the course of a disk arrival.
//! - [`watch`] -- the foreground watcher: window messages and mount commands.
//! - [`service`] -- the service variant: control codes, status reports, the
//!   WinFsp launcher.
//!
//! The consumer owns the [`FsBackend`] impl: four constants and a single
//! `detect` function that reads the filesystem's superblock magic from a byte
//! slice.

use vstd::prelude::*;

pub mod arrival;
pub mod device;
pub mod le;
pub mod mounts;
pub mod partition;
pub mod probe;
pub mod reader;
pub mod service;
pub mod text;
pub mod translate;
pub mod utf16;
pub mod watch;

verus! {

/// The seam every consumer plugs into. Four constants identify the consumer to
/// Windows and WinFsp.Launcher, plus a `detect` function that is called when
/// probing raw bytes for the consumer's filesystem magic.
pub trait FsBackend {
    /// Short, lowercase name of the filesystem. Used in log lines and in error
    /// messages. Examples: `"ext4"`, `"ntfs"`, `"qcow2"`.
    const FS_NAME: &'static str;

    /// Windows service name. Must be unique per consumer so concurrent services
    /// on the same host don't collide. Examples: `"ExtFsWatcher"`,
    /// `"NtfsWatcher"`.
    const SERVICE_NAME: &'static str;

    /// Service-class name registered with WinFsp.Launcher. Conventionally
    /// `"<fs-name>-mount"`, e.g. `"ext4-mount"`.
    const LAUNCHER_SERVICE_CLASS: &'static str;

    /// Default file extension for the consumer's right-click "Mount as <FS>"
    /// verb, without the leading dot, e.g. `"img"`, `"vhd"`, `"qcow2"`.
    const FILE_EXTENSION: &'static str;

    /// The answers that `detect` can give for `bytes`. A backend that states
    /// nothing allows both.
    open spec fn verdict(bytes: Seq<u8>, found: bool) -> bool {
        true
    }

    /// Probe a raw byte slice for this filesystem's superblock magic: the first
    /// 4 KiB of a partition. Implementations should be quick and total; return
    /// `false` for "doesn't look like our filesystem".
    fn detect(bytes: &[u8]) -> (found: bool)
        ensures
            Self::verdict(bytes@, found),
    ;
}

} // verus!
