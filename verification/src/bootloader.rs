//! Bootloader APIs: mounts, bootloader errors, and the dispatching
//! bootloader front.

use vstd::prelude::*;

use crate::bootenv::Firmware;
use crate::entry::Entry;
use crate::kernel::{bls_result_ok, legacy_result_ok, Kernel, Schema};
use crate::systemd_boot::{self, InstallPlan, Loader, SyncPlan};

verus! {

/// Bootloader errors.
#[derive(Debug)]
pub enum Error {
    /// A bootloader file is missing from the given assets.
    MissingFile {
        /// Name of the missing file.
        filename: String,
    },
    /// A required mountpoint is missing.
    MissingMount {
        /// What should have been mounted.
        description: String,
    },
}

/// The mountpoints of the boot partitions: the ESP and, when present,
/// the XBOOTLDR partition. The *effective* `$BOOT` is the XBOOTLDR
/// mountpoint when there is one, the ESP mountpoint otherwise.
pub struct Mounts {
    /// Mountpoint of the EFI System Partition.
    pub esp: Option<String>,

    /// Mountpoint of the XBOOTLDR partition.
    pub xbootldr: Option<String>,
}

impl Clone for Mounts {
    /// An exact copy, field for field.
    fn clone(&self) -> (r: Self)
        ensures
            r == *self,
    {
        Mounts {
            esp: crate::kernel::clone_opt_string(&self.esp),
            xbootldr: crate::kernel::clone_opt_string(&self.xbootldr),
        }
    }
}

/// The bootloader manager for the detected firmware. We really only
/// support systemd-boot right now.
pub enum Bootloader {
    /// systemd-boot management.
    Systemd(Loader),
}

impl Bootloader {
    /// Construct the firmware-appropriate bootloader manager. Only
    /// UEFI firmware is supported.
    pub fn new(schema: Schema, assets: Vec<String>, mounts: Mounts, firmware: &Firmware) -> (r:
        Result<Self, Error>)
        requires
            matches!(firmware, Firmware::Uefi),
        ensures
            match r {
                Ok(b) => {
                    let Bootloader::Systemd(l) = b;
                    &&& l.schema == schema
                    &&& l.assets@ == assets@
                    &&& l.mounts == mounts
                    &&& systemd_boot::boot_root_of(mounts) matches Some(broot) && l.boot_root@
                        == broot
                },
                Err(e) => e is MissingMount && mounts.esp is None && mounts.xbootldr is None,
            },
    {
        match firmware {
            Firmware::Uefi => {
                match Loader::new(schema, assets, mounts) {
                    Ok(l) => Ok(Bootloader::Systemd(l)),
                    Err(e) => Err(e),
                }
            }
            Firmware::Bios => {
                proof {
                    assert(false);
                }
                vstd::pervasive::unreached()
            }
        }
    }

    /// Compute the sync plan for the bootloader's own files: the
    /// bootloader binary copies and the `loader.conf` write.
    pub fn sync(&self) -> (r: Result<SyncPlan, Error>)
        ensures
            match self {
                Bootloader::Systemd(l) => systemd_boot::sync_plan_spec(l, r),
            },
    {
        match self {
            Bootloader::Systemd(l) => l.sync(),
        }
    }

    /// Compute the install plans for the given entries, with the base
    /// cmdline prepended to every entry's own snippets and the excluded
    /// snippet names dropped.
    pub fn sync_entries(
        &self,
        cmdline: &Vec<String>,
        entries: &Vec<Entry>,
        excluded_snippets: &Vec<String>,
    ) -> (r: Result<Vec<InstallPlan>, Error>)
        ensures
            match self {
                Bootloader::Systemd(l) => systemd_boot::sync_entries_spec(
                    l,
                    cmdline@,
                    entries@,
                    excluded_snippets@,
                    r,
                ),
            },
    {
        match self {
            Bootloader::Systemd(l) => l.sync_entries(cmdline, entries, excluded_snippets),
        }
    }

    /// Grab the installed kernels, from a listing of the asset paths
    /// under the bootloader's kernel directory.
    pub fn installed_kernels(&self, paths: &Vec<String>) -> (r: Result<Vec<Kernel>, crate::Error>)
        ensures
            match self {
                Bootloader::Systemd(l) => r matches Ok(ks) && (match l.schema {
                    Schema::Legacy { namespace, .. } => legacy_result_ok(namespace@, paths@, ks@),
                    _ => bls_result_ok(paths@, ks@),
                }),
            },
    {
        match self {
            Bootloader::Systemd(l) => l.installed_kernels(paths),
        }
    }
}

} // verus!
