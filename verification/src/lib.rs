//! Boot Loader Specification (BLS) kernel and boot-loader management.
//!
//! This crate discovers installed kernels under a system root, resolves the
//! boot environment (EFI System Partition and optional XBOOTLDR partition),
//! and computes the exact file layout a `systemd-boot` installation needs:
//! loader entries, loader configuration, and the kernel/initrd asset tree.
//!
//! All path and configuration computations are pure over plain strings and
//! carry contracts; the thin I/O shell that reads `/sys`, `/proc` and the
//! boot partitions lives outside this library and feeds it plain values.

use vstd::prelude::*;

pub mod bootenv;
pub mod disk;
pub mod bootloader;
pub mod entry;
pub mod file_utils;
pub mod kernel;
pub mod os_info;
pub mod os_release;
pub mod strutil;
pub mod systemd_boot;

verus! {

/// Wrap a root into a strong type to avoid confusion between a running
/// system (native) and an offline image tree.
pub enum Root {
    /// Native installation: the path is always `/`.
    Native(String),

    /// Image generation: an offline tree rooted at the given path.
    Image(String),
}

impl Root {
    /// A native root always points at `/`.
    pub open spec fn wf(&self) -> bool {
        match self {
            Root::Native(p) => p@ == "/"@,
            Root::Image(_) => true,
        }
    }

    /// True when this root is an offline image tree.
    pub open spec fn spec_is_image(&self) -> bool {
        matches!(self, Root::Image(_))
    }

    /// When we don't need the type of the root.
    pub fn path(&self) -> (r: &String)
        ensures
            r@ == match self {
                Root::Native(p) => p@,
                Root::Image(p) => p@,
            },
    {
        match self {
            Root::Native(p) => p,
            Root::Image(p) => p,
        }
    }

    /// Classify a requested root path: only `/` may be treated as a native
    /// installation; any other path (or an explicit image request) is an
    /// offline image tree.
    pub fn from_parts(path: String, image: bool) -> (r: Root)
        ensures
            r.wf(),
            match r {
                Root::Native(p) => !image && p@ == path@ && path@ == "/"@,
                Root::Image(p) => p@ == path@ && (image || path@ != "/"@),
            },
    {
        if image {
            Root::Image(path)
        } else {
            let is_slash = strutil::str_eq(path.as_str(), "/");
            if is_slash {
                proof {
                    reveal_strlit("/");
                }
                Root::Native(path)
            } else {
                Root::Image(path)
            }
        }
    }
}

/// Core configuration for boot management.
pub struct Configuration {
    /// Root of all operations.
    pub root: Root,

    /// Where we can find `sysfs`, `procfs`, etc.
    pub vfs: String,
}

impl Configuration {
    /// A configuration is well formed when its root is.
    pub open spec fn wf(&self) -> bool {
        self.root.wf()
    }
}

/// Core error type for boot management.
#[derive(Debug)]
pub enum Error {
    /// The boot loader protocol probe failed or is unavailable.
    BootLoaderProtocol,

    /// No XBOOTLDR partition was detected.
    NoXbootldr,

    /// No EFI System Partition was detected.
    NoEsp,

    /// A path had no usable file name component.
    InvalidFilesystem,

    /// A `boot.json` document could not be decoded.
    Json,

    /// The requested operation is unsupported in this situation.
    Unsupported,
}

} // verus!
