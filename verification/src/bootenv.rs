//! Boot environment tracking: firmware flavour, EFI System Partition
//! and XBOOTLDR discovery, and the boot loader protocol's variable
//! encoding.

use vstd::prelude::*;

use crate::strutil;
use crate::{Configuration, Error, Root};

verus! {

/// Type of firmware detected.
///
/// By knowing the available firmware (effectively: is `efivarfs`
/// usable) we can detect full availability of UEFI features or legacy
/// fallback.
#[derive(Clone, Copy, PartialEq, Eq, Structural)]
pub enum Firmware {
    /// UEFI.
    Uefi,

    /// Legacy BIOS. Tread carefully.
    Bios,
}

/// One partition of a GPT table, as plain hyphenated GUID strings.
pub struct GptPartition {
    /// The partition type GUID.
    pub type_guid: String,

    /// The partition's own GUID (PartUUID).
    pub part_guid: String,
}

/// The GPT type GUID of an EFI System Partition.
pub open spec fn esp_type_guid() -> Seq<char> {
    "C12A7328-F81F-11D2-BA4B-00A0C93EC93B"@
}

/// The GPT type GUID of an Extended Boot Loader Partition.
pub open spec fn xbootldr_type_guid() -> Seq<char> {
    "BC13C2FF-59E6-4262-A352-B275FD6F7172"@
}

/// Helps access the boot environment, ie `$BOOT` and the specific ESP.
pub struct BootEnvironment {
    /// xbootldr device.
    pub xbootldr: Option<String>,

    /// The EFI System Partition (stored as a device path).
    pub esp: Option<String>,

    /// Firmware in use.
    pub firmware: Firmware,

    /// Mountpoint of the ESP, when it is mounted.
    pub esp_mountpoint: Option<String>,

    /// Mountpoint of the XBOOTLDR partition, when it is mounted.
    pub xboot_mountpoint: Option<String>,
}

impl BootEnvironment {
    /// A UEFI system always has an EFI System Partition.
    pub open spec fn wf(&self) -> bool {
        self.firmware == Firmware::Uefi ==> self.esp is Some
    }

    /// Assemble a boot environment from the resolved parts: the probe
    /// results for the ESP and XBOOTLDR devices and their mountpoints.
    /// On UEFI firmware a missing ESP is refused; without an ESP no
    /// XBOOTLDR is recorded either.
    pub fn new(
        firmware: Firmware,
        esp: Option<String>,
        xbootldr: Option<String>,
        esp_mountpoint: Option<String>,
        xboot_mountpoint: Option<String>,
    ) -> (r: Result<Self, Error>)
        ensures
            r is Ok <==> !(firmware == Firmware::Uefi && esp is None),
            r matches Ok(b) ==> b.wf() && b.firmware == firmware && b.esp == esp,
            r matches Ok(b) ==> (esp is Some ==> b.xbootldr == xbootldr && b.esp_mountpoint
                == esp_mountpoint && b.xboot_mountpoint == xboot_mountpoint),
            r matches Ok(b) ==> (esp is None ==> b.xbootldr is None && b.esp_mountpoint is None
                && b.xboot_mountpoint is None),
            r matches Err(e) ==> e is NoEsp,
    {
        let esp_missing = matches!(esp, None);
        if matches!(firmware, Firmware::Uefi) && esp_missing {
            return Err(Error::NoEsp);
        }
        if esp_missing {
            return Ok(BootEnvironment {
                xbootldr: None,
                esp,
                firmware,
                esp_mountpoint: None,
                xboot_mountpoint: None,
            });
        }
        Ok(BootEnvironment { xbootldr, esp, firmware, esp_mountpoint, xboot_mountpoint })
    }

    /// The boot loader protocol is only asked on a UEFI system running
    /// natively; on BIOS the protocol is unsupported, and an image
    /// build must not read the host's EFI variables. Given the
    /// `LoaderDevicePartUUID` variable's decoded value, resolve the ESP
    /// device path it names.
    pub fn determine_esp_by_bls(
        firmware: &Firmware,
        config: &Configuration,
        loader_device_part_uuid: Option<String>,
    ) -> (r: Result<String, Error>)
        ensures
            matches!(firmware, Firmware::Bios) ==> (r matches Err(e) && e is Unsupported),
            matches!(config.root, Root::Image(_)) ==> (r matches Err(e) && (e is Unsupported
                || e is BootLoaderProtocol)),
            (matches!(firmware, Firmware::Uefi) && !matches!(config.root, Root::Image(_)))
                ==> match loader_device_part_uuid {
                Some(uuid) => r matches Ok(p) && p@ == strutil::path_join(
                    config.vfs@,
                    "dev/disk/by-partuuid"@,
                ) + seq!['/'] + uuid@,
                None => r matches Err(e) && e is BootLoaderProtocol,
            },
    {
        if matches!(firmware, Firmware::Bios) {
            return Err(Error::Unsupported);
        }
        if matches!(config.root, Root::Image(_)) {
            return Err(Error::BootLoaderProtocol);
        }
        match loader_device_part_uuid {
            Some(uuid) => {
                proof {
                    reveal_strlit("/");
                    assert("/"@ =~= seq!['/']);
                }
                let base = strutil::path_join_exec(config.vfs.as_str(), "dev/disk/by-partuuid");
                let mut out = base;
                out.append("/");
                out.append(uuid.as_str());
                Ok(out)
            }
            None => Err(Error::BootLoaderProtocol),
        }
    }

    /// Determine the ESP by searching a GPT table: the first partition
    /// carrying the EFI System Partition type GUID names the device
    /// under `{vfs}/dev/disk/by-partuuid`.
    pub fn determine_esp_by_gpt(partitions: &Vec<GptPartition>, config: &Configuration) -> (r:
        Result<String, Error>)
        ensures
            match r {
                Ok(p) => exists|i: int|
                    0 <= i < partitions@.len() && strutil::lower_codes(
                        (#[trigger] partitions@[i]).type_guid@,
                    ) == strutil::lower_codes(esp_type_guid()) && p@ == strutil::path_join(
                        config.vfs@,
                        "dev/disk/by-partuuid"@,
                    ) + seq!['/'] + partitions@[i].part_guid@ && forall|j: int|
                        0 <= j < i ==> strutil::lower_codes(
                            (#[trigger] partitions@[j]).type_guid@,
                        ) != strutil::lower_codes(esp_type_guid()),
                Err(e) => e is NoEsp && forall|i: int|
                    0 <= i < partitions@.len() ==> strutil::lower_codes(
                        (#[trigger] partitions@[i]).type_guid@,
                    ) != strutil::lower_codes(esp_type_guid()),
            },
    {
        match find_partition_by_type(partitions, "C12A7328-F81F-11D2-BA4B-00A0C93EC93B") {
            Some(idx) => {
                proof {
                    reveal_strlit("/");
                    assert("/"@ =~= seq!['/']);
                }
                let mut out = strutil::path_join_exec(
                    config.vfs.as_str(),
                    "dev/disk/by-partuuid",
                );
                out.append("/");
                out.append(partitions[idx].part_guid.as_str());
                Ok(out)
            }
            None => Err(Error::NoEsp),
        }
    }

    /// Discover an XBOOTLDR partition *relative* to wherever the ESP
    /// is: the first partition of the ESP's disk carrying the Extended
    /// Boot Loader type GUID.
    pub fn discover_xbootldr(partitions: &Vec<GptPartition>, config: &Configuration) -> (r:
        Result<String, Error>)
        ensures
            match r {
                Ok(p) => exists|i: int|
                    0 <= i < partitions@.len() && strutil::lower_codes(
                        (#[trigger] partitions@[i]).type_guid@,
                    ) == strutil::lower_codes(xbootldr_type_guid()) && p@ == strutil::path_join(
                        config.vfs@,
                        "dev/disk/by-partuuid"@,
                    ) + seq!['/'] + partitions@[i].part_guid@ && forall|j: int|
                        0 <= j < i ==> strutil::lower_codes(
                            (#[trigger] partitions@[j]).type_guid@,
                        ) != strutil::lower_codes(xbootldr_type_guid()),
                Err(e) => e is NoXbootldr && forall|i: int|
                    0 <= i < partitions@.len() ==> strutil::lower_codes(
                        (#[trigger] partitions@[i]).type_guid@,
                    ) != strutil::lower_codes(xbootldr_type_guid()),
            },
    {
        match find_partition_by_type(partitions, "BC13C2FF-59E6-4262-A352-B275FD6F7172") {
            Some(idx) => {
                proof {
                    reveal_strlit("/");
                    assert("/"@ =~= seq!['/']);
                }
                let mut out = strutil::path_join_exec(
                    config.vfs.as_str(),
                    "dev/disk/by-partuuid",
                );
                out.append("/");
                out.append(partitions[idx].part_guid.as_str());
                Ok(out)
            }
            None => Err(Error::NoXbootldr),
        }
    }

    /// The so-called `$BOOT` partition: XBOOTLDR when present, the ESP
    /// otherwise.
    pub fn boot_partition(&self) -> (r: Option<&String>)
        ensures
            match r {
                Some(p) => if self.xbootldr is Some {
                    Some(*p) == self.xbootldr
                } else {
                    Some(*p) == self.esp
                },
                None => self.xbootldr is None && self.esp is None,
            },
    {
        if let Some(part) = self.xbootldr.as_ref() {
            Some(part)
        } else {
            self.esp.as_ref()
        }
    }

    /// Return the EFI System Partition (UEFI only).
    pub fn esp(&self) -> (r: Option<&String>)
        ensures
            match r {
                Some(p) => self.esp == Some(*p),
                None => self.esp is None,
            },
    {
        self.esp.as_ref()
    }

    /// Return the XBOOTLDR partition (UEFI only).
    pub fn xbootldr(&self) -> (r: Option<&String>)
        ensures
            match r {
                Some(p) => self.xbootldr == Some(*p),
                None => self.xbootldr is None,
            },
    {
        self.xbootldr.as_ref()
    }
}

/// Index of the first partition whose type GUID equals `type_guid` up
/// to ASCII case.
fn find_partition_by_type(partitions: &Vec<GptPartition>, type_guid: &str) -> (r: Option<usize>)
    ensures
        match r {
            Some(i) => i < partitions@.len() && strutil::lower_codes(
                partitions@[i as int].type_guid@,
            ) == strutil::lower_codes(type_guid@) && forall|j: int|
                0 <= j < i ==> strutil::lower_codes((#[trigger] partitions@[j]).type_guid@)
                    != strutil::lower_codes(type_guid@),
            None => forall|j: int|
                0 <= j < partitions@.len() ==> strutil::lower_codes(
                    (#[trigger] partitions@[j]).type_guid@,
                ) != strutil::lower_codes(type_guid@),
        },
{
    let mut i: usize = 0;
    while i < partitions.len()
        invariant
            i <= partitions@.len(),
            forall|j: int|
                0 <= j < i ==> strutil::lower_codes((#[trigger] partitions@[j]).type_guid@)
                    != strutil::lower_codes(type_guid@),
        decreases partitions@.len() - i,
    {
        if strutil::eq_ignore_case(partitions[i].type_guid.as_str(), type_guid) {
            return Some(i);
        }
        i = i + 1;
    }
    None
}

/// The sixteen-bit code units of a UCS-2 little-endian byte string.
pub open spec fn ucs2_units(bytes: Seq<u8>) -> Seq<int> {
    Seq::new((bytes.len() / 2) as nat, |i: int| bytes[2 * i] + 256 * bytes[2 * i + 1])
}

/// Relies on String::push: appends exactly one character.
#[verifier::external_body]
fn push_char(s: &mut String, c: char)
    ensures
        final(s)@ == old(s)@.push(c),
{
    s.push(c);
}

/// Relies on char::from_u32: Some exactly for values that are no
/// surrogate and no more than the largest scalar value, holding that
/// value.
#[verifier::external_body]
fn char_from_u32(v: u32) -> (r: Option<char>)
    ensures
        match r {
            Some(c) => c as int == v as int,
            None => (0xD800 <= v <= 0xDFFF) || v > 0x10FFFF,
        },
{
    char::from_u32(v)
}

/// A successful decode: the characters mirror the code units up to
/// the first NUL unit or the end of the input.
pub open spec fn decoded_ok(bytes: Seq<u8>, s: Seq<char>) -> bool {
    &&& bytes.len() % 2 == 0
    &&& s.len() <= ucs2_units(bytes).len()
    &&& (s.len() == ucs2_units(bytes).len() || ucs2_units(bytes)[s.len() as int] == 0)
    &&& forall|i: int|
        0 <= i < s.len() ==> (#[trigger] s[i]) as int == ucs2_units(bytes)[i] && ucs2_units(
            bytes,
        )[i] != 0
}

/// Decode a UCS-2 little-endian byte string, as the boot loader
/// protocol stores its EFI variables, up to its first NUL unit or its
/// end. Odd-length input and surrogate code units are refused.
pub fn decode_ucs2(bytes: &Vec<u8>) -> (r: Option<String>)
    ensures
        match r {
            Some(s) => decoded_ok(bytes@, s@),
            None => bytes@.len() % 2 != 0 || exists|i: int|
                0 <= i < ucs2_units(bytes@).len() && (0xD800 <= #[trigger] ucs2_units(
                    bytes@,
                )[i] < 0xE000) && forall|j: int| 0 <= j < i ==> ucs2_units(bytes@)[j] != 0,
        },
{
    let ghost units = ucs2_units(bytes@);
    if bytes.len() % 2 != 0 {
        return None;
    }
    let count = bytes.len() / 2;
    let mut out = String::new();
    let mut i: usize = 0;
    while i < count
        invariant
            bytes@.len() % 2 == 0,
            count == units.len(),
            units == ucs2_units(bytes@),
            i <= count,
            out@.len() == i,
            forall|k: int| 0 <= k < i ==> (#[trigger] out@[k]) as int == units[k] && units[k] != 0,
        decreases count - i,
    {
        let blen = bytes.len();
        proof {
            assert(blen == 2 * (blen as int / 2));
            assert(2 * (i as int) + 1 < blen as int);
        }
        let lo = bytes[2 * i];
        let hi = bytes[2 * i + 1];
        let unit: u32 = lo as u32 + 256 * (hi as u32);
        proof {
            assert(unit as int == units[i as int]);
        }
        if unit == 0 {
            proof {
                assert(out@.len() < ucs2_units(bytes@).len());
                assert(ucs2_units(bytes@)[out@.len() as int] == 0);
                assert forall|k: int| 0 <= k < out@.len() implies ((#[trigger] out@[k]) as int
                    == ucs2_units(bytes@)[k] && ucs2_units(bytes@)[k] != 0) by {
                    assert(out@[k] as int == units[k]);
                }
            }
            proof {
                assert(decoded_ok(bytes@, out@));
            }
            return Some(out);
        }
        match char_from_u32(unit) {
            Some(c) => {
                push_char(&mut out, c);
            }
            None => {
                proof {
                    assert(0xD800 <= units[i as int] < 0xE000);
                    assert(exists|k: int|
                        0 <= k < ucs2_units(bytes@).len() && (0xD800 <= #[trigger] ucs2_units(
                            bytes@,
                        )[k] < 0xE000) && forall|j: int| 0 <= j < k ==> ucs2_units(bytes@)[j]
                            != 0) by {
                        let wi = i as int;
                        assert forall|j: int| 0 <= j < wi implies ucs2_units(bytes@)[j] != 0 by {
                            assert(out@[j] as int == units[j]);
                        }
                        assert(0 <= wi < ucs2_units(bytes@).len() && (0xD800 <= ucs2_units(
                            bytes@,
                        )[wi] < 0xE000) && forall|j: int|
                            0 <= j < wi ==> ucs2_units(bytes@)[j] != 0);
                    }
                }
                return None;
            }
        }
        i = i + 1;
    }
    proof {
        assert(out@.len() == ucs2_units(bytes@).len());
        assert forall|k: int| 0 <= k < out@.len() implies ((#[trigger] out@[k]) as int
            == ucs2_units(bytes@)[k] && ucs2_units(bytes@)[k] != 0) by {
            assert(out@[k] as int == units[k]);
        }
    }
    proof {
        assert(decoded_ok(bytes@, out@));
    }
    Some(out)
}

} // verus!
