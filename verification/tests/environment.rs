//! Boot environment resolution, the mounts snapshot, and the file
//! utilities.

use blsforme::bootenv::{decode_ucs2, BootEnvironment, Firmware, GptPartition};
use blsforme::disk::{Builder, Probe, Table};
use blsforme::file_utils::{insensitive_lookup, needs_copy};
use blsforme::{Configuration, Error, Root};

fn native_config() -> Configuration {
    Configuration { root: Root::from_parts(String::from("/"), false), vfs: String::from("/") }
}

#[test]
fn uefi_without_esp_is_fatal() {
    let r = BootEnvironment::new(Firmware::Uefi, None, None, None, None);
    assert!(matches!(r, Err(Error::NoEsp)));
    let ok = BootEnvironment::new(
        Firmware::Uefi,
        Some(String::from("/dev/sda1")),
        Some(String::from("/dev/sda2")),
        Some(String::from("/efi")),
        Some(String::from("/boot")),
    )
    .expect("environment construction failed");
    assert_eq!(ok.esp().map(String::as_str), Some("/dev/sda1"));
    assert_eq!(ok.xbootldr().map(String::as_str), Some("/dev/sda2"));
    assert_eq!(ok.boot_partition().map(String::as_str), Some("/dev/sda2"));
    let bios = BootEnvironment::new(Firmware::Bios, None, None, None, None)
        .expect("bios environment failed");
    assert_eq!(bios.boot_partition(), None);
}

#[test]
fn bls_probe_resolves_partuuid_path() {
    let config = native_config();
    let uuid = String::from("c12a7328-f81f-11d2-ba4b-00a0c93ec93b");
    let r = BootEnvironment::determine_esp_by_bls(&Firmware::Uefi, &config, Some(uuid));
    assert_eq!(
        r.ok().as_deref(),
        Some("/dev/disk/by-partuuid/c12a7328-f81f-11d2-ba4b-00a0c93ec93b")
    );
    // in image mode the protocol is skipped
    let image = Configuration {
        root: Root::from_parts(String::from("/mnt"), true),
        vfs: String::from("/"),
    };
    let skipped = BootEnvironment::determine_esp_by_bls(
        &Firmware::Uefi,
        &image,
        Some(String::from("c12a7328-f81f-11d2-ba4b-00a0c93ec93b")),
    );
    assert!(matches!(skipped, Err(Error::BootLoaderProtocol)));
    // BIOS never speaks the protocol
    let bios = BootEnvironment::determine_esp_by_bls(&Firmware::Bios, &native_config(), None);
    assert!(matches!(bios, Err(Error::Unsupported)));
}

#[test]
fn gpt_scan_finds_first_esp() {
    let config = native_config();
    let partitions = vec![
        GptPartition {
            type_guid: String::from("0fc63daf-8483-4772-8e79-3d69d8477de4"),
            part_guid: String::from("11111111-1111-1111-1111-111111111111"),
        },
        GptPartition {
            type_guid: String::from("c12a7328-f81f-11d2-ba4b-00a0c93ec93b"),
            part_guid: String::from("22222222-2222-2222-2222-222222222222"),
        },
    ];
    let r = BootEnvironment::determine_esp_by_gpt(&partitions, &config);
    assert_eq!(
        r.ok().as_deref(),
        Some("/dev/disk/by-partuuid/22222222-2222-2222-2222-222222222222")
    );
    let none = BootEnvironment::determine_esp_by_gpt(&Vec::new(), &config);
    assert!(matches!(none, Err(Error::NoEsp)));
    let xboot = vec![GptPartition {
        type_guid: String::from("BC13C2FF-59E6-4262-A352-B275FD6F7172"),
        part_guid: String::from("33333333-3333-3333-3333-333333333333"),
    }];
    let r2 = BootEnvironment::discover_xbootldr(&xboot, &config);
    assert_eq!(
        r2.ok().as_deref(),
        Some("/dev/disk/by-partuuid/33333333-3333-3333-3333-333333333333")
    );
    let none2 = BootEnvironment::discover_xbootldr(&Vec::new(), &config);
    assert!(matches!(none2, Err(Error::NoXbootldr)));
}

#[test]
fn ucs2_decoding() {
    // "c1" in UCS-2 little endian with a trailing NUL
    let bytes = vec![0x63u8, 0x00, 0x31, 0x00, 0x00, 0x00];
    assert_eq!(decode_ucs2(&bytes).as_deref(), Some("c1"));
    // odd length is refused
    assert_eq!(decode_ucs2(&vec![0x63u8, 0x00, 0x31]), None);
    // surrogate code units are refused
    assert_eq!(decode_ucs2(&vec![0x00u8, 0xD8]), None);
    // empty input decodes to the empty string
    assert_eq!(decode_ucs2(&Vec::new()).as_deref(), Some(""));
}

#[test]
fn mounts_snapshot_parses_and_answers() {
    let text = "/dev/sda2 / ext4 rw,relatime 0 0\n/dev/sda1 /efi vfat rw 0 0\nbad line\n";
    let table = Table::parse(text);
    assert_eq!(table.entries.len(), 2);
    assert_eq!(table.entries[0].device, "/dev/sda2");
    assert_eq!(table.entries[0].mountpoint, "/");
    assert_eq!(table.entries[0].fstype, "ext4");
    assert_eq!(table.entries[0].options, "rw,relatime");
    assert_eq!(
        table.device_for_mountpoint("/efi").as_deref(),
        Some("/dev/sda1")
    );
    assert_eq!(table.device_for_mountpoint("/boot"), None);
    assert_eq!(
        table.mountpoint_for_device("/dev/sda1").as_deref(),
        Some("/efi")
    );
}

#[test]
fn probe_builds_and_scans() {
    let builder = Builder::default()
        .with_sysfs(String::from("/sys"))
        .with_devfs(String::from("/dev"))
        .with_procfs(String::from("/proc"));
    let mut probe = Probe::new(builder.sysfs, builder.devfs, builder.procfs);
    assert_eq!(probe.mounts_path(), "/proc/self/mounts");
    probe.init_scan("/dev/sda2 / ext4 rw 0 0\n");
    assert_eq!(probe.mounts.entries.len(), 1);
    assert_eq!(probe.sysfs_block_path("sda2"), "/sys/class/block/sda2");
    assert_eq!(probe.devfs_path("dm-0"), "/dev/dm-0");
    assert_eq!(probe.devfs_majmin_path(8, 2), "/dev/block/8:2");
}

#[test]
fn change_detection_skips_unchanged_content() {
    let source = vec![1u8, 2, 3];
    let same = vec![1u8, 2, 3];
    let different = vec![1u8, 2, 4];
    assert!(!needs_copy(&source, Some(&same)));
    assert!(needs_copy(&source, Some(&different)));
    assert!(needs_copy(&source, None));
    assert!(needs_copy(&source, Some(&vec![1u8, 2])));
}

#[test]
fn insensitive_name_matching() {
    let existing = vec![String::from("efi"), String::from("Boot"), String::from("BOOT")];
    assert_eq!(insensitive_lookup(&existing, "EFI"), Some(0));
    assert_eq!(insensitive_lookup(&existing, "boot"), Some(1));
    assert_eq!(insensitive_lookup(&existing, "loader"), None);
}

#[test]
fn native_root_is_always_slash() {
    let native = Root::from_parts(String::from("/"), false);
    assert!(matches!(&native, Root::Native(p) if p == "/"));
    assert_eq!(native.path(), "/");
    let elsewhere = Root::from_parts(String::from("/mnt"), false);
    assert!(matches!(&elsewhere, Root::Image(p) if p == "/mnt"));
    let forced = Root::from_parts(String::from("/"), true);
    assert!(matches!(&forced, Root::Image(p) if p == "/"));
}
