//! Entries, loader plans, and stale cleanup.

use blsforme::bootloader::Mounts;
use blsforme::entry::{CmdlineEntry, Entry};
use blsforme::kernel::{AuxiliaryFile, AuxiliaryKind, Kernel, Schema};
use blsforme::os_info::{OsInfo, OsInfoIdentity};
use blsforme::os_release::OsRelease;
use blsforme::systemd_boot::{InstallResult, Loader};

fn aeryn_release(pretty: Option<&str>) -> OsRelease {
    OsRelease {
        id: String::from("aerynos"),
        name: String::from("AerynOS"),
        version_id: None,
        pretty_name: pretty.map(String::from),
    }
}

fn kernel(version: &str, image: &str, initrds: Vec<&str>) -> Kernel {
    Kernel {
        version: String::from(version),
        image: String::from(image),
        initrd: initrds
            .into_iter()
            .map(|p| AuxiliaryFile { path: String::from(p), kind: AuxiliaryKind::InitRd })
            .collect(),
        extras: Vec::new(),
        variant: None,
    }
}

fn esp_loader(schema: Schema) -> Loader {
    let mounts = Mounts { esp: Some(String::from("/efi")), xbootldr: None };
    Loader::new(schema, Vec::new(), mounts).expect("loader construction failed")
}

#[test]
fn entry_id_with_state_id() {
    let schema = Schema::Blsforme { os_release: aeryn_release(None) };
    let entry = Entry::new(kernel("6.9.0-1.desktop", "/usr/lib/kernel/6.9.0-1.desktop/vmlinuz", vec![]))
        .with_state_id(42);
    assert_eq!(entry.id(&schema), "aerynos-6.9.0-1.desktop-42");
    let plain = Entry::new(kernel("6.9.0-1.desktop", "/usr/lib/kernel/6.9.0-1.desktop/vmlinuz", vec![]));
    assert_eq!(plain.id(&schema), "aerynos-6.9.0-1.desktop");
}

#[test]
fn loader_config_text() {
    let schema = Schema::Blsforme { os_release: aeryn_release(Some("AerynOS")) };
    let loader = esp_loader(schema);
    let entry = Entry::new(kernel(
        "6.9.0",
        "/usr/lib/kernel/6.9.0/vmlinuz",
        vec!["/usr/lib/kernel/6.9.0/initrd"],
    ));
    let text = loader.generate_entry("EFI/aerynos", "root=PARTUUID=abc quiet", &entry);
    assert_eq!(
        text,
        "title AerynOS (6.9.0)\nlinux /EFI/aerynos/6.9.0/vmlinuz\ninitrd /EFI/aerynos/6.9.0/initrd\noptions root=PARTUUID=abc quiet\n"
    );
}

#[test]
fn loader_config_blank_line_without_initrds() {
    let schema = Schema::Blsforme { os_release: aeryn_release(Some("AerynOS")) };
    let loader = esp_loader(schema);
    let entry = Entry::new(kernel("6.9.0", "/usr/lib/kernel/6.9.0/vmlinuz", vec![]));
    let text = loader.generate_entry("EFI/aerynos", "quiet", &entry);
    assert_eq!(
        text,
        "title AerynOS (6.9.0)\nlinux /EFI/aerynos/6.9.0/vmlinuz\n\noptions quiet\n"
    );
}

#[test]
fn installed_names_by_schema() {
    let legacy = Schema::Legacy {
        os_release: OsRelease {
            id: String::from("solus"),
            name: String::from("Solus"),
            version_id: Some(String::from("4.4")),
            pretty_name: None,
        },
        namespace: String::from("com.solus-project"),
    };
    let entry = Entry::new(kernel(
        "6.1.7-25",
        "/usr/lib/kernel/com.solus-project.desktop.6.1.7-25",
        vec!["/usr/lib/kernel/initrd-com.solus-project.desktop.6.1.7-25"],
    ));
    assert_eq!(
        entry.installed_kernel_name(&legacy).as_deref(),
        Some("kernel-com.solus-project.desktop.6.1.7-25")
    );
    assert_eq!(
        entry
            .installed_asset_name(&legacy, &entry.kernel.initrd[0])
            .as_deref(),
        Some("initrd-initrd-com.solus-project.desktop.6.1.7-25")
    );
    let modern = Schema::Blsforme { os_release: aeryn_release(None) };
    assert_eq!(
        entry.installed_kernel_name(&modern).as_deref(),
        Some("6.1.7-25/vmlinuz")
    );
    assert_eq!(
        entry
            .installed_asset_name(&modern, &entry.kernel.initrd[0])
            .as_deref(),
        Some("6.1.7-25/initrd-com.solus-project.desktop.6.1.7-25")
    );
    let extra = AuxiliaryFile { path: String::from("cfg"), kind: AuxiliaryKind::Config };
    assert_eq!(entry.installed_asset_name(&modern, &extra), None);
}

#[test]
fn install_plan_lays_out_the_asset_tree() {
    let schema = Schema::Blsforme { os_release: aeryn_release(Some("AerynOS")) };
    let loader = esp_loader(schema);
    let entry = Entry::new(kernel(
        "6.9",
        "/usr/lib/kernel/6.9/vmlinuz",
        vec!["/usr/lib/kernel/6.9/initrd"],
    ));
    let plan = loader.install("quiet", &entry).expect("install failed");
    assert_eq!(plan.copies.len(), 2);
    assert_eq!(plan.copies[0].source, "/usr/lib/kernel/6.9/vmlinuz");
    assert_eq!(plan.copies[0].dest, "/efi/EFI/aerynos/6.9/vmlinuz");
    assert_eq!(plan.copies[1].source, "/usr/lib/kernel/6.9/initrd");
    assert_eq!(plan.copies[1].dest, "/efi/EFI/aerynos/6.9/initrd");
    assert_eq!(plan.entries_dir, "/efi/loader/entries");
    assert_eq!(plan.loader_conf_path, "/efi/loader/entries/aerynos-6.9.conf");
    assert_eq!(plan.result.loader_conf, "/efi/loader/entries/aerynos-6.9.conf");
    assert_eq!(plan.result.kernel_dir, "/efi/EFI/aerynos/6.9");
}

#[test]
fn install_plan_roots_assets_at_sysroot() {
    let schema = Schema::Blsforme { os_release: aeryn_release(None) };
    let loader = esp_loader(schema);
    let entry = Entry::new(kernel("6.9", "usr/lib/kernel/6.9/vmlinuz", vec![]))
        .with_sysroot(String::from("/mnt/image"));
    let plan = loader.install("quiet", &entry).expect("install failed");
    assert_eq!(plan.copies[0].source, "/mnt/image/usr/lib/kernel/6.9/vmlinuz");
}

#[test]
fn sync_plan_writes_loader_conf_and_binary() {
    let schema = Schema::Blsforme { os_release: aeryn_release(None) };
    let mounts = Mounts { esp: Some(String::from("/efi")), xbootldr: None };
    let assets = vec![String::from("/usr/lib/systemd/boot/efi/systemd-bootx64.efi")];
    let loader = Loader::new(schema, assets, mounts).expect("loader construction failed");
    let plan = loader.sync().expect("sync failed");
    assert_eq!(plan.copies.len(), 2);
    assert_eq!(plan.copies[0].dest, "/efi/EFI/Boot/BOOTX64.EFI");
    assert_eq!(plan.copies[1].dest, "/efi/EFI/systemd/systemd-bootx64.efi");
    assert_eq!(plan.loader_conf_path, "/efi/loader/loader.conf");
    assert_eq!(plan.loader_conf_contents, "default \"aerynos*\"\n");
}

#[test]
fn sync_fails_without_binary_or_esp() {
    let schema = Schema::Blsforme { os_release: aeryn_release(None) };
    let mounts = Mounts { esp: Some(String::from("/efi")), xbootldr: None };
    let loader = Loader::new(schema, Vec::new(), mounts).expect("loader construction failed");
    assert!(loader.sync().is_err());
    let schema2 = Schema::Blsforme { os_release: aeryn_release(None) };
    let no_mounts = Mounts { esp: None, xbootldr: None };
    assert!(Loader::new(schema2, Vec::new(), no_mounts).is_err());
}

#[test]
fn boot_root_prefers_xbootldr() {
    let schema = Schema::Blsforme { os_release: aeryn_release(None) };
    let mounts = Mounts {
        esp: Some(String::from("/efi")),
        xbootldr: Some(String::from("/boot")),
    };
    let loader = Loader::new(schema, Vec::new(), mounts).expect("loader construction failed");
    let plan = loader
        .install("quiet", &Entry::new(kernel("6.9", "/usr/lib/kernel/6.9/vmlinuz", vec![])))
        .expect("install failed");
    assert_eq!(plan.loader_conf_path, "/boot/loader/entries/aerynos-6.9.conf");
    assert_eq!(plan.copies[0].dest, "/boot/EFI/aerynos/6.9/vmlinuz");
}

#[test]
fn cmdline_snippets_filter_and_join() {
    let schema = Schema::Blsforme { os_release: aeryn_release(None) };
    let loader = esp_loader(schema);
    let entry = Entry::new(kernel("6.9", "/usr/lib/kernel/6.9/vmlinuz", vec![]))
        .with_cmdline(CmdlineEntry {
            name: String::from("00-quiet.cmdline"),
            snippet: String::from("quiet splash"),
        })
        .with_cmdline(CmdlineEntry {
            name: String::from("10-debug.cmdline"),
            snippet: String::from("debug"),
        });
    let base = vec![String::from("root=PARTUUID=abc")];
    let excluded = vec![String::from("10-debug.cmdline")];
    let plans = loader
        .sync_entries(&base, &vec![entry], &excluded)
        .expect("sync entries failed");
    assert_eq!(plans.len(), 1);
    assert!(plans[0]
        .loader_conf_contents
        .contains("options root=PARTUUID=abc quiet splash\n"));
    assert!(!plans[0].loader_conf_contents.contains("debug"));
}

#[test]
fn stale_cleanup_across_identity_rename() {
    let schema = Schema::OsInfo {
        os_info: OsInfo {
            identity: OsInfoIdentity {
                id: String::from("aerynos"),
                name: String::from("aerynos"),
                display: String::from("AerynOS"),
                former_identities: vec![String::from("serpent-os")],
            },
        },
    };
    let loader = esp_loader(schema);
    let entry = Entry::new(kernel("6.9", "/usr/lib/kernel/6.9/vmlinuz", vec![]));
    let plan = loader.install("quiet", &entry).expect("install failed");
    assert_eq!(plan.copies[0].dest, "/efi/EFI/aerynos/6.9/vmlinuz");
    let installed = vec![plan.result.clone()];
    let loader_files = vec![
        String::from("/efi/loader/entries/serpent-os-6.5-1.conf"),
        plan.result.loader_conf.clone(),
        String::from("/efi/loader/entries/other-os-1.0.conf"),
    ];
    let kernel_dirs = vec![
        String::from("/efi/EFI/serpent-os/6.5-1"),
        plan.result.kernel_dir.clone(),
    ];
    let cleanup = loader.cleanup_stale_entries(&installed, &loader_files, &kernel_dirs);
    assert_eq!(cleanup.remove_files, vec![String::from("/efi/loader/entries/serpent-os-6.5-1.conf")]);
    assert_eq!(cleanup.remove_dirs, vec![String::from("/efi/EFI/serpent-os/6.5-1")]);
}

#[test]
fn empty_entries_still_clean_everything_stale() {
    let schema = Schema::Blsforme { os_release: aeryn_release(None) };
    let loader = esp_loader(schema);
    let plans = loader
        .sync_entries(&Vec::new(), &Vec::new(), &Vec::new())
        .expect("sync entries failed");
    assert!(plans.is_empty());
    let installed: Vec<InstallResult> = Vec::new();
    let loader_files = vec![
        String::from("/efi/loader/entries/aerynos-6.1.conf"),
        String::from("/efi/loader/entries/unrelated-os.conf"),
    ];
    let kernel_dirs = vec![String::from("/efi/EFI/aerynos/6.1")];
    let cleanup = loader.cleanup_stale_entries(&installed, &loader_files, &kernel_dirs);
    assert_eq!(cleanup.remove_files, vec![String::from("/efi/loader/entries/aerynos-6.1.conf")]);
    assert_eq!(cleanup.remove_dirs, vec![String::from("/efi/EFI/aerynos/6.1")]);
}

#[test]
fn cmdline_snippet_normalisation() {
    assert_eq!(
        blsforme::entry::cmdline_snippet_text("quiet\nsplash\n"),
        "quiet splash"
    );
    assert_eq!(blsforme::entry::cmdline_snippet_text("  spaced  "), "spaced");
    assert_eq!(blsforme::entry::cmdline_snippet_text("\n\n"), "");
    assert_eq!(blsforme::entry::cmdline_snippet_text("one"), "one");
}

#[test]
fn entry_id_uses_release_name_for_legacy() {
    let legacy = Schema::Legacy {
        os_release: OsRelease {
            id: String::from("solus"),
            name: String::from("Solus"),
            version_id: Some(String::from("4.4")),
            pretty_name: None,
        },
        namespace: String::from("com.solus-project"),
    };
    let entry = Entry::new(kernel("6.1.7-25", "com.solus-project.desktop.6.1.7-25", vec![]));
    assert_eq!(entry.id(&legacy), "Solus-6.1.7-25");
}

#[test]
fn entry_schema_override_wins() {
    let global = Schema::Blsforme { os_release: aeryn_release(None) };
    let own = Schema::Blsforme {
        os_release: OsRelease {
            id: String::from("serpent-os"),
            name: String::from("Serpent OS"),
            version_id: None,
            pretty_name: None,
        },
    };
    let entry = Entry::new(kernel("6.5-1", "/usr/lib/kernel/6.5-1/vmlinuz", vec![]))
        .with_schema(own);
    assert_eq!(entry.id(&global), "serpent-os-6.5-1");
}
