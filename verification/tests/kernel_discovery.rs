//! Kernel discovery across the supported naming schemas.

use blsforme::kernel::{AuxiliaryKind, BootJSON, Kernel, Schema};
use blsforme::os_release::OsRelease;

fn plain_os_release() -> OsRelease {
    OsRelease {
        id: String::from("aerynos"),
        name: String::from("AerynOS"),
        version_id: None,
        pretty_name: None,
    }
}

fn solus_schema() -> Schema {
    Schema::Legacy {
        os_release: OsRelease {
            id: String::from("solus"),
            name: String::from("Solus"),
            version_id: Some(String::from("4.4")),
            pretty_name: None,
        },
        namespace: String::from("com.solus-project"),
    }
}

#[test]
fn solus_legacy_kernel_scan() {
    let schema = solus_schema();
    let paths: Vec<String> = vec![
        String::from("com.solus-project.desktop.6.1.7-25"),
        String::from("initrd-com.solus-project.desktop.6.1.7-25"),
        String::from("System.map-6.1.7-25.desktop"),
        String::from("cmdline-6.1.7-25.desktop"),
    ];
    let kernels = schema.discover_system_kernels(&paths).expect("discovery failed");
    assert_eq!(kernels.len(), 1);
    let k = &kernels[0];
    assert_eq!(k.version, "6.1.7-25");
    assert_eq!(k.image, "com.solus-project.desktop.6.1.7-25");
    assert_eq!(k.variant.as_deref(), Some("desktop"));
    assert_eq!(k.initrd.len(), 1);
    assert_eq!(k.initrd[0].path, "initrd-com.solus-project.desktop.6.1.7-25");
    assert!(matches!(k.initrd[0].kind, AuxiliaryKind::InitRd));
    assert_eq!(k.extras.len(), 2);
    assert_eq!(k.extras[0].path, "cmdline-6.1.7-25.desktop");
    assert!(matches!(k.extras[0].kind, AuxiliaryKind::Cmdline));
    assert_eq!(k.extras[1].path, "System.map-6.1.7-25.desktop");
    assert!(matches!(k.extras[1].kind, AuxiliaryKind::SystemMap));
}

#[test]
fn blsforme_kernel_scan() {
    let schema = Schema::Blsforme { os_release: plain_os_release() };
    let paths: Vec<String> = vec![
        String::from("/usr/lib/kernel/6.8.2-25.desktop/vmlinuz"),
        String::from("/usr/lib/kernel/6.8.2-25.desktop/initrd.default.initrd"),
        String::from("/usr/lib/kernel/6.8.2-25.desktop/boot.json"),
    ];
    let mut kernels = schema.discover_system_kernels(&paths).expect("discovery failed");
    assert_eq!(kernels.len(), 1);
    {
        let k = &kernels[0];
        assert_eq!(k.version, "6.8.2-25.desktop");
        assert_eq!(k.image, "/usr/lib/kernel/6.8.2-25.desktop/vmlinuz");
        assert_eq!(k.variant, None);
        assert_eq!(k.initrd.len(), 1);
        assert_eq!(k.initrd[0].path, "/usr/lib/kernel/6.8.2-25.desktop/initrd.default.initrd");
        assert_eq!(k.extras.len(), 1);
        assert_eq!(k.extras[0].path, "/usr/lib/kernel/6.8.2-25.desktop/boot.json");
        assert!(matches!(k.extras[0].kind, AuxiliaryKind::BootJson));
    }
    let decoded = BootJSON::parse(
        "{\"name\":\"linux-desktop\",\"version\":\"6.8.2-25.desktop\",\"variant\":\"desktop\"}",
    )
    .expect("decode failed");
    kernels[0].variant = Some(decoded.variant);
    assert_eq!(kernels[0].variant.as_deref(), Some("desktop"));
}

#[test]
fn test_boot_json() {
    let path = std::path::Path::new("/tmp/blsforme-test-boot.json");
    fs_err::write(
        path,
        "{\"name\":\"linux-desktop\",\"version\":\"6.8.2-25.desktop\",\"variant\":\"desktop\"}",
    )
    .expect("Failed to write json file");
    let text = fs_err::read_to_string(path).expect("Failed to read json file");
    let boot = BootJSON::parse(text.as_str()).expect("Failed to decode JSON");
    fs_err::remove_file(path).expect("Failed to remove json file");
    assert_eq!(boot.name, "linux-desktop");
    assert_eq!(boot.variant, "desktop");
    assert_eq!(boot.version, "6.8.2-25.desktop");
}

#[test]
fn boot_json_round_trip() {
    let doc = BootJSON {
        name: String::from("linux-desktop"),
        version: String::from("6.9.1-2"),
        variant: String::from("desktop"),
    };
    let text = doc.to_json();
    assert_eq!(
        text,
        "{\"name\":\"linux-desktop\",\"version\":\"6.9.1-2\",\"variant\":\"desktop\"}"
    );
    let back = BootJSON::parse(text.as_str()).expect("round trip failed");
    assert_eq!(back.name, doc.name);
    assert_eq!(back.version, doc.version);
    assert_eq!(back.variant, doc.variant);
}

#[test]
fn boot_json_rejects_garbage() {
    assert!(BootJSON::parse("not json at all").is_err());
    assert!(BootJSON::parse("{\"name\":\"x\"}").is_err());
}

#[test]
fn version_independent_initrd_attaches() {
    let schema = solus_schema();
    let paths: Vec<String> = vec![
        String::from("com.solus-project.desktop.6.1.7-25"),
        String::from("initrd-com.solus-project.freestanding"),
        String::from("initrd-com.solus-project.desktop.6.1.7-25.extra"),
    ];
    let kernels = schema.discover_system_kernels(&paths).expect("discovery failed");
    assert_eq!(kernels.len(), 1);
    let k = &kernels[0];
    assert_eq!(k.initrd.len(), 2);
    assert_eq!(k.initrd[0].path, "initrd-com.solus-project.desktop.6.1.7-25.extra");
    assert_eq!(k.initrd[1].path, "initrd-com.solus-project.freestanding");
}

#[test]
fn discovery_orders_versions_and_aux() {
    let schema = Schema::Blsforme { os_release: plain_os_release() };
    let paths: Vec<String> = vec![
        String::from("/usr/lib/kernel/6.9.0/vmlinuz"),
        String::from("/usr/lib/kernel/6.2.0/vmlinuz"),
        String::from("/usr/lib/kernel/6.2.0/Zz.initrd"),
        String::from("/usr/lib/kernel/6.2.0/aa.initrd"),
    ];
    let kernels = schema.discover_system_kernels(&paths).expect("discovery failed");
    assert_eq!(kernels.len(), 2);
    assert_eq!(kernels[0].version, "6.2.0");
    assert_eq!(kernels[1].version, "6.9.0");
    // sorted by case-folded path: aa before Zz
    assert_eq!(kernels[0].initrd[0].path, "/usr/lib/kernel/6.2.0/aa.initrd");
    assert_eq!(kernels[0].initrd[1].path, "/usr/lib/kernel/6.2.0/Zz.initrd");
}

#[test]
fn query_schema_classifies() {
    let solus4 = OsRelease {
        id: String::from("solus"),
        name: String::from("Solus"),
        version_id: Some(String::from("4.4")),
        pretty_name: None,
    };
    match blsforme::kernel::query_schema(solus4) {
        Schema::Legacy { namespace, .. } => assert_eq!(namespace, "com.solus-project"),
        _ => panic!("expected the legacy schema"),
    }
    let clear = OsRelease {
        id: String::from("clear-linux-os"),
        name: String::from("Clear Linux OS"),
        version_id: None,
        pretty_name: None,
    };
    match blsforme::kernel::query_schema(clear) {
        Schema::Legacy { namespace, .. } => assert_eq!(namespace, "org.clearlinux"),
        _ => panic!("expected the legacy schema"),
    }
    let solus5 = OsRelease {
        id: String::from("solus"),
        name: String::from("Solus"),
        version_id: Some(String::from("5.0")),
        pretty_name: None,
    };
    assert!(matches!(
        blsforme::kernel::query_schema(solus5),
        Schema::Blsforme { .. }
    ));
    assert!(matches!(
        blsforme::kernel::query_schema(plain_os_release()),
        Schema::Blsforme { .. }
    ));
}

#[test]
fn os_release_parses_required_and_optional_keys() {
    let text = "# a comment\nNAME=\"AerynOS\"\nID=aerynos\nVERSION_ID=2025.1\nPRETTY_NAME='AerynOS 2025.1'\n";
    let parsed = OsRelease::from_text(text).expect("parse failed");
    assert_eq!(parsed.id, "aerynos");
    assert_eq!(parsed.name, "AerynOS");
    assert_eq!(parsed.version_id.as_deref(), Some("2025.1"));
    assert_eq!(parsed.pretty_name.as_deref(), Some("AerynOS 2025.1"));
    assert!(OsRelease::from_text("NAME=x\n").is_err());
    // later assignments win, shell-style
    let twice = OsRelease::from_text("ID=a\nNAME=n\nID=b\n").expect("parse failed");
    assert_eq!(twice.id, "b");
}

#[test]
fn kernel_owns_unique_sorted_versions() {
    let schema = Schema::Blsforme { os_release: plain_os_release() };
    // two announcements of the same version: the later path wins
    let paths: Vec<String> = vec![
        String::from("/a/6.1.0/vmlinuz"),
        String::from("/b/6.1.0/vmlinuz"),
    ];
    let kernels = schema.discover_system_kernels(&paths).expect("discovery failed");
    assert_eq!(kernels.len(), 1);
    assert_eq!(kernels[0].image, "/b/6.1.0/vmlinuz");
    let k: &Kernel = &kernels[0];
    assert!(!k.version.is_empty());
}
