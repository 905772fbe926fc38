//! systemd-boot management: the exact file layout a sync lays down on
//! the boot partitions, computed as plans over plain path strings.

use vstd::prelude::*;

use crate::bootloader::{Error, Mounts};
use crate::entry::{
    effective_schema, entry_id_view, installed_asset_name_view, installed_kernel_name_view,
    CmdlineEntry, Entry,
};
use crate::kernel::{
    bls_result_ok, former_ids_view, legacy_result_ok, os_display_view, os_id_view, os_name_view,
    os_namespace_view, AuxiliaryFile, Kernel, Schema,
};
use crate::strutil;

verus! {

/// One file copy of a plan.
pub struct CopyPlan {
    /// The file to read.
    pub source: String,

    /// Where to write it, atomically and only when the content
    /// differs.
    pub dest: String,
}

/// What a bootloader sync writes: the bootloader binary copies and the
/// `loader.conf` file.
pub struct SyncPlan {
    /// Copies of the bootloader binary into its canonical locations.
    pub copies: Vec<CopyPlan>,

    /// The directory holding `loader.conf`.
    pub loader_conf_dir: String,

    /// Path of `loader.conf`.
    pub loader_conf_path: String,

    /// Contents of `loader.conf`.
    pub loader_conf_contents: String,
}

/// What installing one entry leaves behind, for stale cleanup.
pub struct InstallResult {
    /// The `.conf` file that was written (absolute).
    pub loader_conf: String,

    /// The kernel directory that was installed (absolute).
    pub kernel_dir: String,
}

impl Clone for InstallResult {
    /// An exact copy, field for field.
    fn clone(&self) -> (r: Self)
        ensures
            r == *self,
    {
        InstallResult { loader_conf: self.loader_conf.clone(), kernel_dir: self.kernel_dir.clone() }
    }
}

/// What installing one entry writes: the kernel and initrd copies, the
/// entries directory, and the entry's `.conf` file.
pub struct InstallPlan {
    /// The kernel image copy first, one copy per installable initrd
    /// after it.
    pub copies: Vec<CopyPlan>,

    /// The `loader/entries` directory, created when missing.
    pub entries_dir: String,

    /// Path of the entry's `.conf` file.
    pub loader_conf_path: String,

    /// Contents of the entry's `.conf` file, written only when they
    /// differ from what is on disk.
    pub loader_conf_contents: String,

    /// What this install leaves behind.
    pub result: InstallResult,
}

/// What to delete during stale cleanup.
pub struct CleanupPlan {
    /// Loader `.conf` files to remove.
    pub remove_files: Vec<String>,

    /// Kernel directories to remove, recursively.
    pub remove_dirs: Vec<String>,
}

/// The effective `$BOOT` mountpoint: XBOOTLDR when mounted, the ESP
/// otherwise.
pub open spec fn boot_root_of(m: Mounts) -> Option<Seq<char>> {
    match m.xbootldr {
        Some(x) => Some(x@),
        None => match m.esp {
            Some(e) => Some(e@),
            None => None,
        },
    }
}

/// The contents of `loader.conf`: a default pattern matching every
/// entry of the namespace.
pub open spec fn loader_conf_text(ns: Seq<char>) -> Seq<char> {
    "default \""@ + ns + "*\"\n"@
}

/// A path names the systemd-boot EFI binary.
pub open spec fn is_sdboot_asset(p: Seq<char>) -> bool {
    strutil::basename(p) == "systemd-bootx64.efi"@
}

/// systemd specific bootloader behaviours.
/// NOTE: Currently secure boot is NOT supported (or fbx64).
pub struct Loader {
    /// The schema the system is managed under.
    pub schema: Schema,

    /// Bootloader asset paths found on the system root.
    pub assets: Vec<String>,

    /// The boot partition mountpoints.
    pub mounts: Mounts,

    /// The effective `$BOOT` mountpoint.
    pub boot_root: String,
}

/// What `sync` promises: the first systemd-boot asset is copied to the
/// two canonical ESP locations and `loader.conf` names the namespace
/// pattern; a missing asset or a missing ESP mountpoint is an error.
pub open spec fn sync_plan_spec(l: &Loader, r: Result<SyncPlan, Error>) -> bool {
    match r {
        Ok(p) => exists|j: int|
            0 <= j < l.assets@.len() && is_sdboot_asset((#[trigger] l.assets@[j])@) && (forall|
                k: int,
            |
                0 <= k < j ==> !is_sdboot_asset((#[trigger] l.assets@[k])@)) && sync_copies_ok(
                l,
                p,
                l.assets@[j]@,
            ),
        Err(e) => (e is MissingFile && forall|j: int|
            0 <= j < l.assets@.len() ==> !is_sdboot_asset((#[trigger] l.assets@[j])@)) || (
        e is MissingMount && l.mounts.esp is None && exists|j: int|
            0 <= j < l.assets@.len() && is_sdboot_asset((#[trigger] l.assets@[j])@)),
    }
}

/// The copies and writes of a bootloader sync, given the binary asset.
pub open spec fn sync_copies_ok(l: &Loader, p: SyncPlan, src: Seq<char>) -> bool {
    &&& l.mounts.esp matches Some(esp) && p.copies@.len() == 2 && p.copies@[0].source@ == src
        && p.copies@[0].dest@ == strutil::path_join(esp@, "EFI/Boot/BOOTX64.EFI"@)
        && p.copies@[1].source@ == src && p.copies@[1].dest@ == strutil::path_join(
        esp@,
        "EFI/systemd/systemd-bootx64.efi"@,
    )
    &&& p.loader_conf_dir@ == strutil::path_join(l.boot_root@, "loader"@)
    &&& p.loader_conf_path@ == strutil::path_join(
        strutil::path_join(l.boot_root@, "loader"@),
        "loader.conf"@,
    )
    &&& p.loader_conf_contents@ == loader_conf_text(os_namespace_view(&l.schema))
}

impl Loader {
    /// Construct a new systemd boot loader manager. The effective
    /// `$BOOT` is the XBOOTLDR mountpoint when there is one, the ESP
    /// mountpoint otherwise; without either there is nothing to manage.
    pub fn new(schema: Schema, assets: Vec<String>, mounts: Mounts) -> (r: Result<Self, Error>)
        ensures
            match r {
                Ok(l) => l.schema == schema && l.assets@ == assets@ && l.mounts == mounts && (
                boot_root_of(mounts) matches Some(broot) && l.boot_root@ == broot),
                Err(e) => e is MissingMount && mounts.esp is None && mounts.xbootldr is None,
            },
    {
        let boot_root: String = match &mounts.xbootldr {
            Some(x) => x.clone(),
            None => match &mounts.esp {
                Some(e) => e.clone(),
                None => {
                    return Err(Error::MissingMount { description: ("ESP (/efi)").to_owned() });
                }
            },
        };
        Ok(Loader { schema, assets, mounts, boot_root })
    }

    /// Sync bootloader to the ESP (not XBOOTLDR): plan the copies of
    /// the systemd-boot binary and the `loader.conf` write.
    pub fn sync(&self) -> (r: Result<SyncPlan, Error>)
        ensures
            sync_plan_spec(self, r),
    {
        let mut j: usize = 0;
        loop
            invariant
                j <= self.assets@.len(),
                forall|k: int| 0 <= k < j ==> !is_sdboot_asset((#[trigger] self.assets@[k])@),
            ensures
                j <= self.assets@.len(),
                forall|k: int| 0 <= k < j ==> !is_sdboot_asset((#[trigger] self.assets@[k])@),
                j < self.assets@.len() ==> is_sdboot_asset(self.assets@[j as int]@),
            decreases self.assets@.len() - j,
        {
            if j == self.assets.len() {
                break;
            }
            let bn = strutil::basename_string(self.assets[j].as_str());
            if strutil::str_eq(bn.as_str(), "systemd-bootx64.efi") {
                break;
            }
            j = j + 1;
        }
        if j == self.assets.len() {
            return Err(Error::MissingFile { filename: ("systemd-bootx64.efi").to_owned() });
        }
        let x64_efi: &String = &self.assets[j];
        let esp: &String = match &self.mounts.esp {
            Some(e) => e,
            None => {
                return Err(Error::MissingMount { description: ("ESP (/efi)").to_owned() });
            }
        };
        let mut copies: Vec<CopyPlan> = Vec::new();
        copies.push(
            CopyPlan {
                source: x64_efi.clone(),
                dest: strutil::path_join_exec(esp.as_str(), "EFI/Boot/BOOTX64.EFI"),
            },
        );
        copies.push(
            CopyPlan {
                source: x64_efi.clone(),
                dest: strutil::path_join_exec(esp.as_str(), "EFI/systemd/systemd-bootx64.efi"),
            },
        );
        let loader_conf_dir = strutil::path_join_exec(self.boot_root.as_str(), "loader");
        let loader_conf_path = strutil::path_join_exec(loader_conf_dir.as_str(), "loader.conf");
        let namespace = self.schema.os_namespace();
        let mut contents = ("default \"").to_owned();
        contents.append(namespace.as_str());
        contents.append("*\"\n");
        proof {
            assert(contents@ =~= loader_conf_text(os_namespace_view(&self.schema)));
        }
        let plan = SyncPlan {
            copies,
            loader_conf_dir,
            loader_conf_path,
            loader_conf_contents: contents,
        };
        proof {
            assert(plan.copies@[0].source@ == self.assets@[j as int]@);
            assert(sync_copies_ok(self, plan, self.assets@[j as int]@));
        }
        Ok(plan)
    }
}

/// The system root an entry's assets are read from.
pub open spec fn sysroot_view(e: &Entry) -> Seq<char> {
    match e.sysroot {
        Some(s) => s@,
        None => Seq::<char>::empty(),
    }
}

/// The title line content of an entry: the display name, or the OS
/// name without one, with the kernel version in parentheses.
pub open spec fn entry_title(e: &Entry, schema: &Schema) -> Seq<char> {
    let eff = effective_schema(e, schema);
    let shown = match os_display_view(&eff) {
        Some(d) => d,
        None => os_name_view(&eff),
    };
    shown + " ("@ + e.kernel.version@ + ")"@
}

/// The initrd lines of an entry's `.conf`, one per installable initrd,
/// in the order the kernel carries them.
pub open spec fn initrd_lines(
    e: &Entry,
    schema: &Schema,
    asset_dir: Seq<char>,
    list: Seq<AuxiliaryFile>,
) -> Seq<char>
    decreases list.len(),
{
    if list.len() == 0 {
        Seq::<char>::empty()
    } else {
        let head = match installed_asset_name_view(e, schema, &list[0]) {
            Some(nm) => "initrd /"@ + asset_dir + seq!['/'] + nm + seq!['\n'],
            None => Seq::<char>::empty(),
        };
        head + initrd_lines(e, schema, asset_dir, list.skip(1))
    }
}

/// The full text of an entry's `.conf`: title, kernel line, initrd
/// lines (one blank line when the kernel has no initrds), and the
/// options line.
pub open spec fn entry_text(
    e: &Entry,
    schema: &Schema,
    asset_dir: Seq<char>,
    cmdline: Seq<char>,
) -> Seq<char> {
    let kname = match installed_kernel_name_view(e, schema) {
        Some(nm) => nm,
        None => Seq::<char>::empty(),
    };
    "title "@ + entry_title(e, schema) + seq!['\n'] + "linux /"@ + asset_dir + seq!['/'] + kname
        + seq!['\n'] + (if e.kernel.initrd@.len() == 0 {
        seq!['\n']
    } else {
        initrd_lines(e, schema, asset_dir, e.kernel.initrd@)
    }) + "options "@ + cmdline + seq!['\n']
}

/// The copy pairs of an entry's installable initrds, in order: each
/// source is the asset rooted at the entry's sysroot, each destination
/// its installed name under the kernel directory.
pub open spec fn initrd_copy_views(
    e: &Entry,
    schema: &Schema,
    kd: Seq<char>,
    list: Seq<AuxiliaryFile>,
) -> Seq<(Seq<char>, Seq<char>)>
    decreases list.len(),
{
    if list.len() == 0 {
        Seq::<(Seq<char>, Seq<char>)>::empty()
    } else {
        let rest = initrd_copy_views(e, schema, kd, list.skip(1));
        match installed_asset_name_view(e, schema, &list[0]) {
            Some(nm) => seq![
                (
                    strutil::path_join(sysroot_view(e), list[0].path@),
                    strutil::path_join(kd, nm),
                ),
            ] + rest,
            None => rest,
        }
    }
}

/// The copy pairs a plan holds, as views.
pub open spec fn copy_views(cs: Seq<CopyPlan>) -> Seq<(Seq<char>, Seq<char>)> {
    cs.map_values(|c: CopyPlan| (c.source@, c.dest@))
}

/// The kernel directory of an entry: `{boot_root}/EFI/{namespace}` of
/// its effective schema.
pub open spec fn kernel_dir_view(l: &Loader, e: &Entry) -> Seq<char> {
    strutil::path_join(
        strutil::path_join(l.boot_root@, "EFI"@),
        os_namespace_view(&effective_schema(e, &l.schema)),
    )
}

/// What installing one entry promises: the `.conf` path carries the
/// entry id, the first copy installs the kernel image, one copy per
/// installable initrd follows, and the `.conf` text references exactly
/// the installed names. An entry whose image has no file name is
/// refused.
pub open spec fn install_plan_spec(
    l: &Loader,
    cmdline: Seq<char>,
    e: &Entry,
    r: Result<InstallPlan, Error>,
) -> bool {
    let kd = kernel_dir_view(l, e);
    let asset_dir = "EFI/"@ + os_namespace_view(&effective_schema(e, &l.schema));
    let entries_dir = strutil::path_join(
        strutil::path_join(l.boot_root@, "loader"@),
        "entries"@,
    );
    match r {
        Ok(p) => {
            &&& installed_kernel_name_view(e, &l.schema) matches Some(kname) && copy_views(
                p.copies@,
            ) == seq![
                (
                    strutil::path_join(sysroot_view(e), e.kernel.image@),
                    strutil::path_join(kd, kname),
                ),
            ] + initrd_copy_views(e, &l.schema, kd, e.kernel.initrd@)
            &&& p.entries_dir@ == entries_dir
            &&& p.loader_conf_path@ == strutil::path_join(
                entries_dir,
                entry_id_view(e, &l.schema) + ".conf"@,
            )
            &&& p.loader_conf_contents@ == entry_text(e, &l.schema, asset_dir, cmdline)
            &&& p.result.loader_conf@ == p.loader_conf_path@
            &&& p.result.kernel_dir@ == strutil::dirname(p.copies@[0].dest@)
        },
        Err(err) => err is MissingFile && installed_kernel_name_view(e, &l.schema) is None,
    }
}

impl Loader {
    /// Generate a usable loader config entry.
    pub fn generate_entry(&self, asset_dir: &str, cmdline: &str, entry: &Entry) -> (r: String)
        requires
            installed_kernel_name_view(entry, &self.schema) is Some,
        ensures
            r@ == entry_text(entry, &self.schema, asset_dir@, cmdline@),
    {
        proof {
            reveal_strlit("/");
            reveal_strlit("\n");
            assert("/"@ =~= seq!['/']);
            assert("\n"@ =~= seq!['\n']);
        }
        let eff = entry.effective(&self.schema);
        let shown: String = match eff.os_display_name() {
            Some(pretty) => pretty,
            None => eff.os_name(),
        };
        let mut out = ("title ").to_owned();
        out.append(shown.as_str());
        out.append(" (");
        out.append(entry.kernel.version.as_str());
        out.append(")");
        out.append("\n");
        proof {
            assert(out@ =~= "title "@ + entry_title(entry, &self.schema) + seq!['\n']);
        }
        let kname: String = match entry.installed_kernel_name(&self.schema) {
            Some(nm) => nm,
            None => {
                proof {
                    assert(false);
                }
                vstd::pervasive::unreached()
            }
        };
        out.append("linux /");
        out.append(asset_dir);
        out.append("/");
        out.append(kname.as_str());
        out.append("\n");
        let ghost head = out@;
        if entry.kernel.initrd.len() == 0 {
            out.append("\n");
        } else {
            let ghost full = entry.kernel.initrd@;
            proof {
                assert(out@.skip(head.len() as int) =~= Seq::<char>::empty());
                assert(full.skip(0) =~= full);
                assert(out@.skip(head.len() as int) + initrd_lines(
                    entry,
                    &self.schema,
                    asset_dir@,
                    full.skip(0),
                ) =~= initrd_lines(entry, &self.schema, asset_dir@, full));
                assert(out@.take(head.len() as int) =~= head);
            }
            let mut t: usize = 0;
            while t < entry.kernel.initrd.len()
                invariant
                    t <= full.len(),
                    full == entry.kernel.initrd@,
                    initrd_lines(entry, &self.schema, asset_dir@, full) == out@.skip(
                        head.len() as int,
                    ) + initrd_lines(entry, &self.schema, asset_dir@, full.skip(t as int)),
                    head.len() <= out@.len(),
                    head == out@.take(head.len() as int),
                decreases full.len() - t,
            {
                let ghost pre = out@;
                let a: &AuxiliaryFile = &entry.kernel.initrd[t];
                match entry.installed_asset_name(&self.schema, a) {
                    Some(nm) => {
                        out.append("initrd /");
                        out.append(asset_dir);
                        out.append("/");
                        out.append(nm.as_str());
                        out.append("\n");
                        proof {
                            reveal_strlit("/");
                            reveal_strlit("\n");
                            assert("/"@ =~= seq!['/']);
                            assert("\n"@ =~= seq!['\n']);
                            assert(full.skip(t as int)[0] == full[t as int]);
                            assert(full.skip(t as int).skip(1) =~= full.skip(t as int + 1));
                            assert(out@.skip(head.len() as int) =~= pre.skip(head.len() as int)
                                + ("initrd /"@ + asset_dir@ + seq!['/'] + nm@ + seq!['\n']));
                            assert(out@.take(head.len() as int) =~= head);
                            assert(initrd_lines(entry, &self.schema, asset_dir@, full) =~= out@.skip(
                                head.len() as int,
                            ) + initrd_lines(entry, &self.schema, asset_dir@, full.skip(
                                t as int + 1,
                            )));
                        }
                    }
                    None => {
                        proof {
                            assert(full.skip(t as int)[0] == full[t as int]);
                            assert(full.skip(t as int).skip(1) =~= full.skip(t as int + 1));
                        }
                    }
                }
                t = t + 1;
            }
            proof {
                assert(full.skip(full.len() as int) =~= Seq::<AuxiliaryFile>::empty());
                assert(initrd_lines(entry, &self.schema, asset_dir@, full) == out@.skip(
                    head.len() as int,
                ));
            }
        }
        out.append("options ");
        out.append(cmdline);
        out.append("\n");
        proof {
            assert(out@ =~= entry_text(entry, &self.schema, asset_dir@, cmdline@));
        }
        out
    }
}

/// The views of a run of strings.
pub open spec fn string_views(s: Seq<String>) -> Seq<Seq<char>> {
    s.map_values(|x: String| x@)
}

/// The snippet texts of a run of cmdline entries.
pub open spec fn snippet_views(s: Seq<CmdlineEntry>) -> Seq<Seq<char>> {
    s.map_values(|c: CmdlineEntry| c.snippet@)
}

/// The members of a run of cmdline entries whose names are not
/// excluded.
pub open spec fn kept_of(list: Seq<CmdlineEntry>, excluded: Seq<String>) -> Seq<CmdlineEntry> {
    list.filter(|c: CmdlineEntry| !excluded_has(excluded, c.name@))
}

/// A name in the excluded set.
pub open spec fn excluded_has(excluded: Seq<String>, name: Seq<char>) -> bool {
    exists|j: int| 0 <= j < excluded.len() && (#[trigger] excluded[j])@ == name
}

/// The snippets of an entry that a sync keeps: those whose names are
/// not excluded.
pub open spec fn kept_snippets(e: &Entry, excluded: Seq<String>) -> Seq<CmdlineEntry> {
    kept_of(e.cmdline@, excluded)
}

/// The pieces of an entry's full cmdline: the base cmdline first, then
/// the kept snippets.
pub open spec fn cmdline_parts(base: Seq<String>, e: &Entry, excluded: Seq<String>) -> Seq<
    Seq<char>,
> {
    string_views(base) + snippet_views(kept_snippets(e, excluded))
}

/// Words joined by single spaces.
pub open spec fn join_space(parts: Seq<Seq<char>>) -> Seq<char>
    decreases parts.len(),
{
    if parts.len() == 0 {
        Seq::<char>::empty()
    } else if parts.len() == 1 {
        parts[0]
    } else {
        parts[0] + seq![' '] + join_space(parts.skip(1))
    }
}

/// Joining one more word appends a space and the word.
proof fn lemma_join_push(parts: Seq<Seq<char>>, x: Seq<char>)
    ensures
        join_space(parts.push(x)) == if parts.len() == 0 {
            x
        } else {
            join_space(parts) + seq![' '] + x
        },
    decreases parts.len(),
{
    let grown = parts.push(x);
    if parts.len() == 0 {
        assert(grown.len() == 1);
        assert(grown[0] == x);
    } else if parts.len() == 1 {
        assert(grown.len() == 2);
        assert(grown.skip(1) =~= seq![x]);
        assert(join_space(grown) == grown[0] + seq![' '] + join_space(grown.skip(1)));
        assert(join_space(grown) == parts[0] + seq![' '] + x);
    } else {
        lemma_join_push(parts.skip(1), x);
        assert(grown.skip(1) =~= parts.skip(1).push(x));
        assert(join_space(grown) == grown[0] + seq![' '] + join_space(grown.skip(1)));
        assert(join_space(parts) + seq![' '] + x =~= parts[0] + seq![' '] + (join_space(
            parts.skip(1),
        ) + seq![' '] + x));
    }
}

/// Join a run of words with single spaces.
pub fn join_with_space(parts: &Vec<String>) -> (r: String)
    ensures
        r@ == join_space(string_views(parts@)),
{
    let ghost views = string_views(parts@);
    let mut out = String::new();
    let mut i: usize = 0;
    while i < parts.len()
        invariant
            views == string_views(parts@),
            i <= parts@.len(),
            out@ == join_space(views.take(i as int)),
        decreases parts@.len() - i,
    {
        proof {
            reveal_strlit(" ");
            assert(" "@ =~= seq![' ']);
            lemma_join_push(views.take(i as int), views[i as int]);
            assert(views.take(i as int).push(views[i as int]) =~= views.take(i as int + 1));
        }
        if i > 0 {
            out.append(" ");
        }
        out.append(parts[i].as_str());
        proof {
            assert(views[i as int] == parts@[i as int]@);
            if i == 0 {
                assert(views.take(0).len() == 0);
                assert(out@ == join_space(views.take(1)));
            }
        }
        i = i + 1;
    }
    proof {
        assert(views.take(views.len() as int) =~= views);
    }
    out
}

/// Assemble an entry's full cmdline: the base words, then its kept
/// snippets, joined by single spaces.
pub fn full_cmdline(base: &Vec<String>, e: &Entry, excluded: &Vec<String>) -> (r: String)
    ensures
        r@ == join_space(cmdline_parts(base@, e, excluded@)),
{
    let mut parts: Vec<String> = Vec::new();
    proof {
        assert(string_views(parts@) =~= string_views(base@.take(0)));
    }
    let mut i: usize = 0;
    while i < base.len()
        invariant
            i <= base@.len(),
            parts@.len() == i,
            string_views(parts@) == string_views(base@.take(i as int)),
        decreases base@.len() - i,
    {
        let ghost pre = parts@;
        parts.push(base[i].clone());
        proof {
            assert(parts@ =~= pre.push(base@[i as int]));
            assert forall|k: int|
                0 <= k < i + 1 implies string_views(parts@)[k] == string_views(
                base@.take(i as int + 1),
            )[k] by {
                assert(string_views(parts@)[k] == parts@[k]@);
                assert(string_views(base@.take(i as int + 1))[k] == base@.take(
                    i as int + 1,
                )[k]@);
                assert(base@.take(i as int + 1)[k] == base@[k]);
                if k < i {
                    assert(string_views(pre)[k] == string_views(base@.take(i as int))[k]);
                    assert(string_views(pre)[k] == pre[k]@);
                    assert(string_views(base@.take(i as int))[k] == base@.take(i as int)[k]@);
                    assert(parts@[k] == pre[k]);
                } else {
                    assert(parts@[k] == base@[i as int]);
                }
            }
            assert(string_views(parts@) =~= string_views(base@.take(i as int + 1)));
        }
        i = i + 1;
    }
    proof {
        assert(base@.take(base@.len() as int) =~= base@);
        reveal(Seq::filter);
        assert(kept_of(e.cmdline@.take(0), excluded@) =~= Seq::<CmdlineEntry>::empty());
        assert(string_views(parts@) =~~= string_views(base@) + snippet_views(
            kept_of(e.cmdline@.take(0), excluded@),
        ));
    }
    let ghost base_views = string_views(base@);
    let mut t: usize = 0;
    while t < e.cmdline.len()
        invariant
            t <= e.cmdline@.len(),
            base_views == string_views(base@),
            parts@.len() == base@.len() + kept_of(e.cmdline@.take(t as int), excluded@).len(),
            string_views(parts@) == base_views + snippet_views(
                kept_of(e.cmdline@.take(t as int), excluded@),
            ),
        decreases e.cmdline@.len() - t,
    {
        let c: &CmdlineEntry = &e.cmdline[t];
        let mut is_excluded = false;
        let mut x: usize = 0;
        while x < excluded.len()
            invariant
                x <= excluded@.len(),
                is_excluded ==> excluded_has(excluded@, c.name@),
                !is_excluded ==> forall|j: int|
                    0 <= j < x ==> (#[trigger] excluded@[j])@ != c.name@,
            decreases excluded@.len() - x,
        {
            if strutil::str_eq(excluded[x].as_str(), c.name.as_str()) {
                is_excluded = true;
            }
            x = x + 1;
        }
        proof {
            reveal(Seq::filter);
            assert(e.cmdline@.take(t as int + 1).drop_last() =~= e.cmdline@.take(t as int));
            assert(e.cmdline@.take(t as int + 1).last() == e.cmdline@[t as int]);
            if !is_excluded {
                assert(!excluded_has(excluded@, c.name@));
            }
        }
        if !is_excluded {
            let ghost pre = parts@;
            parts.push(c.snippet.clone());
            proof {
                reveal(Seq::filter);
                assert(kept_of(e.cmdline@.take(t as int + 1), excluded@) =~= kept_of(
                    e.cmdline@.take(t as int),
                    excluded@,
                ).push(e.cmdline@[t as int]));
                let goal = base_views + snippet_views(
                    kept_of(e.cmdline@.take(t as int + 1), excluded@),
                );
                assert(parts@ =~= pre.push(e.cmdline@[t as int].snippet));
                assert(string_views(parts@).len() == goal.len());
                assert forall|k: int|
                    0 <= k < parts@.len() implies string_views(parts@)[k] == goal[k] by {
                    assert(string_views(parts@)[k] == parts@[k]@);
                    let old_goal = base_views + snippet_views(
                        kept_of(e.cmdline@.take(t as int), excluded@),
                    );
                    if k < parts@.len() - 1 {
                        assert(parts@[k] == pre[k]);
                        assert(string_views(pre)[k] == pre[k]@);
                        assert(string_views(pre)[k] == old_goal[k]);
                        if k >= base_views.len() {
                            assert(goal[k] == snippet_views(
                                kept_of(e.cmdline@.take(t as int + 1), excluded@),
                            )[k - base_views.len()]);
                            assert(snippet_views(
                                kept_of(e.cmdline@.take(t as int + 1), excluded@),
                            )[k - base_views.len()] == kept_of(
                                e.cmdline@.take(t as int + 1),
                                excluded@,
                            )[k - base_views.len()].snippet@);
                            assert(kept_of(e.cmdline@.take(t as int + 1), excluded@)[k
                                - base_views.len()] == kept_of(
                                e.cmdline@.take(t as int),
                                excluded@,
                            )[k - base_views.len()]);
                            assert(old_goal[k] == kept_of(e.cmdline@.take(t as int), excluded@)[k
                                - base_views.len()].snippet@);
                        } else {
                            assert(goal[k] == base_views[k]);
                            assert(old_goal[k] == base_views[k]);
                        }
                    } else {
                        assert(parts@[k] == e.cmdline@[t as int].snippet);
                        assert(goal[k] == snippet_views(
                            kept_of(e.cmdline@.take(t as int + 1), excluded@),
                        )[k - base_views.len()]);
                        assert(kept_of(e.cmdline@.take(t as int + 1), excluded@)[k
                            - base_views.len()] == e.cmdline@[t as int]);
                    }
                }
                assert(string_views(parts@) =~= goal);
            }
        } else {
            proof {
                reveal(Seq::filter);
                assert(kept_of(e.cmdline@.take(t as int + 1), excluded@) =~= kept_of(
                    e.cmdline@.take(t as int),
                    excluded@,
                ));
            }
        }
        t = t + 1;
    }
    proof {
        assert(e.cmdline@.take(e.cmdline@.len() as int) =~= e.cmdline@);
    }
    join_with_space(&parts)
}

/// For every installed entry, the kernel image lands at
/// `{boot_root}/EFI/{ns}/{installed name}` and the entry's `.conf`
/// names exactly that path relative to the boot root on its kernel
/// line.
pub proof fn lemma_install_pairs_conf_and_kernel(
    l: &Loader,
    cmdline: Seq<char>,
    e: &Entry,
    p: InstallPlan,
    kname: Seq<char>,
)
    requires
        install_plan_spec(l, cmdline, e, Ok(p)),
        installed_kernel_name_view(e, &l.schema) == Some(kname),
        l.boot_root@.len() > 0,
        l.boot_root@.last() != '/',
        os_namespace_view(&effective_schema(e, &l.schema)).len() > 0,
        os_namespace_view(&effective_schema(e, &l.schema))[0] != '/',
        os_namespace_view(&effective_schema(e, &l.schema)).last() != '/',
        kname.len() > 0,
        kname[0] != '/',
    ensures
        p.copies@[0].dest@ == l.boot_root@ + seq!['/'] + ("EFI/"@ + os_namespace_view(
            &effective_schema(e, &l.schema),
        ) + seq!['/'] + kname),
        p.loader_conf_contents@ == "title "@ + entry_title(e, &l.schema) + seq!['\n']
            + "linux /"@ + ("EFI/"@ + os_namespace_view(&effective_schema(e, &l.schema)))
            + seq!['/'] + kname + seq!['\n'] + (if e.kernel.initrd@.len() == 0 {
            seq!['\n']
        } else {
            initrd_lines(
                e,
                &l.schema,
                "EFI/"@ + os_namespace_view(&effective_schema(e, &l.schema)),
                e.kernel.initrd@,
            )
        }) + "options "@ + cmdline + seq!['\n'],
{
    reveal_strlit("EFI");
    reveal_strlit("EFI/");
    assert("EFI"@.len() == 3);
    assert("EFI"@[0] == 'E');
    assert("EFI"@.last() == 'I');
    let ns = os_namespace_view(&effective_schema(e, &l.schema));
    let br = l.boot_root@;
    let kd = kernel_dir_view(l, e);
    let step1 = strutil::path_join(br, "EFI"@);
    assert(step1 == br + seq!['/'] + "EFI"@);
    assert(step1.len() > 0);
    assert(step1.last() == 'I');
    assert(kd == step1 + seq!['/'] + ns);
    assert(kd.len() > 0);
    assert(kd.last() == ns.last());
    let dest = strutil::path_join(kd, kname);
    assert(dest == kd + seq!['/'] + kname);
    assert(copy_views(p.copies@)[0] == (
        strutil::path_join(sysroot_view(e), e.kernel.image@),
        dest,
    ));
    assert(copy_views(p.copies@).len() == p.copies@.len());
    assert(copy_views(p.copies@).len() >= 1);
    assert(copy_views(p.copies@)[0] == (p.copies@[0].source@, p.copies@[0].dest@));
    assert(copy_views(p.copies@)[0].1 == p.copies@[0].dest@);
    assert(p.copies@[0].dest@ == br + seq!['/'] + "EFI"@ + seq!['/'] + ns + seq!['/'] + kname);
    assert("EFI/"@ =~= "EFI"@ + seq!['/']);
    assert(br + seq!['/'] + "EFI"@ + seq!['/'] + ns + seq!['/'] + kname =~= br + seq!['/'] + (
    "EFI/"@ + ns + seq!['/'] + kname));
    assert(p.loader_conf_contents@ == entry_text(e, &l.schema, "EFI/"@ + ns, cmdline));
    assert(entry_text(e, &l.schema, "EFI/"@ + ns, cmdline) == "title "@ + entry_title(
        e,
        &l.schema,
    ) + seq!['\n'] + "linux /"@ + ("EFI/"@ + ns) + seq!['/'] + kname + seq!['\n'] + (if e.kernel.initrd@.len() == 0 {
        seq!['\n']
    } else {
        initrd_lines(e, &l.schema, "EFI/"@ + ns, e.kernel.initrd@)
    }) + "options "@ + cmdline + seq!['\n']);
}

/// A loader `.conf` file is stale when its name carries one of the
/// schema's prefixes and no installed entry wrote it.
pub open spec fn stale_file(
    schema: &Schema,
    installed: Seq<InstallResult>,
    f: Seq<char>,
) -> bool {
    &&& exists|p: int|
        0 <= p < prefixes_view(schema).len() && strutil::starts_with(
            strutil::basename(f),
            #[trigger] prefixes_view(schema)[p],
        )
    &&& forall|i: int| 0 <= i < installed.len() ==> (#[trigger] installed[i]).loader_conf@ != f
}

/// A kernel directory is stale when no installed entry wrote it.
pub open spec fn stale_dir(installed: Seq<InstallResult>, d: Seq<char>) -> bool {
    forall|i: int| 0 <= i < installed.len() ==> (#[trigger] installed[i]).kernel_dir@ != d
}

/// The `.conf` name prefixes a cleanup considers its own: every former
/// identity and the current one for an os-info schema, the release name
/// for the legacy schema, the OS id otherwise.
pub open spec fn prefixes_view(schema: &Schema) -> Seq<Seq<char>> {
    match schema {
        Schema::OsInfo { .. } => former_ids_view(schema).push(os_id_view(schema)),
        Schema::Legacy { os_release, .. } => seq![os_release.name@],
        _ => seq![os_id_view(schema)],
    }
}

/// The namespaces a cleanup scans for kernel directories: every former
/// identity and the current one for an os-info schema, the single
/// namespace otherwise.
pub open spec fn namespaces_view(schema: &Schema) -> Seq<Seq<char>> {
    match schema {
        Schema::OsInfo { .. } => former_ids_view(schema).push(os_id_view(schema)),
        _ => seq![os_namespace_view(schema)],
    }
}

/// Every removed file is a stale member of the listing.
pub open spec fn removed_files_sound(
    schema: &Schema,
    installed: Seq<InstallResult>,
    loader_files: Seq<String>,
    rf: Seq<String>,
) -> bool {
    forall|i: int|
        0 <= i < rf.len() ==> stale_file(schema, installed, (#[trigger] rf[i])@) && exists|j: int|
            0 <= j < loader_files.len() && (#[trigger] loader_files[j])@ == rf[i]@
}

/// Every stale file among the first `upto` of the listing is removed.
pub open spec fn removed_files_complete(
    schema: &Schema,
    installed: Seq<InstallResult>,
    loader_files: Seq<String>,
    rf: Seq<String>,
    upto: int,
) -> bool {
    forall|k: int|
        0 <= k < upto && stale_file(schema, installed, (#[trigger] loader_files[k])@)
            ==> exists|i: int| 0 <= i < rf.len() && (#[trigger] rf[i])@ == loader_files[k]@
}

/// Every removed directory is a stale member of the listing.
pub open spec fn removed_dirs_sound(
    installed: Seq<InstallResult>,
    kernel_dirs: Seq<String>,
    rd: Seq<String>,
) -> bool {
    forall|i: int|
        0 <= i < rd.len() ==> stale_dir(installed, (#[trigger] rd[i])@) && exists|j: int|
            0 <= j < kernel_dirs.len() && (#[trigger] kernel_dirs[j])@ == rd[i]@
}

/// Every stale directory among the first `upto` of the listing is
/// removed.
pub open spec fn removed_dirs_complete(
    installed: Seq<InstallResult>,
    kernel_dirs: Seq<String>,
    rd: Seq<String>,
    upto: int,
) -> bool {
    forall|k: int|
        0 <= k < upto && stale_dir(installed, (#[trigger] kernel_dirs[k])@) ==> exists|i: int|
            0 <= i < rd.len() && (#[trigger] rd[i])@ == kernel_dirs[k]@
}

/// What a cleanup plan removes: exactly the stale prefixed loader
/// files and the stale kernel directories among those listed.
pub open spec fn cleanup_plan_spec(
    schema: &Schema,
    installed: Seq<InstallResult>,
    loader_files: Seq<String>,
    kernel_dirs: Seq<String>,
    plan: CleanupPlan,
) -> bool {
    &&& removed_files_sound(schema, installed, loader_files, plan.remove_files@)
    &&& removed_files_complete(
        schema,
        installed,
        loader_files,
        plan.remove_files@,
        loader_files.len() as int,
    )
    &&& removed_dirs_sound(installed, kernel_dirs, plan.remove_dirs@)
    &&& removed_dirs_complete(
        installed,
        kernel_dirs,
        plan.remove_dirs@,
        kernel_dirs.len() as int,
    )
}

/// Every prefixed loader file that a cleanup keeps belongs to an
/// installed entry, and that entry's kernel directory is kept too:
/// after a cleanup no owned `.conf` lacks its kernel directory.
pub proof fn lemma_cleanup_keeps_pairs(
    schema: &Schema,
    installed: Seq<InstallResult>,
    f: Seq<char>,
)
    requires
        exists|p: int|
            0 <= p < prefixes_view(schema).len() && strutil::starts_with(
                strutil::basename(f),
                #[trigger] prefixes_view(schema)[p],
            ),
        !stale_file(schema, installed, f),
    ensures
        exists|i: int|
            0 <= i < installed.len() && (#[trigger] installed[i]).loader_conf@ == f && !stale_dir(
                installed,
                installed[i].kernel_dir@,
            ),
{
    let i = choose|i: int| 0 <= i < installed.len() && (#[trigger] installed[i]).loader_conf@ == f;
    assert(installed[i].kernel_dir@ == installed[i].kernel_dir@);
    assert(!stale_dir(installed, installed[i].kernel_dir@));
}

/// Every kernel directory that a cleanup keeps belongs to an installed
/// entry, whose `.conf` is kept too: after a cleanup no kernel
/// directory lacks its `.conf`.
pub proof fn lemma_cleanup_keeps_dirs(
    schema: &Schema,
    installed: Seq<InstallResult>,
    d: Seq<char>,
)
    requires
        !stale_dir(installed, d),
    ensures
        exists|i: int|
            0 <= i < installed.len() && (#[trigger] installed[i]).kernel_dir@ == d && !stale_file(
                schema,
                installed,
                installed[i].loader_conf@,
            ),
{
    let i = choose|i: int| 0 <= i < installed.len() && (#[trigger] installed[i]).kernel_dir@ == d;
    assert(!stale_file(schema, installed, installed[i].loader_conf@));
}

/// With no installed entries, every prefixed loader file and every
/// listed kernel directory is stale: a sync of an empty entry list
/// still removes all matching artefacts.
pub proof fn lemma_cleanup_empty_removes_all(schema: &Schema, f: Seq<char>, d: Seq<char>)
    ensures
        (exists|p: int|
            0 <= p < prefixes_view(schema).len() && strutil::starts_with(
                strutil::basename(f),
                #[trigger] prefixes_view(schema)[p],
            )) ==> stale_file(schema, Seq::<InstallResult>::empty(), f),
        stale_dir(Seq::<InstallResult>::empty(), d),
{
}

/// What syncing a run of entries promises: one install plan per entry,
/// each carrying the entry's full cmdline; an entry whose image has no
/// file name fails the sync.
pub open spec fn sync_entries_spec(
    l: &Loader,
    base: Seq<String>,
    entries: Seq<Entry>,
    excluded: Seq<String>,
    r: Result<Vec<InstallPlan>, Error>,
) -> bool {
    match r {
        Ok(plans) => plans@.len() == entries.len() && forall|i: int|
            0 <= i < entries.len() ==> install_plan_spec(
                l,
                join_space(cmdline_parts(base, &entries[i], excluded)),
                &entries[i],
                Ok(#[trigger] plans@[i]),
            ),
        Err(e) => e is MissingFile && exists|i: int|
            0 <= i < entries.len() && installed_kernel_name_view(
                &(#[trigger] entries[i]),
                &l.schema,
            ) is None,
    }
}

impl Loader {
    /// Get the kernel directory for a specific entry.
    pub fn get_kernel_dir(&self, entry: &Entry) -> (r: String)
        ensures
            r@ == kernel_dir_view(self, entry),
    {
        let eff = entry.effective(&self.schema);
        let ns = eff.os_namespace();
        let efi = strutil::path_join_exec(self.boot_root.as_str(), "EFI");
        strutil::path_join_exec(efi.as_str(), ns.as_str())
    }

    /// Install a kernel to the ESP or XBOOTLDR: plan the kernel and
    /// initrd copies and the entry's `.conf` write.
    pub fn install(&self, cmdline: &str, entry: &Entry) -> (r: Result<InstallPlan, Error>)
        ensures
            install_plan_spec(self, cmdline@, entry, r),
    {
        proof {
            reveal_strlit("/");
            assert("/"@ =~= seq!['/']);
        }
        let kernel_dir = self.get_kernel_dir(entry);
        let kname: String = match entry.installed_kernel_name(&self.schema) {
            Some(nm) => nm,
            None => {
                return Err(Error::MissingFile { filename: ("vmlinuz").to_owned() });
            }
        };
        let sysroot: String = match &entry.sysroot {
            Some(sr) => sr.clone(),
            None => String::new(),
        };
        let mut copies: Vec<CopyPlan> = Vec::new();
        copies.push(
            CopyPlan {
                source: strutil::path_join_exec(sysroot.as_str(), entry.kernel.image.as_str()),
                dest: strutil::path_join_exec(kernel_dir.as_str(), kname.as_str()),
            },
        );
        let ghost first = copy_views(copies@);
        let ghost kd = kernel_dir_view(self, entry);
        proof {
            assert(first =~= seq![
                (
                    strutil::path_join(sysroot_view(entry), entry.kernel.image@),
                    strutil::path_join(kd, installed_kernel_name_view(entry, &self.schema)->Some_0),
                ),
            ]);
        }
        let ghost full = entry.kernel.initrd@;
        proof {
            assert(copy_views(copies@).skip(1) =~= Seq::<(Seq<char>, Seq<char>)>::empty());
            assert(full.skip(0) =~= full);
            assert(copy_views(copies@).skip(1) + initrd_copy_views(
                entry,
                &self.schema,
                kd,
                full.skip(0),
            ) =~= initrd_copy_views(entry, &self.schema, kd, full));
            assert(copy_views(copies@).take(1) =~= copy_views(copies@));
        }
        let mut t: usize = 0;
        while t < entry.kernel.initrd.len()
            invariant
                t <= full.len(),
                full == entry.kernel.initrd@,
                kd == kernel_dir_view(self, entry),
                kernel_dir@ == kd,
                sysroot@ == sysroot_view(entry),
                copy_views(copies@).len() >= 1,
                first == copy_views(copies@).take(1),
                first.len() == 1,
                initrd_copy_views(entry, &self.schema, kd, full) == copy_views(copies@).skip(1)
                    + initrd_copy_views(entry, &self.schema, kd, full.skip(t as int)),
            decreases full.len() - t,
        {
            let ghost pre = copy_views(copies@);
            let a: &AuxiliaryFile = &entry.kernel.initrd[t];
            match entry.installed_asset_name(&self.schema, a) {
                Some(nm) => {
                    copies.push(
                        CopyPlan {
                            source: strutil::path_join_exec(sysroot.as_str(), a.path.as_str()),
                            dest: strutil::path_join_exec(kernel_dir.as_str(), nm.as_str()),
                        },
                    );
                    proof {
                        assert(full.skip(t as int)[0] == full[t as int]);
                        assert(full.skip(t as int).skip(1) =~= full.skip(t as int + 1));
                        assert(copy_views(copies@) =~= pre.push(
                            (
                                strutil::path_join(sysroot_view(entry), full[t as int].path@),
                                strutil::path_join(
                                    kd,
                                    installed_asset_name_view(
                                        entry,
                                        &self.schema,
                                        &full[t as int],
                                    )->Some_0,
                                ),
                            ),
                        ));
                        assert(copy_views(copies@).take(1) =~= pre.take(1));
                        assert(copy_views(copies@).skip(1) =~= pre.skip(1).push(
                            (
                                strutil::path_join(sysroot_view(entry), full[t as int].path@),
                                strutil::path_join(
                                    kd,
                                    installed_asset_name_view(
                                        entry,
                                        &self.schema,
                                        &full[t as int],
                                    )->Some_0,
                                ),
                            ),
                        ));
                        assert(pre.skip(1).push(
                            (
                                strutil::path_join(sysroot_view(entry), full[t as int].path@),
                                strutil::path_join(
                                    kd,
                                    installed_asset_name_view(
                                        entry,
                                        &self.schema,
                                        &full[t as int],
                                    )->Some_0,
                                ),
                            ),
                        ) + initrd_copy_views(entry, &self.schema, kd, full.skip(t as int + 1))
                            =~= pre.skip(1) + initrd_copy_views(
                            entry,
                            &self.schema,
                            kd,
                            full.skip(t as int),
                        ));
                    }
                }
                None => {
                    proof {
                        assert(full.skip(t as int)[0] == full[t as int]);
                        assert(full.skip(t as int).skip(1) =~= full.skip(t as int + 1));
                    }
                }
            }
            t = t + 1;
        }
        proof {
            assert(full.skip(full.len() as int) =~= Seq::<AuxiliaryFile>::empty());
            assert(initrd_copy_views(entry, &self.schema, kd, full) == copy_views(
                copies@,
            ).skip(1));
            assert(copy_views(copies@) =~= copy_views(copies@).take(1) + copy_views(
                copies@,
            ).skip(1));
        }
        let loader_dir = strutil::path_join_exec(self.boot_root.as_str(), "loader");
        let entries_dir = strutil::path_join_exec(loader_dir.as_str(), "entries");
        let mut conf_name = entry.id(&self.schema);
        conf_name.append(".conf");
        let loader_conf_path = strutil::path_join_exec(entries_dir.as_str(), conf_name.as_str());
        let eff = entry.effective(&self.schema);
        let ns = eff.os_namespace();
        let asset_dir = strutil::concat2("EFI/", ns.as_str());
        let contents = self.generate_entry(asset_dir.as_str(), cmdline, entry);
        let vmlinuz_parent = strutil::dirname_string(copies[0].dest.as_str());
        let result = InstallResult {
            loader_conf: loader_conf_path.clone(),
            kernel_dir: vmlinuz_parent,
        };
        let plan = InstallPlan {
            copies,
            entries_dir,
            loader_conf_path,
            loader_conf_contents: contents,
            result,
        };
        proof {
            assert(install_plan_spec(self, cmdline@, entry, Ok(plan)));
        }
        Ok(plan)
    }

    /// Compute the install plans for the given entries, with the base
    /// cmdline prepended to every entry's kept snippets.
    pub fn sync_entries(
        &self,
        cmdline: &Vec<String>,
        entries: &Vec<Entry>,
        excluded_snippets: &Vec<String>,
    ) -> (r: Result<Vec<InstallPlan>, Error>)
        ensures
            sync_entries_spec(self, cmdline@, entries@, excluded_snippets@, r),
    {
        let mut plans: Vec<InstallPlan> = Vec::new();
        let mut i: usize = 0;
        while i < entries.len()
            invariant
                i <= entries@.len(),
                plans@.len() == i,
                forall|k: int|
                    0 <= k < i ==> install_plan_spec(
                        self,
                        join_space(cmdline_parts(cmdline@, &entries@[k], excluded_snippets@)),
                        &entries@[k],
                        Ok(#[trigger] plans@[k]),
                    ),
            decreases entries@.len() - i,
        {
            let e: &Entry = &entries[i];
            let full = full_cmdline(cmdline, e, excluded_snippets);
            match self.install(full.as_str(), e) {
                Ok(p) => {
                    plans.push(p);
                }
                Err(err) => {
                    proof {
                        assert(installed_kernel_name_view(&entries@[i as int], &self.schema)
                            is None);
                    }
                    return Err(err);
                }
            }
            i = i + 1;
        }
        Ok(plans)
    }

    /// The `.conf` name prefixes stale cleanup considers this system's
    /// own.
    pub fn cleanup_prefixes(&self) -> (r: Vec<String>)
        ensures
            r@.len() == prefixes_view(&self.schema).len(),
            forall|i: int|
                0 <= i < r@.len() ==> (#[trigger] r@[i])@ == prefixes_view(&self.schema)[i],
    {
        match &self.schema {
            Schema::OsInfo { os_info } => {
                let mut out = crate::kernel::clone_string_vec(&os_info.identity.former_identities);
                out.push(os_info.identity.id.clone());
                proof {
                    assert forall|i: int| 0 <= i < out@.len() implies (#[trigger] out@[i])@
                        == prefixes_view(&self.schema)[i] by {
                        if i < out@.len() - 1 {
                            assert(out@[i] == os_info.identity.former_identities@[i]);
                            assert(former_ids_view(&self.schema)[i]
                                == os_info.identity.former_identities@[i]@);
                        }
                    }
                }
                out
            }
            Schema::Legacy { os_release, .. } => {
                let mut out: Vec<String> = Vec::new();
                out.push(os_release.name.clone());
                out
            }
            Schema::Blsforme { .. } => {
                let mut out: Vec<String> = Vec::new();
                out.push(self.schema.os_id());
                out
            }
        }
    }

    /// The namespaces stale cleanup scans for kernel directories.
    pub fn cleanup_namespaces(&self) -> (r: Vec<String>)
        ensures
            r@.len() == namespaces_view(&self.schema).len(),
            forall|i: int|
                0 <= i < r@.len() ==> (#[trigger] r@[i])@ == namespaces_view(&self.schema)[i],
    {
        match &self.schema {
            Schema::OsInfo { os_info } => {
                let mut out = crate::kernel::clone_string_vec(&os_info.identity.former_identities);
                out.push(os_info.identity.id.clone());
                proof {
                    assert forall|i: int| 0 <= i < out@.len() implies (#[trigger] out@[i])@
                        == namespaces_view(&self.schema)[i] by {
                        if i < out@.len() - 1 {
                            assert(out@[i] == os_info.identity.former_identities@[i]);
                            assert(former_ids_view(&self.schema)[i]
                                == os_info.identity.former_identities@[i]@);
                        }
                    }
                }
                out
            }
            _ => {
                let mut out: Vec<String> = Vec::new();
                out.push(self.schema.os_namespace());
                out
            }
        }
    }

    /// The stale loader configs: every listed file whose name carries
    /// one of this system's prefixes and that no installed entry wrote.
    #[verifier::loop_isolation(false)]
    fn stale_loader_files(
        &self,
        installed: &Vec<InstallResult>,
        loader_files: &Vec<String>,
    ) -> (r: Vec<String>)
        ensures
            removed_files_sound(&self.schema, installed@, loader_files@, r@),
            removed_files_complete(
                &self.schema,
                installed@,
                loader_files@,
                r@,
                loader_files@.len() as int,
            ),
    {
        let prefixes = self.cleanup_prefixes();
        let mut remove_files: Vec<String> = Vec::new();
        let mut j: usize = 0;
        while j < loader_files.len()
            invariant
                j <= loader_files@.len(),
                prefixes@.len() == prefixes_view(&self.schema).len(),
                forall|i: int|
                    0 <= i < prefixes@.len() ==> (#[trigger] prefixes@[i])@ == prefixes_view(
                        &self.schema,
                    )[i],
                removed_files_sound(&self.schema, installed@, loader_files@, remove_files@),
                removed_files_complete(
                    &self.schema,
                    installed@,
                    loader_files@,
                    remove_files@,
                    j as int,
                ),
            decreases loader_files@.len() - j,
        {
            let f: &String = &loader_files[j];
            let bn = strutil::basename_string(f.as_str());
            let mut prefixed = false;
            let mut p: usize = 0;
            while p < prefixes.len()
                invariant
                    p <= prefixes@.len(),
                    bn@ == strutil::basename(f@),
                    prefixes@.len() == prefixes_view(&self.schema).len(),
                    forall|i: int|
                        0 <= i < prefixes@.len() ==> (#[trigger] prefixes@[i])@ == prefixes_view(
                            &self.schema,
                        )[i],
                    prefixed ==> exists|i: int|
                        0 <= i < prefixes_view(&self.schema).len() && strutil::starts_with(
                            strutil::basename(f@),
                            #[trigger] prefixes_view(&self.schema)[i],
                        ),
                    !prefixed ==> forall|i: int|
                        0 <= i < p ==> !strutil::starts_with(
                            strutil::basename(f@),
                            #[trigger] prefixes_view(&self.schema)[i],
                        ),
                decreases prefixes@.len() - p,
            {
                if strutil::str_starts_with(bn.as_str(), prefixes[p].as_str()) {
                    prefixed = true;
                }
                p = p + 1;
            }
            let mut found = false;
            let mut w: usize = 0;
            while w < installed.len()
                invariant
                    w <= installed@.len(),
                    found ==> exists|i: int|
                        0 <= i < installed@.len() && (#[trigger] installed@[i]).loader_conf@
                            == f@,
                    !found ==> forall|i: int|
                        0 <= i < w ==> (#[trigger] installed@[i]).loader_conf@ != f@,
                decreases installed@.len() - w,
            {
                if strutil::str_eq(installed[w].loader_conf.as_str(), f.as_str()) {
                    found = true;
                }
                w = w + 1;
            }
            let ghost pre = remove_files@;
            if prefixed && !found {
                remove_files.push(f.clone());
                proof {
                    assert(stale_file(&self.schema, installed@, f@));
                    assert forall|i: int| 0 <= i < remove_files@.len() implies stale_file(
                        &self.schema,
                        installed@,
                        (#[trigger] remove_files@[i])@,
                    ) && exists|k: int|
                        0 <= k < loader_files@.len() && (#[trigger] loader_files@[k])@
                            == remove_files@[i]@ by {
                        if i < pre.len() {
                            assert(remove_files@[i] == pre[i]);
                            assert(removed_files_sound(
                                &self.schema,
                                installed@,
                                loader_files@,
                                pre,
                            ));
                            assert(stale_file(&self.schema, installed@, pre[i]@));
                        } else {
                            assert(remove_files@[i]@ == f@);
                            assert(loader_files@[j as int]@ == f@);
                        }
                    }
                    assert(removed_files_sound(
                        &self.schema,
                        installed@,
                        loader_files@,
                        remove_files@,
                    ));
                }
            } else {
                proof {
                    if stale_file(&self.schema, installed@, f@) {
                        assert(prefixed);
                        assert(!found);
                    }
                }
            }
            proof {
                assert forall|k: int|
                    0 <= k < j + 1 && stale_file(
                        &self.schema,
                        installed@,
                        (#[trigger] loader_files@[k])@,
                    ) implies exists|i: int|
                    0 <= i < remove_files@.len() && (#[trigger] remove_files@[i])@
                        == loader_files@[k]@ by {
                    if k == j {
                        assert(prefixed);
                        assert(!found);
                        assert(remove_files@[remove_files@.len() - 1]@ == loader_files@[k]@);
                    } else {
                        assert(removed_files_complete(
                            &self.schema,
                            installed@,
                            loader_files@,
                            pre,
                            j as int,
                        ));
                        let i = choose|i: int|
                            0 <= i < pre.len() && (#[trigger] pre[i])@ == loader_files@[k]@;
                        assert(remove_files@[i]@ == loader_files@[k]@);
                    }
                }
                assert(removed_files_complete(
                    &self.schema,
                    installed@,
                    loader_files@,
                    remove_files@,
                    j as int + 1,
                ));
            }
            j = j + 1;
        }
        remove_files
    }

    /// The stale kernel directories: every listed directory that no
    /// installed entry wrote.
    #[verifier::loop_isolation(false)]
    fn stale_kernel_dirs(
        installed: &Vec<InstallResult>,
        kernel_dirs: &Vec<String>,
    ) -> (r: Vec<String>)
        ensures
            removed_dirs_sound(installed@, kernel_dirs@, r@),
            removed_dirs_complete(installed@, kernel_dirs@, r@, kernel_dirs@.len() as int),
    {
        let mut remove_dirs: Vec<String> = Vec::new();
        let mut j2: usize = 0;
        while j2 < kernel_dirs.len()
            invariant
                j2 <= kernel_dirs@.len(),
                removed_dirs_sound(installed@, kernel_dirs@, remove_dirs@),
                removed_dirs_complete(installed@, kernel_dirs@, remove_dirs@, j2 as int),
            decreases kernel_dirs@.len() - j2,
        {
            let d: &String = &kernel_dirs[j2];
            let mut found = false;
            let mut w: usize = 0;
            while w < installed.len()
                invariant
                    w <= installed@.len(),
                    found ==> exists|i: int|
                        0 <= i < installed@.len() && (#[trigger] installed@[i]).kernel_dir@
                            == d@,
                    !found ==> forall|i: int|
                        0 <= i < w ==> (#[trigger] installed@[i]).kernel_dir@ != d@,
                decreases installed@.len() - w,
            {
                if strutil::str_eq(installed[w].kernel_dir.as_str(), d.as_str()) {
                    found = true;
                }
                w = w + 1;
            }
            let ghost pre = remove_dirs@;
            if !found {
                remove_dirs.push(d.clone());
                proof {
                    assert forall|i: int| 0 <= i < remove_dirs@.len() implies stale_dir(
                        installed@,
                        (#[trigger] remove_dirs@[i])@,
                    ) && exists|k: int|
                        0 <= k < kernel_dirs@.len() && (#[trigger] kernel_dirs@[k])@
                            == remove_dirs@[i]@ by {
                        if i < pre.len() {
                            assert(remove_dirs@[i] == pre[i]);
                            assert(removed_dirs_sound(installed@, kernel_dirs@, pre));
                            assert(stale_dir(installed@, pre[i]@));
                        } else {
                            assert(remove_dirs@[i]@ == d@);
                            assert(kernel_dirs@[j2 as int]@ == d@);
                        }
                    }
                    assert(removed_dirs_sound(installed@, kernel_dirs@, remove_dirs@));
                }
            }
            proof {
                assert forall|k: int|
                    0 <= k < j2 + 1 && stale_dir(installed@, (#[trigger] kernel_dirs@[k])@)
                    implies exists|i: int|
                    0 <= i < remove_dirs@.len() && (#[trigger] remove_dirs@[i])@
                        == kernel_dirs@[k]@ by {
                    if k == j2 {
                        assert(!found);
                        assert(remove_dirs@[remove_dirs@.len() - 1]@ == kernel_dirs@[k]@);
                    } else {
                        assert(removed_dirs_complete(
                            installed@,
                            kernel_dirs@,
                            pre,
                            j2 as int,
                        ));
                        let i = choose|i: int|
                            0 <= i < pre.len() && (#[trigger] pre[i])@ == kernel_dirs@[k]@;
                        assert(remove_dirs@[i]@ == kernel_dirs@[k]@);
                    }
                }
                assert(removed_dirs_complete(
                    installed@,
                    kernel_dirs@,
                    remove_dirs@,
                    j2 as int + 1,
                ));
            }
            j2 = j2 + 1;
        }
        remove_dirs
    }

    /// Clean up stale loader configs and kernel directories: from the
    /// listings of the loader entries directory and of the namespaces'
    /// kernel directories, plan the removal of everything this system
    /// owns that no installed entry wrote.
    pub fn cleanup_stale_entries(
        &self,
        installed: &Vec<InstallResult>,
        loader_files: &Vec<String>,
        kernel_dirs: &Vec<String>,
    ) -> (plan: CleanupPlan)
        ensures
            cleanup_plan_spec(&self.schema, installed@, loader_files@, kernel_dirs@, plan),
    {
        let remove_files = self.stale_loader_files(installed, loader_files);
        let remove_dirs = Self::stale_kernel_dirs(installed, kernel_dirs);
        CleanupPlan { remove_files, remove_dirs }
    }

    /// The directory under which this system's kernels are installed.
    pub fn kernel_scan_dir(&self) -> (r: String)
        ensures
            r@ == strutil::path_join(
                strutil::path_join(self.boot_root@, "EFI"@),
                os_namespace_view(&self.schema),
            ),
    {
        let ns = self.schema.os_namespace();
        let efi = strutil::path_join_exec(self.boot_root.as_str(), "EFI");
        strutil::path_join_exec(efi.as_str(), ns.as_str())
    }

    /// Discover the installed kernels from a listing of the asset
    /// paths under the kernel scan directory.
    pub fn installed_kernels(&self, paths: &Vec<String>) -> (r: Result<Vec<Kernel>, crate::Error>)
        ensures
            r matches Ok(ks) && (match self.schema {
                Schema::Legacy { namespace, .. } => legacy_result_ok(namespace@, paths@, ks@),
                _ => bls_result_ok(paths@, ks@),
            }),
    {
        self.schema.discover_system_kernels(paths)
    }
}

} // verus!
