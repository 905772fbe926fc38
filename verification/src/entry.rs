//! Boot entries: a kernel plus its cmdline snippets, optional state id
//! and optional per-entry schema override.

use vstd::prelude::*;

use crate::kernel::{os_id_view, AuxiliaryFile, AuxiliaryKind, Kernel, Schema};
use crate::strutil;

verus! {

/// A cmdline entry is found in the `{sysroot}/usr/lib/kernel/cmdline.d`
/// directory, or next to the kernel itself.
pub struct CmdlineEntry {
    /// Name of the entry, i.e. `00-quiet.cmdline`.
    pub name: String,

    /// Text contents of this cmdline entry.
    pub snippet: String,
}

impl Clone for CmdlineEntry {
    /// An exact copy, field for field.
    fn clone(&self) -> (r: Self)
        ensures
            r == *self,
    {
        CmdlineEntry { name: self.name.clone(), snippet: self.snippet.clone() }
    }
}

/// An entry corresponds to a single kernel, and may have a supplemental
/// cmdline.
pub struct Entry {
    /// The kernel this entry boots.
    pub kernel: Kernel,

    /// The system root its assets are read from, when not the
    /// configured root.
    pub sysroot: Option<String>,

    /// Cmdline snippets attached to this entry.
    pub cmdline: Vec<CmdlineEntry>,

    /// Unique state id for this entry.
    pub state_id: Option<i32>,

    /// Entry-specific schema overriding the global schema.
    pub schema: Option<Schema>,
}

/// The schema an entry is managed under: its own override when it has
/// one, the global schema otherwise.
pub open spec fn effective_schema(e: &Entry, schema: &Schema) -> Schema {
    match e.schema {
        Some(own) => own,
        None => *schema,
    }
}

/// The id an entry file is named by: the release name (legacy) or OS id,
/// the kernel version, and the state id when one is set, joined by `-`.
pub open spec fn entry_id_view(e: &Entry, schema: &Schema) -> Seq<char> {
    let eff = effective_schema(e, schema);
    let base = match eff {
        Schema::Legacy { os_release, .. } => os_release.name@,
        _ => os_id_view(&eff),
    };
    let with_version = base + seq!['-'] + e.kernel.version@;
    match e.state_id {
        Some(sid) => with_version + seq!['-'] + strutil::int_rep(sid as int),
        None => with_version,
    }
}

/// The file name a kernel image is installed under: a flat
/// `kernel-{name}` for the legacy layout, `{version}/vmlinuz`
/// otherwise. None when the image path has no file name.
pub open spec fn installed_kernel_name_view(e: &Entry, schema: &Schema) -> Option<Seq<char>> {
    let eff = effective_schema(e, schema);
    match eff {
        Schema::Legacy { .. } => {
            let bn = strutil::basename(e.kernel.image@);
            if bn.len() > 0 {
                Some("kernel-"@ + bn)
            } else {
                None
            }
        },
        _ => Some(e.kernel.version@ + "/vmlinuz"@),
    }
}

/// The file name an auxiliary asset is installed under: only initrds
/// are installed, as `initrd-{name}` for the legacy layout and
/// `{version}/{name}` otherwise.
pub open spec fn installed_asset_name_view(
    e: &Entry,
    schema: &Schema,
    asset: &AuxiliaryFile,
) -> Option<Seq<char>> {
    let eff = effective_schema(e, schema);
    let bn = strutil::basename(asset.path@);
    match eff {
        Schema::Legacy { .. } => {
            if asset.kind == AuxiliaryKind::InitRd && bn.len() > 0 {
                Some("initrd-"@ + bn)
            } else {
                None
            }
        },
        _ => {
            if asset.kind == AuxiliaryKind::InitRd && bn.len() > 0 {
                Some(e.kernel.version@ + seq!['/'] + bn)
            } else {
                None
            }
        },
    }
}

/// The normal form of a cmdline snippet: every newline replaced by a
/// space, surrounding whitespace removed.
pub open spec fn snippet_normal(raw: Seq<char>) -> Seq<char> {
    strutil::trim(crate::systemd_boot::join_space(strutil::split_seq(raw, '\n')))
}

/// Normalise the text of a cmdline snippet: newlines become spaces and
/// the result is trimmed.
pub fn cmdline_snippet_text(raw: &str) -> (r: String)
    ensures
        r@ == snippet_normal(raw@),
{
    let parts = strutil::split_char(raw, '\n');
    let joined = crate::systemd_boot::join_with_space(&parts);
    proof {
        assert(crate::systemd_boot::string_views(parts@) =~= strutil::split_seq(raw@, '\n'));
    }
    strutil::trim_ws(joined.as_str())
}

impl Entry {
    /// New entry for the given kernel.
    pub fn new(kernel: Kernel) -> (r: Self)
        ensures
            r.kernel == kernel,
            r.sysroot is None,
            r.cmdline@.len() == 0,
            r.state_id is None,
            r.schema is None,
    {
        Entry { kernel, cmdline: Vec::new(), sysroot: None, state_id: None, schema: None }
    }

    /// With the given system root.
    pub fn with_sysroot(self, sysroot: String) -> (r: Self)
        ensures
            r.sysroot matches Some(p) && p@ == sysroot@,
            r.kernel == self.kernel,
            r.cmdline == self.cmdline,
            r.state_id == self.state_id,
            r.schema == self.schema,
    {
        Entry { sysroot: Some(sysroot), ..self }
    }

    /// With the given state id, used to link the entry to a unique
    /// transaction id on disk.
    pub fn with_state_id(self, state_id: i32) -> (r: Self)
        ensures
            r.state_id == Some(state_id),
            r.kernel == self.kernel,
            r.cmdline == self.cmdline,
            r.sysroot == self.sysroot,
            r.schema == self.schema,
    {
        Entry { state_id: Some(state_id), ..self }
    }

    /// With the given schema, overriding the global schema for this
    /// entry only.
    pub fn with_schema(self, schema: Schema) -> (r: Self)
        ensures
            r.schema == Some(schema),
            r.kernel == self.kernel,
            r.cmdline == self.cmdline,
            r.sysroot == self.sysroot,
            r.state_id == self.state_id,
    {
        Entry { schema: Some(schema), ..self }
    }

    /// With the given cmdline entry appended.
    pub fn with_cmdline(self, entry: CmdlineEntry) -> (r: Self)
        ensures
            r.cmdline@ == self.cmdline@.push(entry),
            r.kernel == self.kernel,
            r.sysroot == self.sysroot,
            r.state_id == self.state_id,
            r.schema == self.schema,
    {
        let mut cmdline = self.cmdline;
        cmdline.push(entry);
        Entry { cmdline, ..self }
    }

    /// The schema this entry is managed under.
    pub fn effective<'a>(&'a self, schema: &'a Schema) -> (r: &'a Schema)
        ensures
            *r == effective_schema(self, schema),
    {
        match &self.schema {
            Some(own) => own,
            None => schema,
        }
    }

    /// Return an entry id, suitable for `.conf` generation.
    pub fn id(&self, schema: &Schema) -> (r: String)
        ensures
            r@ == entry_id_view(self, schema),
    {
        proof {
            reveal_strlit("-");
            assert("-"@ =~= seq!['-']);
        }
        let eff = self.effective(schema);
        let base = match eff {
            Schema::Legacy { os_release, .. } => os_release.name.clone(),
            _ => eff.os_id(),
        };
        let mut out = strutil::concat3(base.as_str(), "-", self.kernel.version.as_str());
        match &self.state_id {
            Some(sid) => {
                out.append("-");
                let rendered = strutil::i64_to_string(*sid as i64);
                out.append(rendered.as_str());
                out
            }
            None => out,
        }
    }

    /// Generate an installed name for the kernel, used by bootloaders.
    pub fn installed_kernel_name(&self, schema: &Schema) -> (r: Option<String>)
        ensures
            match r {
                Some(name) => installed_kernel_name_view(self, schema) matches Some(expect)
                    && name@ == expect,
                None => installed_kernel_name_view(self, schema) is None,
            },
    {
        let eff = self.effective(schema);
        match eff {
            Schema::Legacy { .. } => {
                let bn = strutil::basename_string(self.kernel.image.as_str());
                if bn.as_str().unicode_len() > 0 {
                    Some(strutil::concat2("kernel-", bn.as_str()))
                } else {
                    None
                }
            }
            _ => {
                Some(strutil::concat2(self.kernel.version.as_str(), "/vmlinuz"))
            }
        }
    }

    /// Generate an installed asset (aux) name, used by bootloaders.
    /// Only initrds are installed.
    pub fn installed_asset_name(&self, schema: &Schema, asset: &AuxiliaryFile) -> (r: Option<
        String,
    >)
        ensures
            match r {
                Some(name) => installed_asset_name_view(self, schema, asset) matches Some(expect)
                    && name@ == expect,
                None => installed_asset_name_view(self, schema, asset) is None,
            },
    {
        let eff = self.effective(schema);
        let bn = strutil::basename_string(asset.path.as_str());
        let is_initrd = matches!(asset.kind, AuxiliaryKind::InitRd);
        if !is_initrd || bn.as_str().unicode_len() == 0 {
            return None;
        }
        match eff {
            Schema::Legacy { .. } => Some(strutil::concat2("initrd-", bn.as_str())),
            _ => {
                proof {
                    reveal_strlit("/");
                    assert("/"@ =~= seq!['/']);
                }
                Some(strutil::concat3(self.kernel.version.as_str(), "/", bn.as_str()))
            }
        }
    }
}

} // verus!
