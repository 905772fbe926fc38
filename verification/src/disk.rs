//! Disk probe and query: the mounts snapshot and the path arithmetic a
//! topology scan runs on.

use vstd::prelude::*;

use crate::strutil;

verus! {

/// One entry of the mounts snapshot.
pub struct MountEntry {
    /// The backing device.
    pub device: String,

    /// Where it is mounted.
    pub mountpoint: String,

    /// The filesystem type.
    pub fstype: String,

    /// The mount options.
    pub options: String,
}

/// A line of a mounts file describes a mount when it carries at least
/// the four leading columns.
pub open spec fn line_mount_ok(l: Seq<char>) -> bool {
    strutil::split_seq(l, ' ').len() >= 4
}

/// The lines of a mounts file that describe mounts.
pub open spec fn mount_lines(text: Seq<char>) -> Seq<Seq<char>> {
    strutil::split_seq(text, '\n').filter(|l: Seq<char>| line_mount_ok(l))
}

/// An entry mirrors a line when its fields are the line's first four
/// columns.
pub open spec fn entry_matches_line(e: MountEntry, l: Seq<char>) -> bool {
    &&& e.device@ == strutil::split_seq(l, ' ')[0]
    &&& e.mountpoint@ == strutil::split_seq(l, ' ')[1]
    &&& e.fstype@ == strutil::split_seq(l, ' ')[2]
    &&& e.options@ == strutil::split_seq(l, ' ')[3]
}

/// A parsed snapshot of the mounts file; it is not refreshed.
pub struct Table {
    /// The mounts, in file order.
    pub entries: Vec<MountEntry>,
}

impl Table {
    /// An empty snapshot.
    pub fn new() -> (r: Table)
        ensures
            r.entries@.len() == 0,
    {
        Table { entries: Vec::new() }
    }

    /// Decode a mounts file: one mount per line holding at least the
    /// device, mountpoint, filesystem type and options columns,
    /// space-separated.
    pub fn parse(text: &str) -> (r: Table)
        ensures
            r.entries@.len() == mount_lines(text@).len(),
            forall|i: int|
                0 <= i < r.entries@.len() ==> entry_matches_line(
                    #[trigger] r.entries@[i],
                    mount_lines(text@)[i],
                ),
    {
        let ghost all_lines = strutil::split_seq(text@, '\n');
        let lines = strutil::split_char(text, '\n');
        let mut entries: Vec<MountEntry> = Vec::new();
        proof {
            reveal(Seq::filter);
            assert(all_lines.take(0).filter(|l: Seq<char>| line_mount_ok(l)) =~= Seq::<
                Seq<char>,
            >::empty());
        }
        let mut t: usize = 0;
        while t < lines.len()
            invariant
                t <= lines@.len(),
                all_lines.len() == lines@.len(),
                forall|i: int| 0 <= i < lines@.len() ==> (#[trigger] lines@[i])@ == all_lines[i],
                entries@.len() == all_lines.take(t as int).filter(
                    |l: Seq<char>| line_mount_ok(l),
                ).len(),
                forall|i: int|
                    0 <= i < entries@.len() ==> entry_matches_line(
                        #[trigger] entries@[i],
                        all_lines.take(t as int).filter(|l: Seq<char>| line_mount_ok(l))[i],
                    ),
            decreases lines@.len() - t,
        {
            let line: &String = &lines[t];
            let ghost lv = all_lines[t as int];
            let fields = strutil::split_char(line.as_str(), ' ');
            proof {
                reveal(Seq::filter);
                assert(all_lines.take(t as int + 1).drop_last() =~= all_lines.take(t as int));
                assert(all_lines.take(t as int + 1).last() == lv);
            }
            let ghost pre = entries@;
            if fields.len() >= 4 {
                let entry = MountEntry {
                    device: fields[0].clone(),
                    mountpoint: fields[1].clone(),
                    fstype: fields[2].clone(),
                    options: fields[3].clone(),
                };
                proof {
                    assert(entry_matches_line(entry, lv));
                }
                entries.push(entry);
                proof {
                    let pred = |l: Seq<char>| line_mount_ok(l);
                    assert(all_lines.take(t as int + 1).filter(pred) =~= all_lines.take(
                        t as int,
                    ).filter(pred).push(lv));
                    assert forall|i: int| 0 <= i < entries@.len() implies entry_matches_line(
                        #[trigger] entries@[i],
                        all_lines.take(t as int + 1).filter(pred)[i],
                    ) by {
                        if i < pre.len() {
                            assert(entries@[i] == pre[i]);
                            assert(all_lines.take(t as int + 1).filter(pred)[i]
                                == all_lines.take(t as int).filter(pred)[i]);
                        } else {
                            assert(entries@[i] == entry);
                        }
                    }
                }
            } else {
                proof {
                    let pred = |l: Seq<char>| line_mount_ok(l);
                    assert(!line_mount_ok(lv));
                    assert(all_lines.take(t as int + 1).filter(pred) =~= all_lines.take(
                        t as int,
                    ).filter(pred));
                }
            }
            t = t + 1;
        }
        proof {
            assert(all_lines.take(all_lines.len() as int) =~= all_lines);
        }
        Table { entries }
    }

    /// The device of the first mount at the given mountpoint, if any.
    pub fn device_for_mountpoint(&self, mountpoint: &str) -> (r: Option<String>)
        ensures
            match r {
                Some(d) => exists|i: int|
                    0 <= i < self.entries@.len() && (#[trigger] self.entries@[i]).mountpoint@
                        == mountpoint@ && self.entries@[i].device@ == d@,
                None => forall|i: int|
                    0 <= i < self.entries@.len() ==> (#[trigger] self.entries@[i]).mountpoint@
                        != mountpoint@,
            },
    {
        let mut i: usize = 0;
        while i < self.entries.len()
            invariant
                i <= self.entries@.len(),
                forall|k: int|
                    0 <= k < i ==> (#[trigger] self.entries@[k]).mountpoint@ != mountpoint@,
            decreases self.entries@.len() - i,
        {
            if strutil::str_eq(self.entries[i].mountpoint.as_str(), mountpoint) {
                return Some(self.entries[i].device.clone());
            }
            i = i + 1;
        }
        None
    }

    /// The mountpoint of the first mount of the given device, if any.
    pub fn mountpoint_for_device(&self, device: &str) -> (r: Option<String>)
        ensures
            match r {
                Some(m) => exists|i: int|
                    0 <= i < self.entries@.len() && (#[trigger] self.entries@[i]).device@
                        == device@ && self.entries@[i].mountpoint@ == m@,
                None => forall|i: int|
                    0 <= i < self.entries@.len() ==> (#[trigger] self.entries@[i]).device@
                        != device@,
            },
    {
        let mut i: usize = 0;
        while i < self.entries.len()
            invariant
                i <= self.entries@.len(),
                forall|k: int| 0 <= k < i ==> (#[trigger] self.entries@[k]).device@ != device@,
            decreases self.entries@.len() - i,
        {
            if strutil::str_eq(self.entries[i].device.as_str(), device) {
                return Some(self.entries[i].mountpoint.clone());
            }
            i = i + 1;
        }
        None
    }
}

/// A disk probe to query disks.
pub struct Probe {
    /// Location of `/sys`.
    pub sysfs: String,

    /// Location of `/dev`.
    pub devfs: String,

    /// Location of `/proc`.
    pub procfs: String,

    /// Mountpoints.
    pub mounts: Table,
}

impl Probe {
    /// A probe over the given filesystem roots, with an empty mounts
    /// snapshot.
    pub fn new(sysfs: String, devfs: String, procfs: String) -> (r: Probe)
        ensures
            r.sysfs == sysfs,
            r.devfs == devfs,
            r.procfs == procfs,
            r.mounts.entries@.len() == 0,
    {
        Probe { sysfs, devfs, procfs, mounts: Table::new() }
    }

    /// Initial startup load: decode the mounts file's text into the
    /// snapshot.
    pub fn init_scan(&mut self, mounts_text: &str)
        ensures
            final(self).sysfs == old(self).sysfs,
            final(self).devfs == old(self).devfs,
            final(self).procfs == old(self).procfs,
            final(self).mounts.entries@.len() == mount_lines(mounts_text@).len(),
            forall|i: int|
                0 <= i < final(self).mounts.entries@.len() ==> entry_matches_line(
                    #[trigger] final(self).mounts.entries@[i],
                    mount_lines(mounts_text@)[i],
                ),
    {
        self.mounts = Table::parse(mounts_text);
    }

    /// The mounts file of this probe's procfs.
    pub fn mounts_path(&self) -> (r: String)
        ensures
            r@ == strutil::path_join(
                strutil::path_join(self.procfs@, "self"@),
                "mounts"@,
            ),
    {
        let base = strutil::path_join_exec(self.procfs.as_str(), "self");
        strutil::path_join_exec(base.as_str(), "mounts")
    }

    /// The sysfs node of a block device leaf.
    pub fn sysfs_block_path(&self, leaf: &str) -> (r: String)
        ensures
            r@ == strutil::path_join(
                strutil::path_join(strutil::path_join(self.sysfs@, "class"@), "block"@),
                leaf@,
            ),
    {
        let a = strutil::path_join_exec(self.sysfs.as_str(), "class");
        let b = strutil::path_join_exec(a.as_str(), "block");
        strutil::path_join_exec(b.as_str(), leaf)
    }

    /// The devfs node of a device name.
    pub fn devfs_path(&self, name: &str) -> (r: String)
        ensures
            r@ == strutil::path_join(self.devfs@, name@),
    {
        strutil::path_join_exec(self.devfs.as_str(), name)
    }

    /// The devfs block lookup node of a device number pair.
    pub fn devfs_majmin_path(&self, major: u64, minor: u64) -> (r: String)
        ensures
            r@ == strutil::path_join(
                strutil::path_join(self.devfs@, "block"@),
                strutil::dec_rep(major as int) + seq![':'] + strutil::dec_rep(minor as int),
            ),
    {
        proof {
            reveal_strlit(":");
            assert(":"@ =~= seq![':']);
        }
        let mut name = strutil::u64_to_string(major);
        name.append(":");
        let minor_str = strutil::u64_to_string(minor);
        name.append(minor_str.as_str());
        let base = strutil::path_join_exec(self.devfs.as_str(), "block");
        strutil::path_join_exec(base.as_str(), name.as_str())
    }
}

/// Builder pattern for a Probe.
pub struct Builder {
    /// sysfs directory.
    pub sysfs: String,

    /// devfs directory.
    pub devfs: String,

    /// procfs directory.
    pub procfs: String,
}

impl Default for Builder {
    /// The standard virtual filesystem roots.
    fn default() -> (r: Self)
        ensures
            r.sysfs@ == "/sys"@,
            r.devfs@ == "/dev"@,
            r.procfs@ == "/proc"@,
    {
        Builder {
            sysfs: ("/sys").to_owned(),
            devfs: ("/dev").to_owned(),
            procfs: ("/proc").to_owned(),
        }
    }
}

impl Builder {
    /// sysfs directory.
    pub fn with_sysfs(self, sysfs: String) -> (r: Self)
        ensures
            r.sysfs == sysfs,
            r.devfs == self.devfs,
            r.procfs == self.procfs,
    {
        Builder { sysfs, ..self }
    }

    /// devfs directory.
    pub fn with_devfs(self, devfs: String) -> (r: Self)
        ensures
            r.devfs == devfs,
            r.sysfs == self.sysfs,
            r.procfs == self.procfs,
    {
        Builder { devfs, ..self }
    }

    /// procfs directory.
    pub fn with_procfs(self, procfs: String) -> (r: Self)
        ensures
            r.procfs == procfs,
            r.sysfs == self.sysfs,
            r.devfs == self.devfs,
    {
        Builder { procfs, ..self }
    }
}

} // verus!
