//! Kernel abstraction: discovery of kernel images and their auxiliary
//! files under a system root, for each supported naming schema.

use vstd::multiset::Multiset;
use vstd::prelude::*;

use crate::os_info::OsInfo;
use crate::os_release::OsRelease;
use crate::strutil;
use crate::Error;

verus! {

/// Control kernel discovery mechanism.
pub enum Schema {
    /// Legacy (clr-boot-manager style) schema, with a fixed reverse-DNS
    /// namespace for file names.
    Legacy { os_release: OsRelease, namespace: String },

    /// Modern schema using only an os-release file.
    Blsforme { os_release: OsRelease },

    /// Modern distribution using os-info.json.
    OsInfo { os_info: OsInfo },
}

/// Denotes the kind of auxiliary file.
#[derive(Clone, Copy, PartialEq, Eq, Structural)]
pub enum AuxiliaryKind {
    /// A cmdline snippet.
    Cmdline,

    /// An initial ramdisk.
    InitRd,

    /// System.map file.
    SystemMap,

    /// .config file.
    Config,

    /// The `boot.json` file.
    BootJson,
}

/// An additional file required to be shipped with the kernel, such as
/// initrds, system maps, etc.
pub struct AuxiliaryFile {
    /// Path of the file.
    pub path: String,

    /// What the file is.
    pub kind: AuxiliaryKind,
}

impl Clone for AuxiliaryFile {
    /// An exact copy, field for field.
    fn clone(&self) -> (r: Self)
        ensures
            r == *self,
    {
        AuxiliaryFile { path: self.path.clone(), kind: self.kind }
    }
}

/// A kernel is the primary bootable element that we care about, ie the
/// vmlinuz file. It also comes with a set of auxiliary files that are
/// required for a fully working system, but specifically dependent on
/// that kernel version.
pub struct Kernel {
    /// Matches the `uname -r` of the kernel, should be uniquely encoded
    /// by release/variant.
    pub version: String,

    /// vmlinuz path.
    pub image: String,

    /// All of the initrds.
    pub initrd: Vec<AuxiliaryFile>,

    /// Any non-initrd, auxiliary files.
    pub extras: Vec<AuxiliaryFile>,

    /// Recorded variant type.
    pub variant: Option<String>,
}

/// A run of auxiliary files is ordered by case-folded path.
pub open spec fn aux_sorted(s: Seq<AuxiliaryFile>) -> bool {
    forall|i: int, j: int|
        0 <= i < j < s.len() ==> strutil::lower_le(#[trigger] s[i].path@, #[trigger] s[j].path@)
}

/// A run of kernels is ordered strictly by version.
pub open spec fn kernels_sorted(s: Seq<Kernel>) -> bool {
    forall|i: int, j: int|
        0 <= i < j < s.len() ==> strutil::lex_le(#[trigger] s[i].version@, #[trigger] s[j].version@)
            && s[i].version@ != s[j].version@
}

/// Case-folded order is total.
proof fn lemma_lower_le_total(a: Seq<char>, b: Seq<char>)
    ensures
        strutil::lower_le(a, b) || strutil::lower_le(b, a),
{
    strutil::lemma_seq_le_total(strutil::lower_codes(a), strutil::lower_codes(b));
}

/// Case-folded order is transitive.
proof fn lemma_lower_le_trans(a: Seq<char>, b: Seq<char>, c: Seq<char>)
    requires
        strutil::lower_le(a, b),
        strutil::lower_le(b, c),
    ensures
        strutil::lower_le(a, c),
{
    strutil::lemma_seq_le_trans(
        strutil::lower_codes(a),
        strutil::lower_codes(b),
        strutil::lower_codes(c),
    );
}

/// Raw lexicographic order is total.
proof fn lemma_lex_le_total(a: Seq<char>, b: Seq<char>)
    ensures
        strutil::lex_le(a, b) || strutil::lex_le(b, a),
{
    strutil::lemma_seq_le_total(strutil::codes(a), strutil::codes(b));
}

/// Raw lexicographic order is transitive.
proof fn lemma_lex_le_trans(a: Seq<char>, b: Seq<char>, c: Seq<char>)
    requires
        strutil::lex_le(a, b),
        strutil::lex_le(b, c),
    ensures
        strutil::lex_le(a, c),
{
    strutil::lemma_seq_le_trans(strutil::codes(a), strutil::codes(b), strutil::codes(c));
}

/// Inserting an element anywhere adds exactly it to the multiset.
proof fn lemma_insert_to_multiset<A>(s: Seq<A>, i: int, v: A)
    requires
        0 <= i <= s.len(),
    ensures
        s.insert(i, v).to_multiset() == s.to_multiset().insert(v),
{
    broadcast use vstd::seq_lib::group_seq_properties;
    broadcast use vstd::multiset::group_multiset_axioms;

    let left = s.take(i);
    let right = s.skip(i);
    assert(s.insert(i, v) =~= left.push(v) + right);
    vstd::seq_lib::lemma_multiset_commutative(left.push(v), right);
    left.to_multiset_ensures();
    assert(left.push(v).to_multiset() =~= left.to_multiset().insert(v));
    assert(left + right =~= s);
    vstd::seq_lib::lemma_multiset_commutative(left, right);
    assert(left.to_multiset().insert(v).add(right.to_multiset()) =~= left.to_multiset().add(
        right.to_multiset(),
    ).insert(v));
}

/// Sort auxiliary files ascending by case-folded path. The result holds
/// exactly the input files.
pub fn sort_aux(input: Vec<AuxiliaryFile>) -> (r: Vec<AuxiliaryFile>)
    ensures
        aux_sorted(r@),
        r@.to_multiset() == input@.to_multiset(),
        r@.len() == input@.len(),
{
    let mut pending = input;
    let mut out: Vec<AuxiliaryFile> = Vec::new();
    let ghost all = pending@.to_multiset();
    let ghost total = pending@.len();
    proof {
        broadcast use vstd::multiset::group_multiset_axioms;

        out@.to_multiset_ensures();
        assert(out@.to_multiset() =~= Multiset::<AuxiliaryFile>::empty());
        assert(out@.to_multiset().add(pending@.to_multiset()) =~= pending@.to_multiset());
    }
    loop
        invariant
            aux_sorted(out@),
            out@.to_multiset().add(pending@.to_multiset()) == all,
            out@.len() + pending@.len() == total,
        ensures
            aux_sorted(out@),
            out@.to_multiset() == all,
            out@.len() == total,
        decreases pending@.len(),
    {
        let ghost pre = pending@;
        let x = match pending.pop() {
            Some(x) => x,
            None => {
                proof {
                    broadcast use vstd::multiset::group_multiset_axioms;

                    pending@.to_multiset_ensures();
                    assert(pending@.to_multiset() =~= Multiset::<AuxiliaryFile>::empty());
                    assert(out@.to_multiset() =~= all);
                }
                break;
            }
        };
        proof {
            pending@.to_multiset_ensures();
            assert(pending@.push(x) =~= pre);
        }
        let mut p: usize = 0;
        loop
            invariant
                p <= out@.len(),
                forall|k: int|
                    0 <= k < p ==> strutil::lower_le(#[trigger] out@[k].path@, x.path@),
            ensures
                p <= out@.len(),
                forall|k: int|
                    0 <= k < p ==> strutil::lower_le(#[trigger] out@[k].path@, x.path@),
                p == out@.len() || !strutil::lower_le(out@[p as int].path@, x.path@),
            decreases out@.len() - p,
        {
            if p == out.len() {
                break;
            }
            let keep = strutil::le_ignore_case(out[p].path.as_str(), x.path.as_str());
            if !keep {
                break;
            }
            p = p + 1;
        }
        proof {
            if (p as int) < out@.len() {
                lemma_lower_le_total(out@[p as int].path@, x.path@);
            }
            assert forall|k: int| p <= k < out@.len() implies strutil::lower_le(
                x.path@,
                #[trigger] out@[k].path@,
            ) by {
                assert(strutil::lower_le(x.path@, out@[p as int].path@));
                if k > p {
                    lemma_lower_le_trans(x.path@, out@[p as int].path@, out@[k].path@);
                }
            }
            lemma_insert_to_multiset(out@, p as int, x);
        }
        let ghost before = out@;
        out.insert(p, x);
        proof {
            assert forall|i: int, j: int| 0 <= i < j < out@.len() implies strutil::lower_le(
                #[trigger] out@[i].path@,
                #[trigger] out@[j].path@,
            ) by {
                let pi = p as int;
                if i < pi && j < pi {
                    assert(out@[i] == before[i] && out@[j] == before[j]);
                } else if i < pi && j == pi {
                    assert(out@[i] == before[i] && out@[j] == x);
                } else if i < pi && j > pi {
                    assert(out@[i] == before[i] && out@[j] == before[j - 1]);
                } else if i == pi {
                    assert(out@[i] == x && out@[j] == before[j - 1]);
                } else {
                    assert(out@[i] == before[i - 1] && out@[j] == before[j - 1]);
                }
            }
            broadcast use vstd::multiset::group_multiset_axioms;

            assert(out@.to_multiset().add(pending@.to_multiset()) =~= all);
        }
    }
    out
}

/// Strictness propagates through `lex_le` on the left.
proof fn lemma_lex_lt_le_trans(a: Seq<char>, b: Seq<char>, c: Seq<char>)
    requires
        strutil::lex_le(a, b),
        a != b,
        strutil::lex_le(b, c),
    ensures
        strutil::lex_le(a, c),
        a != c,
{
    lemma_lex_le_trans(a, b, c);
    if a == c {
        strutil::lemma_codes_le_antisym(a, b);
    }
}

/// Strictness propagates through `lex_le` on the right.
proof fn lemma_lex_le_lt_trans(a: Seq<char>, b: Seq<char>, c: Seq<char>)
    requires
        strutil::lex_le(a, b),
        strutil::lex_le(b, c),
        b != c,
    ensures
        strutil::lex_le(a, c),
        a != c,
{
    lemma_lex_le_trans(a, b, c);
    if a == c {
        strutil::lemma_codes_le_antisym(b, c);
    }
}

/// Insert a kernel into a version-sorted run, replacing any kernel that
/// already carries the same version (the newcomer wins).
fn upsert_kernel(out: &mut Vec<Kernel>, k: Kernel)
    requires
        kernels_sorted(old(out)@),
    ensures
        kernels_sorted(final(out)@),
        exists|i: int| 0 <= i < final(out)@.len() && final(out)@[i] == k,
        forall|i: int|
            0 <= i < old(out)@.len() && old(out)@[i].version@ != k.version@ ==> exists|j: int|
                0 <= j < final(out)@.len() && final(out)@[j] == old(out)@[i],
        forall|j: int|
            0 <= j < final(out)@.len() ==> final(out)@[j] == k || exists|i: int|
                0 <= i < old(out)@.len() && final(out)@[j] == old(out)@[i],
        old(out)@.len() <= final(out)@.len() <= old(out)@.len() + 1,
{
    let ghost orig = out@;
    let mut p: usize = 0;
    loop
        invariant
            kernels_sorted(out@),
            out@ == orig,
            p <= out@.len(),
            forall|j: int|
                0 <= j < p ==> strutil::lex_le(#[trigger] out@[j].version@, k.version@)
                    && out@[j].version@ != k.version@,
        ensures
            out@ == orig,
            p <= out@.len(),
            forall|j: int|
                0 <= j < p ==> strutil::lex_le(#[trigger] out@[j].version@, k.version@)
                    && out@[j].version@ != k.version@,
            p == out@.len() || !(strutil::lex_le(out@[p as int].version@, k.version@)
                && out@[p as int].version@ != k.version@),
        decreases out@.len() - p,
    {
        if p == out.len() {
            break;
        }
        let le = strutil::le_lex(out[p].version.as_str(), k.version.as_str());
        let eq = strutil::str_eq(out[p].version.as_str(), k.version.as_str());
        if le && !eq {
            p = p + 1;
        } else {
            break;
        }
    }
    let same = if p < out.len() {
        strutil::str_eq(out[p].version.as_str(), k.version.as_str())
    } else {
        false
    };
    if same {
        out.remove(p);
        let ghost mid = out@;
        out.insert(p, k);
        proof {
            let pi = p as int;
            assert forall|i: int, j: int| 0 <= i < j < out@.len() implies strutil::lex_le(
                #[trigger] out@[i].version@,
                #[trigger] out@[j].version@,
            ) && out@[i].version@ != out@[j].version@ by {
                assert(forall|m: int| 0 <= m < pi ==> out@[m] == orig[m]);
                assert(forall|m: int| pi < m < out@.len() ==> out@[m] == orig[m]);
                assert(out@[pi] == k);
                assert(k.version@ == orig[pi].version@);
            }
            assert(out@[pi] == k);
            assert forall|i: int|
                0 <= i < orig.len() && orig[i].version@ != k.version@ implies exists|j: int|
                0 <= j < out@.len() && out@[j] == orig[i] by {
                assert(i != pi);
                assert(out@[i] == orig[i]);
            }
            assert forall|j: int| 0 <= j < out@.len() implies out@[j] == k || exists|i: int|
                0 <= i < orig.len() && out@[j] == orig[i] by {
                if j != pi {
                    assert(out@[j] == orig[j]);
                }
            }
        }
    } else {
        proof {
            let pi = p as int;
            if pi < orig.len() {
                assert(orig[pi].version@ != k.version@);
                lemma_lex_le_total(orig[pi].version@, k.version@);
            }
        }
        out.insert(p, k);
        proof {
            let pi = p as int;
            assert forall|i: int, j: int| 0 <= i < j < out@.len() implies strutil::lex_le(
                #[trigger] out@[i].version@,
                #[trigger] out@[j].version@,
            ) && out@[i].version@ != out@[j].version@ by {
                if i < pi && j < pi {
                    assert(out@[i] == orig[i] && out@[j] == orig[j]);
                } else if i < pi && j == pi {
                    assert(out@[i] == orig[i] && out@[j] == k);
                } else if i < pi && j > pi {
                    assert(out@[i] == orig[i] && out@[j] == orig[j - 1]);
                } else if i == pi {
                    assert(out@[i] == k && out@[j] == orig[j - 1]);
                    assert(strutil::lex_le(k.version@, orig[pi].version@) && k.version@
                        != orig[pi].version@);
                    if j - 1 > pi {
                        lemma_lex_lt_le_trans(k.version@, orig[pi].version@, orig[j - 1].version@);
                    }
                } else {
                    assert(out@[i] == orig[i - 1] && out@[j] == orig[j - 1]);
                }
            }
            assert(out@[pi] == k);
            assert forall|i: int|
                0 <= i < orig.len() && orig[i].version@ != k.version@ implies exists|j: int|
                0 <= j < out@.len() && out@[j] == orig[i] by {
                if i < pi {
                    assert(out@[i] == orig[i]);
                } else {
                    assert(out@[i + 1] == orig[i]);
                }
            }
            assert forall|j: int| 0 <= j < out@.len() implies out@[j] == k || exists|i: int|
                0 <= i < orig.len() && out@[j] == orig[i] by {
                if j < pi {
                    assert(out@[j] == orig[j]);
                } else if j > pi {
                    assert(out@[j] == orig[j - 1]);
                }
            }
        }
    }
}

/// The variant recorded on a kernel, as a character sequence (empty
/// when none is recorded).
pub open spec fn variant_view(k: Kernel) -> Seq<char> {
    match k.variant {
        Some(v) => v@,
        None => Seq::<char>::empty(),
    }
}

/// A path announces a legacy kernel for namespace `ns` when its file
/// name reads `{ns}.{variant}.{full_version}` and the version part
/// carries a release separator `-`.
pub open spec fn legacy_is_kernel(ns: Seq<char>, p: Seq<char>) -> bool {
    let bn = strutil::basename(p);
    let rest = bn.skip(ns.len() as int + 1);
    &&& strutil::starts_with(bn, ns + seq!['.'])
    &&& strutil::first_index(rest, '.') >= 0
    &&& exists|j: int| strutil::first_index(rest, '.') < j < rest.len() && rest[j] == '-'
}

/// The variant encoded in a legacy kernel file name.
pub open spec fn legacy_variant(ns: Seq<char>, p: Seq<char>) -> Seq<char> {
    let rest = strutil::basename(p).skip(ns.len() as int + 1);
    rest.take(strutil::first_index(rest, '.'))
}

/// The full version encoded in a legacy kernel file name.
pub open spec fn legacy_version(ns: Seq<char>, p: Seq<char>) -> Seq<char> {
    let rest = strutil::basename(p).skip(ns.len() as int + 1);
    rest.skip(strutil::first_index(rest, '.') + 1)
}

/// Classify a file name as a legacy auxiliary file of the kernel with
/// the given namespace, variant and version, mirroring the fixed naming
/// rules of the legacy layout.
pub open spec fn legacy_aux_kind(
    ns: Seq<char>,
    vt: Seq<char>,
    vn: Seq<char>,
    bn: Seq<char>,
) -> Option<AuxiliaryKind> {
    let sysmap = "System.map-"@ + vn + seq!['.'] + vt;
    let cmdline = "cmdline-"@ + vn + seq!['.'] + vt;
    let config = "config-"@ + vn + seq!['.'] + vt;
    let initrd = "initrd-"@ + ns + seq!['.'] + vt + seq!['.'] + vn;
    let indep = "initrd-"@ + ns + seq!['.'];
    if bn == sysmap {
        Some(AuxiliaryKind::SystemMap)
    } else if bn == cmdline {
        Some(AuxiliaryKind::Cmdline)
    } else if bn == config {
        Some(AuxiliaryKind::Config)
    } else if bn == initrd {
        Some(AuxiliaryKind::InitRd)
    } else if strutil::starts_with(bn, initrd) {
        Some(AuxiliaryKind::InitRd)
    } else if strutil::starts_with(bn, indep) && (forall|j: int|
        indep.len() <= j < bn.len() ==> bn[j] != '.') {
        Some(AuxiliaryKind::InitRd)
    } else {
        None
    }
}

/// The version, image, and variant of `k` all agree with the legacy
/// decomposition of `k`'s image path, which stands in `paths`.
pub open spec fn legacy_kernel_core(ns: Seq<char>, paths: Seq<String>, k: Kernel) -> bool {
    &&& k.variant is Some
    &&& exists|j: int| 0 <= j < paths.len() && (#[trigger] paths[j])@ == k.image@
    &&& legacy_is_kernel(ns, k.image@)
    &&& k.version@ == legacy_version(ns, k.image@)
    &&& variant_view(k) == legacy_variant(ns, k.image@)
    &&& k.version@.len() > 0
}

/// The auxiliary files attached to `k` are exactly those members of
/// `paths` whose names the legacy rules tie to `k`, sorted by
/// case-folded path.
pub open spec fn legacy_kernel_aux(ns: Seq<char>, paths: Seq<String>, k: Kernel) -> bool {
    let vt = variant_view(k);
    let vn = k.version@;
    &&& aux_sorted(k.initrd@)
    &&& aux_sorted(k.extras@)
    &&& forall|a: AuxiliaryFile| #[trigger]
        k.initrd@.contains(a) ==> a.kind == AuxiliaryKind::InitRd && exists|j: int|
            0 <= j < paths.len() && (#[trigger] paths[j])@ == a.path@ && legacy_aux_kind(
                ns,
                vt,
                vn,
                strutil::basename(a.path@),
            ) == Some(AuxiliaryKind::InitRd)
    &&& forall|j: int|
        0 <= j < paths.len() && legacy_aux_kind(ns, vt, vn, strutil::basename((#[trigger] paths[j])@))
            == Some(AuxiliaryKind::InitRd) ==> exists|a: AuxiliaryFile|
            k.initrd@.contains(a) && a.path@ == paths[j]@
    &&& forall|a: AuxiliaryFile| #[trigger]
        k.extras@.contains(a) ==> a.kind != AuxiliaryKind::InitRd && exists|j: int|
            0 <= j < paths.len() && (#[trigger] paths[j])@ == a.path@ && legacy_aux_kind(
                ns,
                vt,
                vn,
                strutil::basename(a.path@),
            ) == Some(a.kind)
    &&& forall|j: int|
        0 <= j < paths.len() ==> (legacy_aux_kind(
            ns,
            vt,
            vn,
            strutil::basename((#[trigger] paths[j])@),
        ) matches Some(x) ==> (x != AuxiliaryKind::InitRd ==> exists|a: AuxiliaryFile|
            k.extras@.contains(a) && a.path@ == paths[j]@ && a.kind == x))
}

/// What legacy discovery promises: every returned kernel decodes a
/// kernel path of the input and carries exactly its auxiliary files,
/// every announced kernel version is represented, and the run is
/// ordered by version.
pub open spec fn legacy_result_ok(ns: Seq<char>, paths: Seq<String>, ks: Seq<Kernel>) -> bool {
    &&& kernels_sorted(ks)
    &&& forall|i: int|
        0 <= i < ks.len() ==> legacy_kernel_core(ns, paths, #[trigger] ks[i])
            && legacy_kernel_aux(ns, paths, ks[i])
    &&& forall|j: int|
        0 <= j < paths.len() && legacy_is_kernel(ns, (#[trigger] paths[j])@) ==> exists|i: int|
            0 <= i < ks.len() && (#[trigger] ks[i]).version@ == legacy_version(ns, paths[j]@)
}

/// Scan paths for legacy kernel images: one kernel per announced
/// version, the latest announcement winning, in version order.
fn legacy_scan_kernels(namespace: &str, paths: &Vec<String>) -> (r: Vec<Kernel>)
    ensures
        kernels_sorted(r@),
        forall|i: int|
            0 <= i < r@.len() ==> legacy_kernel_core(namespace@, paths@, #[trigger] r@[i])
                && r@[i].initrd@.len() == 0 && r@[i].extras@.len() == 0,
        forall|j: int|
            0 <= j < paths@.len() && legacy_is_kernel(namespace@, (#[trigger] paths@[j])@)
                ==> exists|i: int|
                0 <= i < r@.len() && (#[trigger] r@[i]).version@ == legacy_version(
                    namespace@,
                    paths@[j]@,
                ),
{
    let ghost ns = namespace@;
    let nsdot = strutil::concat2(namespace, ".");
    proof {
        reveal_strlit(".");
        assert("."@ =~= seq!['.']);
        assert(nsdot@ == ns + seq!['.']);
    }
    let nslen = namespace.unicode_len();
    let mut out: Vec<Kernel> = Vec::new();
    let mut t: usize = 0;
    while t < paths.len()
        invariant
            nsdot@ == ns + seq!['.'],
            nslen == ns.len(),
            t <= paths@.len(),
            kernels_sorted(out@),
            forall|i: int|
                0 <= i < out@.len() ==> legacy_kernel_core(ns, paths@, #[trigger] out@[i])
                    && out@[i].initrd@.len() == 0 && out@[i].extras@.len() == 0,
            forall|j: int|
                0 <= j < t && legacy_is_kernel(ns, (#[trigger] paths@[j])@) ==> exists|i: int|
                    0 <= i < out@.len() && (#[trigger] out@[i]).version@ == legacy_version(
                        ns,
                        paths@[j]@,
                    ),
        decreases paths@.len() - t,
    {
        let p: &String = &paths[t];
        let bn = strutil::basename_string(p.as_str());
        if strutil::str_starts_with(bn.as_str(), nsdot.as_str()) {
            let bnlen = bn.unicode_len();
            let rest = strutil::substring_string(bn.as_str(), nslen + 1, bnlen);
            proof {
                assert(rest@ =~= bn@.skip(ns.len() as int + 1));
            }
            match strutil::find_char(rest.as_str(), '.') {
                Some(d) => {
                    proof {
                        strutil::lemma_first_index(rest@, '.');
                        assert(rest@[d as int] == '.');
                        let fi = strutil::first_index(rest@, '.');
                        if fi < d as int {
                            assert(rest@[fi] == '.');
                        }
                        assert(fi == d as int);
                    }
                    let restlen = rest.unicode_len();
                    let fullver = strutil::substring_string(rest.as_str(), d + 1, restlen);
                    proof {
                        assert(fullver@ =~= rest@.skip(d as int + 1));
                    }
                    match strutil::find_char(fullver.as_str(), '-') {
                        Some(h) => {
                            let variant = strutil::substring_string(rest.as_str(), 0, d);
                            proof {
                                assert(variant@ =~= rest@.take(d as int));
                                assert(rest@[d as int + 1 + h as int] == '-');
                                assert(legacy_is_kernel(ns, p@));
                                assert(legacy_version(ns, p@) == fullver@);
                                assert(legacy_variant(ns, p@) == variant@);
                                assert(fullver@.len() > 0);
                            }
                            let k = Kernel {
                                version: fullver,
                                image: p.clone(),
                                initrd: Vec::new(),
                                extras: Vec::new(),
                                variant: Some(variant),
                            };
                            proof {
                                assert(legacy_kernel_core(ns, paths@, k)) by {
                                    assert(paths@[t as int]@ == k.image@);
                                }
                            }
                            let ghost pre = out@;
                            upsert_kernel(&mut out, k);
                            proof {
                                assert forall|i: int|
                                    0 <= i < out@.len() implies legacy_kernel_core(
                                    ns,
                                    paths@,
                                    #[trigger] out@[i],
                                ) && out@[i].initrd@.len() == 0 && out@[i].extras@.len() == 0 by {
                                    if out@[i] != k {
                                        let w = choose|w: int|
                                            0 <= w < pre.len() && out@[i] == pre[w];
                                        assert(legacy_kernel_core(ns, paths@, pre[w]));
                                    }
                                }
                                assert forall|j: int|
                                    0 <= j < t + 1 && legacy_is_kernel(
                                        ns,
                                        (#[trigger] paths@[j])@,
                                    ) implies exists|i: int|
                                    0 <= i < out@.len() && (#[trigger] out@[i]).version@
                                        == legacy_version(ns, paths@[j]@) by {
                                    let ki = choose|ki: int|
                                        0 <= ki < out@.len() && out@[ki] == k;
                                    if j == t {
                                        assert(out@[ki].version@ == legacy_version(ns, paths@[j]@));
                                    } else {
                                        let io = choose|io: int|
                                            0 <= io < pre.len() && (#[trigger] pre[io]).version@
                                                == legacy_version(ns, paths@[j]@);
                                        if pre[io].version@ == k.version@ {
                                            assert(out@[ki].version@ == legacy_version(
                                                ns,
                                                paths@[j]@,
                                            ));
                                        } else {
                                            let iw = choose|iw: int|
                                                0 <= iw < out@.len() && out@[iw] == pre[io];
                                            assert(out@[iw].version@ == legacy_version(
                                                ns,
                                                paths@[j]@,
                                            ));
                                        }
                                    }
                                }
                            }
                        }
                        None => {
                            proof {
                                strutil::lemma_first_index(rest@, '.');
                                assert(!legacy_is_kernel(ns, p@)) by {
                                    if legacy_is_kernel(ns, p@) {
                                        let w = choose|w: int|
                                            strutil::first_index(rest@, '.') < w < rest@.len() && rest@[w]
                                                == '-';
                                        assert(fullver@[w - (d as int + 1)] == '-');
                                    }
                                }
                            }
                        }
                    }
                }
                None => {
                    proof {
                        strutil::lemma_first_index(rest@, '.');
                        assert(strutil::first_index(rest@, '.') == -1);
                        assert(!legacy_is_kernel(ns, p@));
                    }
                }
            }
        } else {
            proof {
                assert(!legacy_is_kernel(ns, p@));
            }
        }
        t = t + 1;
    }
    out
}

/// Two runs holding the same multiset hold the same elements.
proof fn lemma_multiset_eq_contains<A>(a: Seq<A>, b: Seq<A>)
    requires
        a.to_multiset() == b.to_multiset(),
    ensures
        forall|x: A| a.contains(x) <==> b.contains(x),
{
    a.to_multiset_ensures();
    b.to_multiset_ensures();
    assert forall|x: A| a.contains(x) <==> b.contains(x) by {
        assert(a.contains(x) <==> a.to_multiset().count(x) > 0);
        assert(b.contains(x) <==> b.to_multiset().count(x) > 0);
    }
}

/// Attach to every kernel of the run the auxiliary files that the
/// legacy naming rules tie to it, sorted by case-folded path.
fn legacy_attach_aux(namespace: &str, paths: &Vec<String>, ks: Vec<Kernel>) -> (r: Vec<Kernel>)
    requires
        kernels_sorted(ks@),
        forall|i: int|
            0 <= i < ks@.len() ==> legacy_kernel_core(namespace@, paths@, #[trigger] ks@[i]),
    ensures
        kernels_sorted(r@),
        r@.len() == ks@.len(),
        forall|i: int|
            0 <= i < r@.len() ==> (#[trigger] r@[i]).version@ == ks@[i].version@,
        forall|i: int|
            0 <= i < r@.len() ==> legacy_kernel_core(namespace@, paths@, #[trigger] r@[i])
                && legacy_kernel_aux(namespace@, paths@, r@[i]),
{
    let ghost ns = namespace@;
    proof {
        reveal_strlit(".");
        assert("."@ =~= seq!['.']);
    }
    let mut r: Vec<Kernel> = Vec::new();
    let mut m: usize = 0;
    while m < ks.len()
        invariant
            ns == namespace@,
            m <= ks@.len(),
            r@.len() == m,
            kernels_sorted(ks@),
            forall|i: int|
                0 <= i < ks@.len() ==> legacy_kernel_core(ns, paths@, #[trigger] ks@[i]),
            forall|i: int| 0 <= i < m ==> (#[trigger] r@[i]).version@ == ks@[i].version@,
            forall|i: int|
                0 <= i < m ==> legacy_kernel_core(ns, paths@, #[trigger] r@[i])
                    && legacy_kernel_aux(ns, paths@, r@[i]),
        decreases ks@.len() - m,
    {
        proof {
            reveal_strlit(".");
            assert("."@ =~= seq!['.']);
        }
        let kern: &Kernel = &ks[m];
        let version: &String = &kern.version;
        let variant: &String = match &kern.variant {
            Some(v) => v,
            None => {
                proof {
                    assert(false);
                }
                vstd::pervasive::unreached()
            }
        };
        let ghost vn = version@;
        let ghost vt = variant@;
        let mut sysmap = strutil::concat3("System.map-", version.as_str(), ".");
        sysmap.append(variant.as_str());
        let mut cmdline = strutil::concat3("cmdline-", version.as_str(), ".");
        cmdline.append(variant.as_str());
        let mut config = strutil::concat3("config-", version.as_str(), ".");
        config.append(variant.as_str());
        let indep = strutil::concat3("initrd-", namespace, ".");
        let mut initrd_name = strutil::concat2(indep.as_str(), variant.as_str());
        initrd_name.append(".");
        initrd_name.append(version.as_str());
        proof {
            assert(sysmap@ =~= "System.map-"@ + vn + seq!['.'] + vt);
            assert(cmdline@ =~= "cmdline-"@ + vn + seq!['.'] + vt);
            assert(config@ =~= "config-"@ + vn + seq!['.'] + vt);
            assert(indep@ =~= "initrd-"@ + ns + seq!['.']);
            assert(initrd_name@ =~= "initrd-"@ + ns + seq!['.'] + vt + seq!['.'] + vn);
        }
        let indep_len = indep.unicode_len();
        let mut initrds: Vec<AuxiliaryFile> = Vec::new();
        let mut extras: Vec<AuxiliaryFile> = Vec::new();
        let mut t: usize = 0;
        while t < paths.len()
            invariant
                ns == namespace@,
                vn == version@,
                vt == variant@,
                t <= paths@.len(),
                indep_len == indep@.len(),
                sysmap@ == "System.map-"@ + vn + seq!['.'] + vt,
                cmdline@ == "cmdline-"@ + vn + seq!['.'] + vt,
                config@ == "config-"@ + vn + seq!['.'] + vt,
                indep@ == "initrd-"@ + ns + seq!['.'],
                initrd_name@ == "initrd-"@ + ns + seq!['.'] + vt + seq!['.'] + vn,
                forall|a: AuxiliaryFile| #[trigger]
                    initrds@.contains(a) ==> a.kind == AuxiliaryKind::InitRd && exists|j: int|
                        0 <= j < paths@.len() && (#[trigger] paths@[j])@ == a.path@
                            && legacy_aux_kind(ns, vt, vn, strutil::basename(a.path@)) == Some(
                            AuxiliaryKind::InitRd,
                        ),
                forall|j: int|
                    0 <= j < t && legacy_aux_kind(
                        ns,
                        vt,
                        vn,
                        strutil::basename((#[trigger] paths@[j])@),
                    ) == Some(AuxiliaryKind::InitRd) ==> exists|a: AuxiliaryFile|
                        initrds@.contains(a) && a.path@ == paths@[j]@,
                forall|a: AuxiliaryFile| #[trigger]
                    extras@.contains(a) ==> a.kind != AuxiliaryKind::InitRd && exists|j: int|
                        0 <= j < paths@.len() && (#[trigger] paths@[j])@ == a.path@
                            && legacy_aux_kind(ns, vt, vn, strutil::basename(a.path@)) == Some(
                            a.kind,
                        ),
                forall|j: int|
                    0 <= j < t ==> (legacy_aux_kind(
                        ns,
                        vt,
                        vn,
                        strutil::basename((#[trigger] paths@[j])@),
                    ) matches Some(x) ==> (x != AuxiliaryKind::InitRd
                        ==> exists|a: AuxiliaryFile|
                        extras@.contains(a) && a.path@ == paths@[j]@ && a.kind == x)),
            decreases paths@.len() - t,
        {
            let p: &String = &paths[t];
            let bn = strutil::basename_string(p.as_str());
            let ghost pre_initrds = initrds@;
            let ghost pre_extras = extras@;
            let kind: Option<AuxiliaryKind> = if strutil::str_eq(bn.as_str(), sysmap.as_str()) {
                Some(AuxiliaryKind::SystemMap)
            } else if strutil::str_eq(bn.as_str(), cmdline.as_str()) {
                Some(AuxiliaryKind::Cmdline)
            } else if strutil::str_eq(bn.as_str(), config.as_str()) {
                Some(AuxiliaryKind::Config)
            } else if strutil::str_eq(bn.as_str(), initrd_name.as_str()) {
                Some(AuxiliaryKind::InitRd)
            } else if strutil::str_starts_with(bn.as_str(), initrd_name.as_str()) {
                Some(AuxiliaryKind::InitRd)
            } else if strutil::str_starts_with(bn.as_str(), indep.as_str()) {
                let bn_len = bn.unicode_len();
                let suffix = strutil::substring_string(bn.as_str(), indep_len, bn_len);
                proof {
                    assert(suffix@ =~= bn@.skip(indep@.len() as int));
                }
                if !strutil::contains_char(suffix.as_str(), '.') {
                    proof {
                        assert forall|j: int| indep@.len() <= j < bn@.len() implies bn@[j]
                            != '.' by {
                            assert(suffix@[j - indep@.len()] != '.');
                        }
                    }
                    Some(AuxiliaryKind::InitRd)
                } else {
                    proof {
                        let w = choose|w: int| 0 <= w < suffix@.len() && suffix@[w] == '.';
                        assert(bn@[w + indep@.len()] == '.');
                        assert(legacy_aux_kind(ns, vt, vn, bn@) is None);
                    }
                    None
                }
            } else {
                None
            };
            match kind {
                Some(x) => {
                    proof {
                        assert(legacy_aux_kind(ns, vt, vn, bn@) == Some(x));
                    }
                    let aux = AuxiliaryFile { path: p.clone(), kind: x };
                    if matches!(x, AuxiliaryKind::InitRd) {
                        initrds.push(aux);
                        proof {
                            assert forall|a: AuxiliaryFile| #[trigger]
                                initrds@.contains(a) implies a.kind == AuxiliaryKind::InitRd
                                && exists|j: int|
                                0 <= j < paths@.len() && (#[trigger] paths@[j])@ == a.path@
                                    && legacy_aux_kind(ns, vt, vn, strutil::basename(a.path@))
                                    == Some(AuxiliaryKind::InitRd) by {
                                if a != aux || pre_initrds.contains(a) {
                                    if pre_initrds.contains(a) {
                                    } else {
                                        assert(a == aux);
                                        assert(paths@[t as int]@ == a.path@);
                                    }
                                } else {
                                    assert(paths@[t as int]@ == a.path@);
                                }
                            }
                            assert(initrds@.contains(aux)) by {
                                assert(initrds@[initrds@.len() - 1] == aux);
                            }
                            assert forall|j: int|
                                0 <= j < t + 1 && legacy_aux_kind(
                                    ns,
                                    vt,
                                    vn,
                                    strutil::basename((#[trigger] paths@[j])@),
                                ) == Some(AuxiliaryKind::InitRd) implies exists|a: AuxiliaryFile|
                                initrds@.contains(a) && a.path@ == paths@[j]@ by {
                                if j == t {
                                    assert(initrds@.contains(aux) && aux.path@ == paths@[j]@);
                                } else {
                                    let a = choose|a: AuxiliaryFile|
                                        pre_initrds.contains(a) && a.path@ == paths@[j]@;
                                    let w = choose|w: int|
                                        0 <= w < pre_initrds.len() && pre_initrds[w] == a;
                                    assert(initrds@[w] == a);
                                    assert(initrds@.contains(a));
                                }
                            }
                        }
                    } else {
                        extras.push(aux);
                        proof {
                            assert forall|a: AuxiliaryFile| #[trigger]
                                extras@.contains(a) implies a.kind != AuxiliaryKind::InitRd
                                && exists|j: int|
                                0 <= j < paths@.len() && (#[trigger] paths@[j])@ == a.path@
                                    && legacy_aux_kind(ns, vt, vn, strutil::basename(a.path@))
                                    == Some(a.kind) by {
                                if pre_extras.contains(a) {
                                } else {
                                    assert(a == aux);
                                    assert(paths@[t as int]@ == a.path@);
                                }
                            }
                            assert(extras@.contains(aux)) by {
                                assert(extras@[extras@.len() - 1] == aux);
                            }
                            assert forall|j: int|
                                0 <= j < t + 1 && legacy_aux_kind(
                                    ns,
                                    vt,
                                    vn,
                                    strutil::basename((#[trigger] paths@[j])@),
                                ) == Some(AuxiliaryKind::InitRd) implies exists|a: AuxiliaryFile|
                                initrds@.contains(a) && a.path@ == paths@[j]@ by {
                                if j < t {
                                    let a = choose|a: AuxiliaryFile|
                                        initrds@.contains(a) && a.path@ == paths@[j]@;
                                    assert(initrds@.contains(a));
                                }
                            }
                            assert forall|j: int| 0 <= j < t + 1 implies (legacy_aux_kind(
                                ns,
                                vt,
                                vn,
                                strutil::basename((#[trigger] paths@[j])@),
                            ) matches Some(x) ==> (x != AuxiliaryKind::InitRd
                                ==> exists|a: AuxiliaryFile|
                                extras@.contains(a) && a.path@ == paths@[j]@ && a.kind == x)) by {
                                if j == t {
                                    assert(extras@.contains(aux) && aux.path@ == paths@[j]@);
                                } else {
                                    if legacy_aux_kind(
                                        ns,
                                        vt,
                                        vn,
                                        strutil::basename(paths@[j]@),
                                    ) matches Some(x) && x != AuxiliaryKind::InitRd {
                                        let a = choose|a: AuxiliaryFile|
                                            pre_extras.contains(a) && a.path@ == paths@[j]@
                                                && a.kind == legacy_aux_kind(
                                                ns,
                                                vt,
                                                vn,
                                                strutil::basename(paths@[j]@),
                                            )->Some_0;
                                        let w = choose|w: int|
                                            0 <= w < pre_extras.len() && pre_extras[w] == a;
                                        assert(extras@[w] == a);
                                        assert(extras@.contains(a));
                                    }
                                }
                            }
                        }
                    }
                }
                None => {
                    proof {
                        assert(legacy_aux_kind(ns, vt, vn, bn@) is None);
                    }
                }
            }
            t = t + 1;
        }
        let ghost raw_initrds = initrds@;
        let ghost raw_extras = extras@;
        let sorted_initrds = sort_aux(initrds);
        let sorted_extras = sort_aux(extras);
        proof {
            lemma_multiset_eq_contains(sorted_initrds@, raw_initrds);
            lemma_multiset_eq_contains(sorted_extras@, raw_extras);
        }
        let knew = Kernel {
            version: version.clone(),
            image: kern.image.clone(),
            initrd: sorted_initrds,
            extras: sorted_extras,
            variant: Some(variant.clone()),
        };
        proof {
            assert(legacy_kernel_core(ns, paths@, knew)) by {
                assert(knew.image@ == ks@[m as int].image@);
                assert(knew.version@ == ks@[m as int].version@);
                assert(variant_view(knew) == variant_view(ks@[m as int]));
            }
            assert(variant_view(knew) == vt);
            assert(knew.version@ == vn);
            assert forall|a: AuxiliaryFile| #[trigger]
                knew.initrd@.contains(a) implies a.kind == AuxiliaryKind::InitRd && exists|j: int|
                0 <= j < paths@.len() && (#[trigger] paths@[j])@ == a.path@ && legacy_aux_kind(
                    ns,
                    vt,
                    vn,
                    strutil::basename(a.path@),
                ) == Some(AuxiliaryKind::InitRd) by {
                assert(raw_initrds.contains(a));
            }
            assert forall|j: int|
                0 <= j < paths@.len() && legacy_aux_kind(
                    ns,
                    vt,
                    vn,
                    strutil::basename((#[trigger] paths@[j])@),
                ) == Some(AuxiliaryKind::InitRd) implies exists|a: AuxiliaryFile|
                knew.initrd@.contains(a) && a.path@ == paths@[j]@ by {
                let a = choose|a: AuxiliaryFile|
                    raw_initrds.contains(a) && a.path@ == paths@[j]@;
                assert(knew.initrd@.contains(a));
            }
            assert forall|a: AuxiliaryFile| #[trigger]
                knew.extras@.contains(a) implies a.kind != AuxiliaryKind::InitRd && exists|j: int|
                0 <= j < paths@.len() && (#[trigger] paths@[j])@ == a.path@ && legacy_aux_kind(
                    ns,
                    vt,
                    vn,
                    strutil::basename(a.path@),
                ) == Some(a.kind) by {
                assert(raw_extras.contains(a));
            }
            assert forall|j: int| 0 <= j < paths@.len() implies (legacy_aux_kind(
                ns,
                vt,
                vn,
                strutil::basename((#[trigger] paths@[j])@),
            ) matches Some(x) ==> (x != AuxiliaryKind::InitRd ==> exists|a: AuxiliaryFile|
                knew.extras@.contains(a) && a.path@ == paths@[j]@ && a.kind == x)) by {
                if legacy_aux_kind(ns, vt, vn, strutil::basename(paths@[j]@)) matches Some(x)
                    && x != AuxiliaryKind::InitRd {
                    let a = choose|a: AuxiliaryFile|
                        raw_extras.contains(a) && a.path@ == paths@[j]@ && a.kind
                            == legacy_aux_kind(
                            ns,
                            vt,
                            vn,
                            strutil::basename(paths@[j]@),
                        )->Some_0;
                    assert(knew.extras@.contains(a));
                }
            }
            assert(legacy_kernel_aux(ns, paths@, knew));
        }
        r.push(knew);
        m = m + 1;
    }
    proof {
        assert forall|i: int, j: int| 0 <= i < j < r@.len() implies strutil::lex_le(
            #[trigger] r@[i].version@,
            #[trigger] r@[j].version@,
        ) && r@[i].version@ != r@[j].version@ by {
            assert(ks@[i].version@ == r@[i].version@);
            assert(ks@[j].version@ == r@[j].version@);
        }
    }
    r
}

/// `p` lies inside directory `d` (component-wise; the empty directory
/// holds every path).
pub open spec fn path_in_dir(p: Seq<char>, d: Seq<char>) -> bool {
    if d.len() == 0 {
        true
    } else {
        p == d || strutil::starts_with(p, d + seq!['/'])
    }
}

/// Executable check for `path_in_dir`.
fn in_dir(p: &str, d: &str) -> (r: bool)
    ensures
        r == path_in_dir(p@, d@),
{
    let dlen = d.unicode_len();
    if dlen == 0 {
        true
    } else {
        proof {
            reveal_strlit("/");
            assert("/"@ =~= seq!['/']);
        }
        if strutil::str_eq(p, d) {
            true
        } else {
            let dslash = strutil::concat2(d, "/");
            proof {
                assert(dslash@ == d@ + seq!['/']);
            }
            strutil::str_starts_with(p, dslash.as_str())
        }
    }
}

/// A path announces a modern kernel when its file name is literally
/// `vmlinuz` and it sits inside a named version directory.
pub open spec fn bls_is_kernel(p: Seq<char>) -> bool {
    strutil::basename(p) == "vmlinuz"@ && strutil::basename(strutil::dirname(p)).len() > 0
}

/// The version of a modern kernel: its parent directory's name.
pub open spec fn bls_version(p: Seq<char>) -> Seq<char> {
    strutil::basename(strutil::dirname(p))
}

/// Classify a path as an auxiliary file of the modern kernel whose
/// image is `img` and whose version is `vn`: a non-kernel file inside
/// the image's directory, named by its role.
pub open spec fn bls_aux_kind(img: Seq<char>, vn: Seq<char>, p: Seq<char>) -> Option<
    AuxiliaryKind,
> {
    let lepath = strutil::dirname(img);
    let bn = strutil::basename(p);
    if bn == "vmlinuz"@ {
        None
    } else if !path_in_dir(p, lepath) {
        None
    } else if bn == vn {
        None
    } else if bn == "System.map"@ {
        Some(AuxiliaryKind::SystemMap)
    } else if bn == "boot.json"@ {
        Some(AuxiliaryKind::BootJson)
    } else if bn == "config"@ {
        Some(AuxiliaryKind::Config)
    } else if strutil::ends_with(bn, ".initrd"@) {
        Some(AuxiliaryKind::InitRd)
    } else if strutil::ends_with(bn, ".cmdline"@) {
        Some(AuxiliaryKind::Cmdline)
    } else {
        None
    }
}

/// The version and image of `k` agree with the modern decomposition of
/// `k`'s image path, which stands in `paths`; no variant is recorded by
/// discovery itself.
pub open spec fn bls_kernel_core(paths: Seq<String>, k: Kernel) -> bool {
    &&& k.variant is None
    &&& exists|j: int| 0 <= j < paths.len() && (#[trigger] paths[j])@ == k.image@
    &&& bls_is_kernel(k.image@)
    &&& k.version@ == bls_version(k.image@)
    &&& k.version@.len() > 0
}

/// The auxiliary files attached to `k` are exactly those members of
/// `paths` that the modern rules tie to `k`, sorted by case-folded
/// path.
pub open spec fn bls_kernel_aux(paths: Seq<String>, k: Kernel) -> bool {
    let vn = k.version@;
    let img = k.image@;
    &&& aux_sorted(k.initrd@)
    &&& aux_sorted(k.extras@)
    &&& forall|a: AuxiliaryFile| #[trigger]
        k.initrd@.contains(a) ==> a.kind == AuxiliaryKind::InitRd && exists|j: int|
            0 <= j < paths.len() && (#[trigger] paths[j])@ == a.path@ && bls_aux_kind(
                img,
                vn,
                a.path@,
            ) == Some(AuxiliaryKind::InitRd)
    &&& forall|j: int|
        0 <= j < paths.len() && bls_aux_kind(img, vn, (#[trigger] paths[j])@) == Some(
            AuxiliaryKind::InitRd,
        ) ==> exists|a: AuxiliaryFile| k.initrd@.contains(a) && a.path@ == paths[j]@
    &&& forall|a: AuxiliaryFile| #[trigger]
        k.extras@.contains(a) ==> a.kind != AuxiliaryKind::InitRd && exists|j: int|
            0 <= j < paths.len() && (#[trigger] paths[j])@ == a.path@ && bls_aux_kind(
                img,
                vn,
                a.path@,
            ) == Some(a.kind)
    &&& forall|j: int|
        0 <= j < paths.len() ==> (bls_aux_kind(img, vn, (#[trigger] paths[j])@) matches Some(x)
            ==> (x != AuxiliaryKind::InitRd ==> exists|a: AuxiliaryFile|
            k.extras@.contains(a) && a.path@ == paths[j]@ && a.kind == x))
}

/// What modern discovery promises: every returned kernel decodes a
/// `vmlinuz` path of the input and carries exactly its auxiliary
/// files, every announced version is represented, and the run is
/// ordered by version.
pub open spec fn bls_result_ok(paths: Seq<String>, ks: Seq<Kernel>) -> bool {
    &&& kernels_sorted(ks)
    &&& forall|i: int|
        0 <= i < ks.len() ==> bls_kernel_core(paths, #[trigger] ks[i]) && bls_kernel_aux(
            paths,
            ks[i],
        )
    &&& forall|j: int|
        0 <= j < paths.len() && bls_is_kernel((#[trigger] paths[j])@) ==> exists|i: int|
            0 <= i < ks.len() && (#[trigger] ks[i]).version@ == bls_version(paths[j]@)
}

/// Scan paths for modern kernel images: one kernel per version
/// directory, the latest announcement winning, in version order.
fn bls_scan_kernels(paths: &Vec<String>) -> (r: Vec<Kernel>)
    ensures
        kernels_sorted(r@),
        forall|i: int|
            0 <= i < r@.len() ==> bls_kernel_core(paths@, #[trigger] r@[i]) && r@[i].initrd@.len()
                == 0 && r@[i].extras@.len() == 0,
        forall|j: int|
            0 <= j < paths@.len() && bls_is_kernel((#[trigger] paths@[j])@) ==> exists|i: int|
                0 <= i < r@.len() && (#[trigger] r@[i]).version@ == bls_version(paths@[j]@),
{
    let mut out: Vec<Kernel> = Vec::new();
    let mut t: usize = 0;
    while t < paths.len()
        invariant
            t <= paths@.len(),
            kernels_sorted(out@),
            forall|i: int|
                0 <= i < out@.len() ==> bls_kernel_core(paths@, #[trigger] out@[i])
                    && out@[i].initrd@.len() == 0 && out@[i].extras@.len() == 0,
            forall|j: int|
                0 <= j < t && bls_is_kernel((#[trigger] paths@[j])@) ==> exists|i: int|
                    0 <= i < out@.len() && (#[trigger] out@[i]).version@ == bls_version(
                        paths@[j]@,
                    ),
        decreases paths@.len() - t,
    {
        let p: &String = &paths[t];
        let bn = strutil::basename_string(p.as_str());
        if strutil::str_eq(bn.as_str(), "vmlinuz") {
            let dir = strutil::dirname_string(p.as_str());
            let version = strutil::basename_string(dir.as_str());
            if version.as_str().unicode_len() > 0 {
                proof {
                    assert(bls_is_kernel(p@));
                    assert(bls_version(p@) == version@);
                }
                let k = Kernel {
                    version,
                    image: p.clone(),
                    initrd: Vec::new(),
                    extras: Vec::new(),
                    variant: None,
                };
                proof {
                    assert(bls_kernel_core(paths@, k)) by {
                        assert(paths@[t as int]@ == k.image@);
                    }
                }
                let ghost pre = out@;
                upsert_kernel(&mut out, k);
                proof {
                    assert forall|i: int| 0 <= i < out@.len() implies bls_kernel_core(
                        paths@,
                        #[trigger] out@[i],
                    ) && out@[i].initrd@.len() == 0 && out@[i].extras@.len() == 0 by {
                        if out@[i] != k {
                            let w = choose|w: int| 0 <= w < pre.len() && out@[i] == pre[w];
                            assert(bls_kernel_core(paths@, pre[w]));
                        }
                    }
                    assert forall|j: int|
                        0 <= j < t + 1 && bls_is_kernel((#[trigger] paths@[j])@) implies exists|
                        i: int,
                    |
                        0 <= i < out@.len() && (#[trigger] out@[i]).version@ == bls_version(
                            paths@[j]@,
                        ) by {
                        let ki = choose|ki: int| 0 <= ki < out@.len() && out@[ki] == k;
                        if j == t {
                            assert(out@[ki].version@ == bls_version(paths@[j]@));
                        } else {
                            let io = choose|io: int|
                                0 <= io < pre.len() && (#[trigger] pre[io]).version@
                                    == bls_version(paths@[j]@);
                            if pre[io].version@ == k.version@ {
                                assert(out@[ki].version@ == bls_version(paths@[j]@));
                            } else {
                                let iw = choose|iw: int|
                                    0 <= iw < out@.len() && out@[iw] == pre[io];
                                assert(out@[iw].version@ == bls_version(paths@[j]@));
                            }
                        }
                    }
                }
            } else {
                proof {
                    assert(!bls_is_kernel(p@));
                }
            }
        } else {
            proof {
                assert(!bls_is_kernel(p@));
            }
        }
        t = t + 1;
    }
    out
}

/// Attach to every modern kernel the auxiliary files that live in its
/// version directory, sorted by case-folded path.
fn bls_attach_aux(paths: &Vec<String>, ks: Vec<Kernel>) -> (r: Vec<Kernel>)
    requires
        kernels_sorted(ks@),
        forall|i: int| 0 <= i < ks@.len() ==> bls_kernel_core(paths@, #[trigger] ks@[i]),
    ensures
        kernels_sorted(r@),
        r@.len() == ks@.len(),
        forall|i: int| 0 <= i < r@.len() ==> (#[trigger] r@[i]).version@ == ks@[i].version@,
        forall|i: int|
            0 <= i < r@.len() ==> bls_kernel_core(paths@, #[trigger] r@[i]) && bls_kernel_aux(
                paths@,
                r@[i],
            ),
{
    let mut r: Vec<Kernel> = Vec::new();
    let mut m: usize = 0;
    while m < ks.len()
        invariant
            m <= ks@.len(),
            r@.len() == m,
            kernels_sorted(ks@),
            forall|i: int| 0 <= i < ks@.len() ==> bls_kernel_core(paths@, #[trigger] ks@[i]),
            forall|i: int| 0 <= i < m ==> (#[trigger] r@[i]).version@ == ks@[i].version@,
            forall|i: int|
                0 <= i < m ==> bls_kernel_core(paths@, #[trigger] r@[i]) && bls_kernel_aux(
                    paths@,
                    r@[i],
                ),
        decreases ks@.len() - m,
    {
        let kern: &Kernel = &ks[m];
        let version: &String = &kern.version;
        let lepath = strutil::dirname_string(kern.image.as_str());
        let ghost vn = version@;
        let ghost img = kern.image@;
        let mut initrds: Vec<AuxiliaryFile> = Vec::new();
        let mut extras: Vec<AuxiliaryFile> = Vec::new();
        let mut t: usize = 0;
        while t < paths.len()
            invariant
                vn == version@,
                img == kern.image@,
                kern == &ks@[m as int],
                m < ks@.len(),
                lepath@ == strutil::dirname(img),
                t <= paths@.len(),
                forall|a: AuxiliaryFile| #[trigger]
                    initrds@.contains(a) ==> a.kind == AuxiliaryKind::InitRd && exists|j: int|
                        0 <= j < paths@.len() && (#[trigger] paths@[j])@ == a.path@
                            && bls_aux_kind(img, vn, a.path@) == Some(AuxiliaryKind::InitRd),
                forall|j: int|
                    0 <= j < t && bls_aux_kind(img, vn, (#[trigger] paths@[j])@) == Some(
                        AuxiliaryKind::InitRd,
                    ) ==> exists|a: AuxiliaryFile|
                        initrds@.contains(a) && a.path@ == paths@[j]@,
                forall|a: AuxiliaryFile| #[trigger]
                    extras@.contains(a) ==> a.kind != AuxiliaryKind::InitRd && exists|j: int|
                        0 <= j < paths@.len() && (#[trigger] paths@[j])@ == a.path@
                            && bls_aux_kind(img, vn, a.path@) == Some(a.kind),
                forall|j: int|
                    0 <= j < t ==> (bls_aux_kind(img, vn, (#[trigger] paths@[j])@) matches Some(
                        x,
                    ) ==> (x != AuxiliaryKind::InitRd ==> exists|a: AuxiliaryFile|
                        extras@.contains(a) && a.path@ == paths@[j]@ && a.kind == x)),
            decreases paths@.len() - t,
        {
            let p: &String = &paths[t];
            let bn = strutil::basename_string(p.as_str());
            let ghost pre_initrds = initrds@;
            let ghost pre_extras = extras@;
            let kind: Option<AuxiliaryKind> = if strutil::str_eq(bn.as_str(), "vmlinuz") {
                None
            } else if !in_dir(p.as_str(), lepath.as_str()) {
                None
            } else if strutil::str_eq(bn.as_str(), version.as_str()) {
                None
            } else if strutil::str_eq(bn.as_str(), "System.map") {
                Some(AuxiliaryKind::SystemMap)
            } else if strutil::str_eq(bn.as_str(), "boot.json") {
                Some(AuxiliaryKind::BootJson)
            } else if strutil::str_eq(bn.as_str(), "config") {
                Some(AuxiliaryKind::Config)
            } else if strutil::str_ends_with(bn.as_str(), ".initrd") {
                Some(AuxiliaryKind::InitRd)
            } else if strutil::str_ends_with(bn.as_str(), ".cmdline") {
                Some(AuxiliaryKind::Cmdline)
            } else {
                None
            };
            proof {
                assert(bls_aux_kind(img, vn, p@) == kind);
            }
            match kind {
                Some(x) => {
                    let aux = AuxiliaryFile { path: p.clone(), kind: x };
                    if matches!(x, AuxiliaryKind::InitRd) {
                        initrds.push(aux);
                        proof {
                            assert(initrds@.contains(aux)) by {
                                assert(initrds@[initrds@.len() - 1] == aux);
                            }
                            assert forall|a: AuxiliaryFile| #[trigger]
                                initrds@.contains(a) implies a.kind == AuxiliaryKind::InitRd
                                && exists|j: int|
                                0 <= j < paths@.len() && (#[trigger] paths@[j])@ == a.path@
                                    && bls_aux_kind(img, vn, a.path@) == Some(
                                    AuxiliaryKind::InitRd,
                                ) by {
                                if pre_initrds.contains(a) {
                                } else {
                                    assert(a == aux);
                                    assert(paths@[t as int]@ == a.path@);
                                }
                            }
                            assert forall|j: int|
                                0 <= j < t + 1 && bls_aux_kind(
                                    img,
                                    vn,
                                    (#[trigger] paths@[j])@,
                                ) == Some(AuxiliaryKind::InitRd) implies exists|a: AuxiliaryFile|
                                initrds@.contains(a) && a.path@ == paths@[j]@ by {
                                if j == t {
                                    assert(initrds@.contains(aux) && aux.path@ == paths@[j]@);
                                } else {
                                    let a = choose|a: AuxiliaryFile|
                                        pre_initrds.contains(a) && a.path@ == paths@[j]@;
                                    let w = choose|w: int|
                                        0 <= w < pre_initrds.len() && pre_initrds[w] == a;
                                    assert(initrds@[w] == a);
                                    assert(initrds@.contains(a));
                                }
                            }
                        }
                    } else {
                        extras.push(aux);
                        proof {
                            assert(extras@.contains(aux)) by {
                                assert(extras@[extras@.len() - 1] == aux);
                            }
                            assert forall|a: AuxiliaryFile| #[trigger]
                                extras@.contains(a) implies a.kind != AuxiliaryKind::InitRd
                                && exists|j: int|
                                0 <= j < paths@.len() && (#[trigger] paths@[j])@ == a.path@
                                    && bls_aux_kind(img, vn, a.path@) == Some(a.kind) by {
                                if pre_extras.contains(a) {
                                } else {
                                    assert(a == aux);
                                    assert(paths@[t as int]@ == a.path@);
                                }
                            }
                            assert forall|j: int|
                                0 <= j < t + 1 && bls_aux_kind(
                                    img,
                                    vn,
                                    (#[trigger] paths@[j])@,
                                ) == Some(AuxiliaryKind::InitRd) implies exists|a: AuxiliaryFile|
                                initrds@.contains(a) && a.path@ == paths@[j]@ by {
                                if j < t {
                                    let a = choose|a: AuxiliaryFile|
                                        initrds@.contains(a) && a.path@ == paths@[j]@;
                                    assert(initrds@.contains(a));
                                }
                            }
                            assert forall|j: int| 0 <= j < t + 1 implies (bls_aux_kind(
                                img,
                                vn,
                                (#[trigger] paths@[j])@,
                            ) matches Some(x) ==> (x != AuxiliaryKind::InitRd
                                ==> exists|a: AuxiliaryFile|
                                extras@.contains(a) && a.path@ == paths@[j]@ && a.kind == x)) by {
                                if j == t {
                                    assert(extras@.contains(aux) && aux.path@ == paths@[j]@);
                                } else {
                                    if bls_aux_kind(img, vn, paths@[j]@) matches Some(x) && x
                                        != AuxiliaryKind::InitRd {
                                        let a = choose|a: AuxiliaryFile|
                                            pre_extras.contains(a) && a.path@ == paths@[j]@
                                                && a.kind == bls_aux_kind(
                                                img,
                                                vn,
                                                paths@[j]@,
                                            )->Some_0;
                                        let w = choose|w: int|
                                            0 <= w < pre_extras.len() && pre_extras[w] == a;
                                        assert(extras@[w] == a);
                                        assert(extras@.contains(a));
                                    }
                                }
                            }
                        }
                    }
                }
                None => {},
            }
            t = t + 1;
        }
        let ghost raw_initrds = initrds@;
        let ghost raw_extras = extras@;
        let sorted_initrds = sort_aux(initrds);
        let sorted_extras = sort_aux(extras);
        proof {
            lemma_multiset_eq_contains(sorted_initrds@, raw_initrds);
            lemma_multiset_eq_contains(sorted_extras@, raw_extras);
        }
        let knew = Kernel {
            version: version.clone(),
            image: kern.image.clone(),
            initrd: sorted_initrds,
            extras: sorted_extras,
            variant: None,
        };
        proof {
            assert(bls_kernel_core(paths@, knew)) by {
                assert(knew.image@ == ks@[m as int].image@);
                assert(knew.version@ == ks@[m as int].version@);
            }
            assert forall|a: AuxiliaryFile| #[trigger]
                knew.initrd@.contains(a) implies a.kind == AuxiliaryKind::InitRd && exists|j: int|
                0 <= j < paths@.len() && (#[trigger] paths@[j])@ == a.path@ && bls_aux_kind(
                    img,
                    vn,
                    a.path@,
                ) == Some(AuxiliaryKind::InitRd) by {
                assert(raw_initrds.contains(a));
            }
            assert forall|j: int|
                0 <= j < paths@.len() && bls_aux_kind(img, vn, (#[trigger] paths@[j])@) == Some(
                    AuxiliaryKind::InitRd,
                ) implies exists|a: AuxiliaryFile|
                knew.initrd@.contains(a) && a.path@ == paths@[j]@ by {
                let a = choose|a: AuxiliaryFile|
                    raw_initrds.contains(a) && a.path@ == paths@[j]@;
                assert(knew.initrd@.contains(a));
            }
            assert forall|a: AuxiliaryFile| #[trigger]
                knew.extras@.contains(a) implies a.kind != AuxiliaryKind::InitRd && exists|j: int|
                0 <= j < paths@.len() && (#[trigger] paths@[j])@ == a.path@ && bls_aux_kind(
                    img,
                    vn,
                    a.path@,
                ) == Some(a.kind) by {
                assert(raw_extras.contains(a));
            }
            assert forall|j: int| 0 <= j < paths@.len() implies (bls_aux_kind(
                img,
                vn,
                (#[trigger] paths@[j])@,
            ) matches Some(x) ==> (x != AuxiliaryKind::InitRd ==> exists|a: AuxiliaryFile|
                knew.extras@.contains(a) && a.path@ == paths@[j]@ && a.kind == x)) by {
                if bls_aux_kind(img, vn, paths@[j]@) matches Some(x) && x
                    != AuxiliaryKind::InitRd {
                    let a = choose|a: AuxiliaryFile|
                        raw_extras.contains(a) && a.path@ == paths@[j]@ && a.kind == bls_aux_kind(
                            img,
                            vn,
                            paths@[j]@,
                        )->Some_0;
                    assert(knew.extras@.contains(a));
                }
            }
            assert(bls_kernel_aux(paths@, knew));
        }
        r.push(knew);
        m = m + 1;
    }
    proof {
        assert forall|i: int, j: int| 0 <= i < j < r@.len() implies strutil::lex_le(
            #[trigger] r@[i].version@,
            #[trigger] r@[j].version@,
        ) && r@[i].version@ != r@[j].version@ by {
            assert(ks@[i].version@ == r@[i].version@);
            assert(ks@[j].version@ == r@[j].version@);
        }
    }
    r
}

/// Copy a run of auxiliary files, element for element.
pub fn clone_aux_vec(v: &Vec<AuxiliaryFile>) -> (r: Vec<AuxiliaryFile>)
    ensures
        r@ == v@,
{
    let mut r: Vec<AuxiliaryFile> = Vec::new();
    let mut i: usize = 0;
    while i < v.len()
        invariant
            i <= v@.len(),
            r@ == v@.take(i as int),
        decreases v@.len() - i,
    {
        r.push(v[i].clone());
        proof {
            assert(r@ =~= v@.take(i as int + 1));
        }
        i = i + 1;
    }
    proof {
        assert(v@.take(v@.len() as int) =~= v@);
    }
    r
}

/// Copy a run of strings, element for element.
pub fn clone_string_vec(v: &Vec<String>) -> (r: Vec<String>)
    ensures
        r@ == v@,
{
    let mut r: Vec<String> = Vec::new();
    let mut i: usize = 0;
    while i < v.len()
        invariant
            i <= v@.len(),
            r@ == v@.take(i as int),
        decreases v@.len() - i,
    {
        r.push(v[i].clone());
        proof {
            assert(r@ =~= v@.take(i as int + 1));
        }
        i = i + 1;
    }
    proof {
        assert(v@.take(v@.len() as int) =~= v@);
    }
    r
}

/// Copy an optional string.
pub fn clone_opt_string(v: &Option<String>) -> (r: Option<String>)
    ensures
        r == *v,
{
    match v {
        Some(x) => Some(x.clone()),
        None => None,
    }
}

impl Clone for Kernel {
    /// An exact copy, field for field.
    fn clone(&self) -> (r: Self)
        ensures
            r.version == self.version,
            r.image == self.image,
            r.initrd@ == self.initrd@,
            r.extras@ == self.extras@,
            r.variant == self.variant,
    {
        Kernel {
            version: self.version.clone(),
            image: self.image.clone(),
            initrd: clone_aux_vec(&self.initrd),
            extras: clone_aux_vec(&self.extras),
            variant: clone_opt_string(&self.variant),
        }
    }
}

/// The OS name a schema reports.
pub open spec fn os_name_view(s: &Schema) -> Seq<char> {
    match s {
        Schema::Legacy { os_release, .. } => os_release.name@,
        Schema::Blsforme { os_release } => os_release.name@,
        Schema::OsInfo { os_info } => os_info.identity.name@,
    }
}

/// The namespace a schema uses for files on the boot partitions.
pub open spec fn os_namespace_view(s: &Schema) -> Seq<char> {
    match s {
        Schema::Legacy { namespace, .. } => namespace@,
        Schema::Blsforme { os_release } => os_release.id@,
        Schema::OsInfo { os_info } => os_info.identity.id@,
    }
}

/// The OS id a schema reports.
pub open spec fn os_id_view(s: &Schema) -> Seq<char> {
    match s {
        Schema::Legacy { os_release, .. } => os_release.id@,
        Schema::Blsforme { os_release } => os_release.id@,
        Schema::OsInfo { os_info } => os_info.identity.id@,
    }
}

/// The display name a schema reports, when it has one.
pub open spec fn os_display_view(s: &Schema) -> Option<Seq<char>> {
    match s {
        Schema::Legacy { os_release, .. } => match os_release.pretty_name {
            Some(p) => Some(p@),
            None => None,
        },
        Schema::Blsforme { os_release } => match os_release.pretty_name {
            Some(p) => Some(p@),
            None => None,
        },
        Schema::OsInfo { os_info } => Some(os_info.identity.display@),
    }
}

/// The former identities a schema knows: prior OS ids kept so that a
/// rename can clean up artefacts installed under them. Empty for
/// schemas without that record.
pub open spec fn former_ids_view(s: &Schema) -> Seq<Seq<char>> {
    match s {
        Schema::OsInfo { os_info } => os_info.identity.former_identities@.map_values(
            |x: String| x@,
        ),
        _ => Seq::<Seq<char>>::empty(),
    }
}

impl Clone for Schema {
    /// A copy that reports the same names, ids and former identities.
    fn clone(&self) -> (r: Self)
        ensures
            os_name_view(&r) == os_name_view(self),
            os_namespace_view(&r) == os_namespace_view(self),
            os_id_view(&r) == os_id_view(self),
            os_display_view(&r) == os_display_view(self),
            former_ids_view(&r) == former_ids_view(self),
            r is Legacy <==> self is Legacy,
            r is OsInfo <==> self is OsInfo,
    {
        match self {
            Schema::Legacy { os_release, namespace } => Schema::Legacy {
                os_release: os_release.clone(),
                namespace: namespace.clone(),
            },
            Schema::Blsforme { os_release } => Schema::Blsforme {
                os_release: os_release.clone(),
            },
            Schema::OsInfo { os_info } => {
                let cloned = os_info.clone();
                proof {
                    assert(cloned.identity.former_identities@.map_values(|x: String| x@)
                        =~= os_info.identity.former_identities@.map_values(|x: String| x@));
                }
                Schema::OsInfo { os_info: cloned }
            },
        }
    }
}

impl Schema {
    /// Given a set of kernel-like paths, yield all potential kernels
    /// within them. This should be a set of `/usr/lib/kernel` paths.
    pub fn discover_system_kernels(&self, paths: &Vec<String>) -> (r: Result<Vec<Kernel>, Error>)
        ensures
            r matches Ok(ks) && (match self {
                Schema::Legacy { namespace, .. } => legacy_result_ok(namespace@, paths@, ks@),
                _ => bls_result_ok(paths@, ks@),
            }),
    {
        match self {
            Schema::Legacy { namespace, .. } => Self::legacy_kernels(namespace.as_str(), paths),
            Schema::Blsforme { .. } => Self::blsforme_kernels(paths),
            Schema::OsInfo { .. } => Self::blsforme_kernels(paths),
        }
    }

    /// Discover any legacy kernels.
    fn legacy_kernels(namespace: &str, paths: &Vec<String>) -> (r: Result<Vec<Kernel>, Error>)
        ensures
            r matches Ok(ks) && legacy_result_ok(namespace@, paths@, ks@),
    {
        let scanned = legacy_scan_kernels(namespace, paths);
        let ghost sc = scanned@;
        let attached = legacy_attach_aux(namespace, paths, scanned);
        proof {
            assert forall|j: int|
                0 <= j < paths@.len() && legacy_is_kernel(namespace@, (#[trigger] paths@[j])@)
                implies exists|i: int|
                0 <= i < attached@.len() && (#[trigger] attached@[i]).version@ == legacy_version(
                    namespace@,
                    paths@[j]@,
                ) by {
                let i = choose|i: int|
                    0 <= i < sc.len() && (#[trigger] sc[i]).version@ == legacy_version(
                        namespace@,
                        paths@[j]@,
                    );
                assert(attached@[i].version@ == sc[i].version@);
            }
        }
        Ok(attached)
    }

    /// Handle newstyle discovery.
    fn blsforme_kernels(paths: &Vec<String>) -> (r: Result<Vec<Kernel>, Error>)
        ensures
            r matches Ok(ks) && bls_result_ok(paths@, ks@),
    {
        let scanned = bls_scan_kernels(paths);
        let ghost sc = scanned@;
        let attached = bls_attach_aux(paths, scanned);
        proof {
            assert forall|j: int|
                0 <= j < paths@.len() && bls_is_kernel((#[trigger] paths@[j])@) implies exists|
                i: int,
            |
                0 <= i < attached@.len() && (#[trigger] attached@[i]).version@ == bls_version(
                    paths@[j]@,
                ) by {
                let i = choose|i: int|
                    0 <= i < sc.len() && (#[trigger] sc[i]).version@ == bls_version(paths@[j]@);
                assert(attached@[i].version@ == sc[i].version@);
            }
        }
        Ok(attached)
    }

    /// Retrieve the OS name.
    pub fn os_name(&self) -> (r: String)
        ensures
            r@ == os_name_view(self),
    {
        match self {
            Schema::Legacy { os_release, .. } => os_release.name.clone(),
            Schema::Blsforme { os_release } => os_release.name.clone(),
            Schema::OsInfo { os_info } => os_info.identity.name.clone(),
        }
    }

    /// Retrieve the namespace for files on the boot partition(s).
    pub fn os_namespace(&self) -> (r: String)
        ensures
            r@ == os_namespace_view(self),
    {
        match self {
            Schema::Legacy { namespace, .. } => namespace.clone(),
            Schema::Blsforme { os_release } => os_release.id.clone(),
            Schema::OsInfo { os_info } => os_info.identity.id.clone(),
        }
    }

    /// Retrieve the OS id (ie `serpent-os`, `aerynos`, etc). This is
    /// the `ID` field of os-release.
    pub fn os_id(&self) -> (r: String)
        ensures
            r@ == os_id_view(self),
    {
        match self {
            Schema::Legacy { os_release, .. } => os_release.id.clone(),
            Schema::Blsforme { os_release } => os_release.id.clone(),
            Schema::OsInfo { os_info } => os_info.identity.id.clone(),
        }
    }

    /// Retrieve the display name for the OS, used for display purposes.
    pub fn os_display_name(&self) -> (r: Option<String>)
        ensures
            match r {
                Some(d) => os_display_view(self) matches Some(v) && v == d@,
                None => os_display_view(self) is None,
            },
    {
        match self {
            Schema::Legacy { os_release, .. } => clone_opt_string(&os_release.pretty_name),
            Schema::Blsforme { os_release } => clone_opt_string(&os_release.pretty_name),
            Schema::OsInfo { os_info } => Some(os_info.identity.display.clone()),
        }
    }
}

/// A string that can stand inside a JSON quoted string without any
/// escaping.
pub open spec fn json_plain(s: Seq<char>) -> bool {
    forall|k: int| 0 <= k < s.len() ==> s[k] != '"'
}

/// A quoted JSON string.
pub open spec fn quoted(s: Seq<char>) -> Seq<char> {
    seq!['"'] + s + seq!['"']
}

/// The canonical rendering of a boot.json document.
pub open spec fn boot_json_text(name: Seq<char>, version: Seq<char>, variant: Seq<char>) -> Seq<
    char,
> {
    seq!['{'] + quoted("name"@) + seq![':'] + quoted(name) + seq![','] + quoted("version"@)
        + seq![':'] + quoted(version) + seq![','] + quoted("variant"@) + seq![':'] + quoted(
        variant,
    ) + seq!['}']
}

/// `boot.json` decode support: a single document shipped next to
/// vmlinuz naming the kernel package, version and variant.
pub struct BootJSON {
    /// Kernel's package name.
    pub name: String,

    /// Kernel's version string (uname -r).
    pub version: String,

    /// Kernel's variant id.
    pub variant: String,
}

/// Skip over JSON whitespace from position `i`.
fn skip_ws(s: &str, i: usize) -> (j: usize)
    requires
        i <= s@.len(),
    ensures
        i <= j <= s@.len(),
        forall|k: int| i <= k < j ==> strutil::is_ws(s@[k]),
        j < s@.len() ==> !strutil::is_ws(s@[j as int]),
{
    let len = s.unicode_len();
    let mut j = i;
    while j < len
        invariant
            i <= j <= len,
            len == s@.len(),
            forall|k: int| i <= k < j ==> strutil::is_ws(s@[k]),
        decreases len - j,
    {
        let c = s.get_char(j);
        if c == ' ' || c == '\t' || c == '\n' || c == '\r' {
            j = j + 1;
        } else {
            return j;
        }
    }
    j
}

/// Read a quoted string starting exactly at `i`; on success the
/// returned position stands just past the closing quote, which is the
/// first quote after `i`.
fn parse_quoted(s: &str, i: usize) -> (r: Option<(String, usize)>)
    requires
        i <= s@.len(),
    ensures
        match r {
            Some((c, n)) => {
                &&& i + 2 <= n <= s@.len()
                &&& s@[i as int] == '"'
                &&& s@[n - 1] == '"'
                &&& c@ == s@.subrange(i as int + 1, n - 1)
                &&& forall|k: int| i < k < n - 1 ==> s@[k] != '"'
            },
            None => i == s@.len() || s@[i as int] != '"' || forall|k: int|
                i < k < s@.len() ==> s@[k] != '"',
        },
{
    let len = s.unicode_len();
    if i == len {
        return None;
    }
    if s.get_char(i) != '"' {
        return None;
    }
    let mut j = i + 1;
    while j < len
        invariant
            i + 1 <= j <= len,
            len == s@.len(),
            s@[i as int] == '"',
            forall|k: int| i < k < j ==> s@[k] != '"',
        decreases len - j,
    {
        if s.get_char(j) == '"' {
            let content = strutil::substring_string(s, i + 1, j);
            return Some((content, j + 1));
        }
        j = j + 1;
    }
    None
}

/// Every character position of the canonical rendering, spelled out.
proof fn lemma_canonical_facts(t: Seq<char>, n: Seq<char>, v: Seq<char>, w: Seq<char>)
    requires
        t == boot_json_text(n, v, w),
        json_plain(n),
        json_plain(v),
        json_plain(w),
    ensures
        t.len() == 37 + n.len() as int + v.len() as int + w.len() as int,
        t[0] == '{',
        t[1] == '"',
        t.subrange(2, 6) == "name"@,
        forall|k: int| 1 < k < 6 ==> t[k] != '"',
        t[6] == '"',
        t[7] == ':',
        t[8] == '"',
        t.subrange(9, 9 + n.len() as int) == n,
        forall|k: int| (8) < k < (9 + n.len() as int) ==> t[k] != '"',
        t[9 + n.len() as int] == '"',
        t[10 + n.len() as int] == ',',
        t[11 + n.len() as int] == '"',
        t.subrange(12 + n.len() as int, 19 + n.len() as int) == "version"@,
        forall|k: int|(11 + n.len() as int) < k < (19 + n.len() as int) ==> t[k] != '"',
        t[19 + n.len() as int] == '"',
        t[20 + n.len() as int] == ':',
        t[21 + n.len() as int] == '"',
        t.subrange(22 + n.len() as int, 22 + n.len() as int + v.len() as int) == v,
        forall|k: int|(21 + n.len() as int) < k < (22 + n.len() as int + v.len() as int) ==> t[k] != '"',
        t[22 + n.len() as int + v.len() as int] == '"',
        t[23 + n.len() as int + v.len() as int] == ',',
        t[24 + n.len() as int + v.len() as int] == '"',
        t.subrange(25 + n.len() as int + v.len() as int, 32 + n.len() as int + v.len() as int) == "variant"@,
        forall|k: int|(24 + n.len() as int + v.len() as int) < k < (32 + n.len() as int + v.len() as int) ==> t[k] != '"',
        t[32 + n.len() as int + v.len() as int] == '"',
        t[33 + n.len() as int + v.len() as int] == ':',
        t[34 + n.len() as int + v.len() as int] == '"',
        t.subrange(35 + n.len() as int + v.len() as int, 35 + n.len() as int + v.len() as int + w.len() as int) == w,
        forall|k: int|(34 + n.len() as int + v.len() as int) < k < (35 + n.len() as int + v.len() as int + w.len() as int) ==> t[k]
            != '"',
        t[35 + n.len() as int + v.len() as int + w.len() as int] == '"',
        t[36 + n.len() as int + v.len() as int + w.len() as int] == '}',
{
    reveal_strlit("name");
    reveal_strlit("version");
    reveal_strlit("variant");
    assert("name"@.len() == 4);
    assert("version"@.len() == 7);
    assert("variant"@.len() == 7);
    assert(t.subrange(2, 6) =~= "name"@);
    assert(t.subrange(9, 9 + n.len() as int as int) =~= n);
    assert(t.subrange(12 + n.len() as int as int, 19 + n.len() as int as int) =~= "version"@);
    assert(t.subrange(22 + n.len() as int as int, 22 + n.len() as int as int + v.len() as int as int) =~= v);
    assert(t.subrange(
        25 + n.len() as int as int + v.len() as int as int,
        32 + n.len() as int as int + v.len() as int as int,
    ) =~= "variant"@);
    assert(t.subrange(
        35 + n.len() as int as int + v.len() as int as int,
        35 + n.len() as int as int + v.len() as int as int + w.len() as int as int,
    ) =~= w);
    assert forall|k: int| 1 < k < 6 implies t[k] != '"' by {
        assert(t[k] == "name"@[k - 2]);
    }
    assert forall|k: int| (8) < k < (9 + n.len() as int) implies t[k] != '"' by {
        assert(t[k] == n[k - 9]);
    }
    assert forall|k: int| (11 + n.len() as int) < k < (19 + n.len() as int) implies t[k] != '"' by {
        assert(t[k] == "version"@[k - 12 - n.len() as int]);
    }
    assert forall|k: int| (21 + n.len() as int) < k < (22 + n.len() as int + v.len() as int) implies t[k] != '"' by {
        assert(t[k] == v[k - 22 - n.len() as int]);
    }
    assert forall|k: int|
        (24 + n.len() as int + v.len() as int) < k < (32 + n.len() as int + v.len() as int) implies t[k] != '"' by {
        assert(t[k] == "variant"@[k - 25 - n.len() as int - v.len() as int]);
    }
    assert forall|k: int|
        (34 + n.len() as int + v.len() as int) < k < (35 + n.len() as int + v.len() as int + w.len() as int) implies t[k] != '"' by {
        assert(t[k] == w[k - 35 - n.len() as int - v.len() as int]);
    }
}

/// A member of the canonical rendering stands at `i`: the quoted key,
/// a colon, and the opening quote of the value, with a closing quote
/// somewhere after.
pub open spec fn member_shape(t: Seq<char>, i: int, key: Seq<char>) -> bool {
    &&& 0 <= i
    &&& i + key.len() + 4 <= t.len()
    &&& t[i] == '"'
    &&& t.subrange(i + 1, i + 1 + key.len()) == key
    &&& json_plain(key)
    &&& t[i + 1 + key.len()] == '"'
    &&& t[i + 2 + key.len()] == ':'
    &&& t[i + 3 + key.len()] == '"'
    &&& exists|q: int| i + 3 + key.len() < q < t.len() && t[q] == '"'
}

/// What parsing a member at such a position returns: the value runs
/// from after the opening quote to the first quote after it, and the
/// returned position stands just past that closing quote.
pub open spec fn member_pin(t: Seq<char>, i: int, key: Seq<char>, val: Seq<char>, n: int) -> bool {
    let vstart = i + 4 + key.len();
    &&& vstart <= n - 1 < t.len()
    &&& t[n - 1] == '"'
    &&& (forall|k: int| vstart <= k < n - 1 ==> t[k] != '"')
    &&& val == t.subrange(vstart, n - 1)
}

/// Read one `"key": "value"` member, tolerating JSON whitespace around
/// the tokens. The contract speaks of the unspaced shape only, which is
/// the one the canonical rendering uses.
fn parse_member(s: &str, i: usize, key: &str) -> (r: Option<(String, usize)>)
    requires
        i <= s@.len(),
    ensures
        r matches Some(p) ==> p.1 <= s@.len(),
        member_shape(s@, i as int, key@) ==> (r matches Some(p) && member_pin(
            s@,
            i as int,
            key@,
            p.0@,
            p.1 as int,
        )),
{
    let ghost t = s@;
    let ghost shaped = member_shape(t, i as int, key@);
    let i1 = skip_ws(s, i);
    proof {
        if shaped {
            assert(i1 == i);
        }
    }
    let (k, after_key) = match parse_quoted(s, i1) {
        Some(p) => p,
        None => {
            proof {
                if shaped {
                    assert(t[i as int + 1 + key@.len()] == '"');
                }
            }
            return None;
        }
    };
    proof {
        if shaped {
            assert(after_key == i + key@.len() + 2) by {
                assert forall|k2: int| i < k2 < i + 1 + key@.len() implies t[k2] != '"' by {
                    assert(t[k2] == key@[k2 - i - 1]);
                }
                if after_key < i + key@.len() + 2 {
                    assert(t[after_key - 1] == '"');
                } else if after_key > i + key@.len() + 2 {
                    assert(t[i as int + 1 + key@.len()] == '"');
                }
            }
            assert(k@ =~= key@);
        }
    }
    if !strutil::str_eq(k.as_str(), key) {
        return None;
    }
    let i2 = skip_ws(s, after_key);
    let len = s.unicode_len();
    if i2 == len {
        return None;
    }
    if s.get_char(i2) != ':' {
        proof {
            if shaped {
                assert(i2 == i + key@.len() + 2);
            }
        }
        return None;
    }
    let i3 = skip_ws(s, i2 + 1);
    proof {
        if shaped {
            assert(i2 == i + key@.len() + 2);
            assert(i3 == i + key@.len() + 3);
        }
    }
    match parse_quoted(s, i3) {
        Some((val, n)) => {
            proof {
                if shaped {
                    assert(member_pin(t, i as int, key@, val@, n as int));
                }
            }
            Some((val, n))
        }
        None => {
            proof {
                if shaped {
                    assert(i3 == i + key@.len() + 3);
                    let q = choose|q: int|
                        i + 3 + key@.len() < q < t.len() && t[q] == '"';
                    assert(t[q] == '"');
                }
            }
            None
        }
    }
}

impl BootJSON {
    /// The canonical rendering of this document.
    pub fn to_json(&self) -> (r: String)
        ensures
            r@ == boot_json_text(self.name@, self.version@, self.variant@),
    {
        let mut out = ("{\"name\":\"").to_owned();
        out.append(self.name.as_str());
        out.append("\",\"version\":\"");
        out.append(self.version.as_str());
        out.append("\",\"variant\":\"");
        out.append(self.variant.as_str());
        out.append("\"}");
        proof {
            reveal_strlit("{\"name\":\"");
            reveal_strlit("\",\"version\":\"");
            reveal_strlit("\",\"variant\":\"");
            reveal_strlit("\"}");
            reveal_strlit("name");
            reveal_strlit("version");
            reveal_strlit("variant");
            assert(out@ =~= boot_json_text(self.name@, self.version@, self.variant@));
        }
        out
    }

    /// Decode a boot.json document holding, in canonical member order,
    /// the quoted fields `name`, `version` and `variant`, with JSON
    /// whitespace allowed around every token and no escape sequences.
    ///
    /// Decoding the canonical rendering of any document whose fields
    /// hold no quote character returns exactly that document, so a
    /// render/decode round trip is the identity.
    #[verifier::rlimit(100)]
    pub fn parse(text: &str) -> (r: Result<BootJSON, Error>)
        ensures
            forall|n: Seq<char>, v: Seq<char>, w: Seq<char>|
                text@ == boot_json_text(n, v, w) && json_plain(n) && json_plain(v) && json_plain(
                    w,
                ) ==> (r matches Ok(b) && b.name@ == n && b.version@ == v && b.variant@ == w),
    {
        let ghost t = text@;
        proof {
            reveal_strlit("name");
            reveal_strlit("version");
            reveal_strlit("variant");
        }
        let len = text.unicode_len();
        let (name_val, n1) = match parse_open_name(text) {
            Some(p) => p,
            None => {
                return Err(Error::Json);
            }
        };
        let (version_val, n2) = match parse_comma_member(text, n1, "version") {
            Some(p) => p,
            None => {
                proof {
                    assert forall|n: Seq<char>, v: Seq<char>, w: Seq<char>|
                        !(t == boot_json_text(n, v, w) && json_plain(n) && json_plain(v)
                            && json_plain(w)) by {
                        if t == boot_json_text(n, v, w) && json_plain(n) && json_plain(v)
                            && json_plain(w) {
                            lemma_canonical_facts(t, n, v, w);
                            assert(json_plain("version"@));
                            assert(member_shape(t, 11 + n.len() as int, "version"@)) by {
                                assert(t[22 + n.len() as int + v.len() as int] == '"');
                            }
                        }
                    }
                }
                return Err(Error::Json);
            }
        };
        let (variant_val, n3) = match parse_comma_member(text, n2, "variant") {
            Some(p) => p,
            None => {
                proof {
                    assert forall|n: Seq<char>, v: Seq<char>, w: Seq<char>|
                        !(t == boot_json_text(n, v, w) && json_plain(n) && json_plain(v)
                            && json_plain(w)) by {
                        if t == boot_json_text(n, v, w) && json_plain(n) && json_plain(v)
                            && json_plain(w) {
                            lemma_canonical_facts(t, n, v, w);
                            assert(json_plain("version"@));
                            assert(member_shape(t, 11 + n.len() as int, "version"@)) by {
                                assert(t[22 + n.len() as int + v.len() as int] == '"');
                            }
                            assert(n2 == 23 + n.len() as int + v.len() as int) by {
                                if n2 - 1 < 22 + n.len() as int + v.len() as int {
                                    assert(t[n2 - 1] == '"');
                                } else if n2 - 1 > 22 + n.len() as int + v.len() as int {
                                    assert(t[22 + n.len() as int + v.len() as int] == '"');
                                }
                            }
                            assert(json_plain("variant"@));
                            assert(member_shape(t, 24 + n.len() as int + v.len() as int,
                                "variant"@)) by {
                                assert(t[35 + n.len() as int + v.len() as int + w.len() as int]
                                    == '"');
                            }
                        }
                    }
                }
                return Err(Error::Json);
            }
        };
        if parse_close(text, n3) {
            let out = BootJSON { name: name_val, version: version_val, variant: variant_val };
            proof {
                assert forall|n: Seq<char>, v: Seq<char>, w: Seq<char>|
                    t == boot_json_text(n, v, w) && json_plain(n) && json_plain(v) && json_plain(
                        w,
                    ) implies out.name@ == n && out.version@ == v && out.variant@ == w by {
                    lemma_canonical_facts(t, n, v, w);
                    assert(json_plain("version"@));
                    assert(member_shape(t, 11 + n.len() as int, "version"@)) by {
                        assert(t[22 + n.len() as int + v.len() as int] == '"');
                    }
                    assert(n2 == 23 + n.len() as int + v.len() as int) by {
                        if n2 - 1 < 22 + n.len() as int + v.len() as int {
                            assert(t[n2 - 1] == '"');
                        } else if n2 - 1 > 22 + n.len() as int + v.len() as int {
                            assert(t[22 + n.len() as int + v.len() as int] == '"');
                        }
                    }
                    assert(out.version@ =~= v) by {
                        assert(out.version@ == t.subrange(
                            22 + n.len() as int,
                            22 + n.len() as int + v.len() as int,
                        ));
                    }
                    assert(json_plain("variant"@));
                    assert(member_shape(t, 24 + n.len() as int + v.len() as int, "variant"@))
                        by {
                        assert(t[35 + n.len() as int + v.len() as int + w.len() as int] == '"');
                    }
                    assert(n3 == 36 + n.len() as int + v.len() as int + w.len() as int) by {
                        if n3 - 1 < 35 + n.len() as int + v.len() as int + w.len() as int {
                            assert(t[n3 - 1] == '"');
                        } else if n3 - 1 > 35 + n.len() as int + v.len() as int + w.len()
                            as int {
                            assert(t[35 + n.len() as int + v.len() as int + w.len() as int]
                                == '"');
                        }
                    }
                    assert(out.variant@ =~= w) by {
                        assert(out.variant@ == t.subrange(
                            35 + n.len() as int + v.len() as int,
                            35 + n.len() as int + v.len() as int + w.len() as int,
                        ));
                    }
                }
            }
            Ok(out)
        } else {
            proof {
                assert forall|n: Seq<char>, v: Seq<char>, w: Seq<char>|
                    !(t == boot_json_text(n, v, w) && json_plain(n) && json_plain(v)
                        && json_plain(w)) by {
                    if t == boot_json_text(n, v, w) && json_plain(n) && json_plain(v)
                        && json_plain(w) {
                        lemma_canonical_facts(t, n, v, w);
                        assert(json_plain("version"@));
                        assert(member_shape(t, 11 + n.len() as int, "version"@)) by {
                            assert(t[22 + n.len() as int + v.len() as int] == '"');
                        }
                        assert(n2 == 23 + n.len() as int + v.len() as int) by {
                            if n2 - 1 < 22 + n.len() as int + v.len() as int {
                                assert(t[n2 - 1] == '"');
                            } else if n2 - 1 > 22 + n.len() as int + v.len() as int {
                                assert(t[22 + n.len() as int + v.len() as int] == '"');
                            }
                        }
                        assert(json_plain("variant"@));
                        assert(member_shape(t, 24 + n.len() as int + v.len() as int,
                            "variant"@)) by {
                            assert(t[35 + n.len() as int + v.len() as int + w.len() as int]
                                == '"');
                        }
                        assert(n3 == 36 + n.len() as int + v.len() as int + w.len() as int) by {
                            if n3 - 1 < 35 + n.len() as int + v.len() as int + w.len() as int {
                                assert(t[n3 - 1] == '"');
                            } else if n3 - 1 > 35 + n.len() as int + v.len() as int + w.len()
                                as int {
                                assert(t[35 + n.len() as int + v.len() as int + w.len() as int]
                                    == '"');
                            }
                        }
                        assert(t.len() - 1 == n3 && t[n3 as int] == '}');
                    }
                }
            }
            Err(Error::Json)
        }
    }
}

/// Read the opening brace and the `name` member. On the canonical
/// rendering this pins the name and the position just past it.
fn parse_open_name(text: &str) -> (r: Option<(String, usize)>)
    ensures
        r matches Some(p) ==> p.1 <= text@.len(),
        forall|n: Seq<char>, v: Seq<char>, w: Seq<char>|
            text@ == boot_json_text(n, v, w) && json_plain(n) && json_plain(v) && json_plain(w)
                ==> (r matches Some(p) && p.0@ == n && p.1 == 10 + n.len()),
{
    let ghost t = text@;
    proof {
        reveal_strlit("name");
    }
    let len = text.unicode_len();
    let i0 = skip_ws(text, 0);
    let brace_ok = i0 < len && text.get_char(i0) == '{';
    if !brace_ok {
        proof {
            assert forall|n: Seq<char>, v: Seq<char>, w: Seq<char>|
                !(t == boot_json_text(n, v, w) && json_plain(n) && json_plain(v) && json_plain(
                    w,
                )) by {
                if t == boot_json_text(n, v, w) && json_plain(n) && json_plain(v) && json_plain(
                    w,
                ) {
                    lemma_canonical_facts(t, n, v, w);
                    assert(i0 == 0);
                }
            }
        }
        return None;
    }
    let r = parse_member(text, i0 + 1, "name");
    proof {
        assert forall|n: Seq<char>, v: Seq<char>, w: Seq<char>|
            t == boot_json_text(n, v, w) && json_plain(n) && json_plain(v) && json_plain(w)
                implies (r matches Some(p) && p.0@ == n && p.1 == 10 + n.len()) by {
            lemma_canonical_facts(t, n, v, w);
            assert(i0 == 0);
            assert(json_plain("name"@));
            assert(member_shape(t, 1, "name"@)) by {
                assert(t[9 + n.len() as int] == '"');
            }
            match &r {
                Some(p) => {
                    assert(p.1 == 10 + n.len()) by {
                        if p.1 - 1 < 9 + n.len() as int {
                            assert(t[p.1 - 1] == '"');
                        } else if p.1 - 1 > 9 + n.len() as int {
                            assert(t[9 + n.len() as int] == '"');
                        }
                    }
                    assert(p.0@ =~= n) by {
                        assert(p.0@ == t.subrange(9, 9 + n.len() as int));
                    }
                }
                None => {},
            }
        }
    }
    r
}

/// Read a comma and then one member. When `i` stands on a comma that a
/// shaped member follows directly, the member's value is pinned.
fn parse_comma_member(text: &str, i: usize, key: &str) -> (r: Option<(String, usize)>)
    requires
        i <= text@.len(),
    ensures
        r matches Some(p) ==> p.1 <= text@.len(),
        (i < text@.len() && text@[i as int] == ',' && member_shape(text@, i as int + 1, key@))
            ==> (r matches Some(p) && member_pin(text@, i as int + 1, key@, p.0@, p.1 as int)),
{
    let ghost t = text@;
    let ghost cond = i < t.len() && t[i as int] == ',' && member_shape(t, i as int + 1, key@);
    let len = text.unicode_len();
    let c = skip_ws(text, i);
    if c == len {
        proof {
            if cond {
                assert(c == i);
            }
        }
        return None;
    }
    if text.get_char(c) != ',' {
        proof {
            if cond {
                assert(c == i);
            }
        }
        return None;
    }
    proof {
        if cond {
            assert(c == i);
        }
    }
    parse_member(text, c + 1, key)
}

/// Check the closing brace and that only whitespace follows. When `i`
/// stands on a final closing brace this returns true.
fn parse_close(text: &str, i: usize) -> (r: bool)
    requires
        i <= text@.len(),
    ensures
        (i == text@.len() - 1 && text@[i as int] == '}') ==> r,
{
    let ghost t = text@;
    let ghost cond = i + 1 == t.len() && i < t.len() && t[i as int] == '}';
    let len = text.unicode_len();
    let c = skip_ws(text, i);
    if c == len {
        proof {
            if cond {
                assert(c == i);
            }
        }
        return false;
    }
    if text.get_char(c) != '}' {
        proof {
            if cond {
                assert(c == i);
            }
        }
        return false;
    }
    let d = skip_ws(text, c + 1);
    d == len
}


/// Query the schema to use for pre boot-loader-specification
/// installations: Solus 4 and Clear Linux keep their legacy layouts,
/// everything else is managed by os-release alone.
pub fn query_schema(os_release: OsRelease) -> (r: Schema)
    ensures
        (os_release.id@ == "solus"@ && (os_release.version_id matches Some(v) && strutil::starts_with(
            v@,
            "4."@,
        ))) ==> (r matches Schema::Legacy { os_release: o, namespace } && o == os_release
            && namespace@ == "com.solus-project"@),
        os_release.id@ == "clear-linux-os"@ ==> (r matches Schema::Legacy {
            os_release: o,
            namespace,
        } && o == os_release && namespace@ == "org.clearlinux"@),
        (!(os_release.id@ == "solus"@ && (os_release.version_id matches Some(v)
            && strutil::starts_with(v@, "4."@))) && os_release.id@ != "clear-linux-os"@) ==> (
        r matches Schema::Blsforme { os_release: o } && o == os_release),
{
    proof {
        reveal_strlit("solus");
        reveal_strlit("clear-linux-os");
        assert("solus"@ != "clear-linux-os"@) by {
            assert("solus"@.len() == 5);
            assert("clear-linux-os"@.len() == 14);
        }
    }
    if strutil::str_eq(os_release.id.as_str(), "solus") {
        let legacy = match &os_release.version_id {
            Some(v) => strutil::str_starts_with(v.as_str(), "4."),
            None => false,
        };
        if legacy {
            Schema::Legacy { os_release, namespace: ("com.solus-project").to_owned() }
        } else {
            Schema::Blsforme { os_release }
        }
    } else if strutil::str_eq(os_release.id.as_str(), "clear-linux-os") {
        Schema::Legacy { os_release, namespace: ("org.clearlinux").to_owned() }
    } else {
        Schema::Blsforme { os_release }
    }
}

} // verus!
