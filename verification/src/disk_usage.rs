//! The mounted filesystems of `/proc/self/mounts` and the space figures of
//! `statvfs`.
use crate::text::{chars_of, lines, split_lines, split_words, str_eq, string_from_chars, words};
use vstd::prelude::*;

verus! {

/// Why the mount table could not be read.
#[derive(Clone, Debug, PartialEq, Eq)]
pub enum SelfMountsError {
    ReadError(String),
    ParseError(String),
}

/// Why the space figures of a filesystem could not be had.
#[derive(Clone, Debug, PartialEq, Eq)]
pub enum StatFsError {
    ReadError(String),
    ParseError(String),
}

/// One line of the mount table: what is mounted, where, and its type.
#[derive(Clone, Debug, PartialEq, Eq)]
pub struct MountEntry {
    pub source: String,
    pub target: String,
    pub fs_type: String,
}

impl DeepView for MountEntry {
    type V = (Seq<char>, Seq<char>, Seq<char>);

    open spec fn deep_view(&self) -> (Seq<char>, Seq<char>, Seq<char>) {
        (self.source@, self.target@, self.fs_type@)
    }
}

/// The entries of the mount-table lines `ls`: the first three words of
/// each, or, for the first line with fewer, the message that names the file
/// `path` and the line.
pub open spec fn spec_parse_mount_lines(path: Seq<char>, ls: Seq<Seq<char>>) -> Result<
    Seq<(Seq<char>, Seq<char>, Seq<char>)>,
    Seq<char>,
>
    decreases ls.len(),
{
    if ls.len() == 0 {
        Ok(seq![])
    } else {
        match spec_parse_mount_lines(path, ls.drop_last()) {
            Err(e) => Err(e),
            Ok(acc) => {
                let w = words(ls.last());
                if w.len() < 3 {
                    Err(path + ": Invalid line: "@ + ls.last())
                } else {
                    Ok(acc.push((w[0], w[1], w[2])))
                }
            },
        }
    }
}

/// The reader of the mount table.
pub struct ProcSelfMounts {
    mounts_path: String,
}

impl ProcSelfMounts {
    /// The path of the mount table.
    pub closed spec fn spec_path(&self) -> Seq<char> {
        self.mounts_path@
    }

    /// The reader of `/proc/self/mounts`.
    pub fn new() -> (r: Self)
        ensures
            r.spec_path() == "/proc/self/mounts"@,
    {
        ProcSelfMounts { mounts_path: String::from_str("/proc/self/mounts") }
    }

    /// The path of the mount table, for the application to read.
    pub fn mounts_path(&self) -> (p: &str)
        ensures
            p@ == self.spec_path(),
    {
        self.mounts_path.as_str()
    }

    /// The entries of the mount table `mounts_info`, one per line; see
    /// [`spec_parse_mount_lines`].
    pub fn parse_mounts(&self, mounts_info: &str) -> (r: Result<Vec<MountEntry>, SelfMountsError>)
        ensures
            match (r, spec_parse_mount_lines(self.spec_path(), lines(mounts_info@))) {
                (Ok(v), Ok(s)) => v.deep_view() == s,
                (Err(SelfMountsError::ParseError(m)), Err(s)) => m@ == s,
                _ => false,
            },
    {
        let chars = chars_of(mounts_info);
        let ls = split_lines(&chars);
        let ghost lv = ls@.map_values(|l: Vec<char>| l@);
        let ghost path = self.spec_path();
        let mut entries: Vec<MountEntry> = Vec::new();
        let mut i: usize = 0;
        assert(lv.take(0) =~= Seq::<Seq<char>>::empty());
        assert(entries.deep_view() =~= Seq::<(Seq<char>, Seq<char>, Seq<char>)>::empty());
        while i < ls.len()
            invariant
                0 <= i <= ls.len(),
                lv == ls@.map_values(|l: Vec<char>| l@),
                lv == lines(mounts_info@),
                path == self.spec_path(),
                entries.len() == i,
                spec_parse_mount_lines(path, lv.take(i as int)) == Ok::<
                    Seq<(Seq<char>, Seq<char>, Seq<char>)>,
                    Seq<char>,
                >(entries.deep_view()),
            decreases ls.len() - i,
        {
            assert(lv.take(i + 1).drop_last() == lv.take(i as int));
            assert(lv.take(i + 1).last() == ls@[i as int]@);
            let w = split_words(&ls[i]);
            let ghost wv = w@.map_values(|v: Vec<char>| v@);
            assert(wv.len() == w.len());
            if w.len() < 3 {
                let mut msg = String::from_str(self.mounts_path.as_str());
                msg.append(": Invalid line: ");
                let line = string_from_chars(&ls[i]);
                msg.append(line.as_str());
                proof {
                    lemma_mount_lines_error(path, lv, i + 1);
                }
                return Err(SelfMountsError::ParseError(msg));
            }
            assert(wv[0] == w@[0]@ && wv[1] == w@[1]@ && wv[2] == w@[2]@);
            let entry = MountEntry {
                source: string_from_chars(&w[0]),
                target: string_from_chars(&w[1]),
                fs_type: string_from_chars(&w[2]),
            };
            let ghost before = entries.deep_view();
            let ghost before_v = entries@;
            entries.push(entry);
            assert forall|k: int| 0 <= k < before.len() implies #[trigger] entries.deep_view()[k]
                == before[k] by {
                assert(entries@[k] == before_v[k]);
            }
            assert(entries.deep_view() =~= before.push((wv[0], wv[1], wv[2])));
            i += 1;
        }
        assert(lv.take(i as int) == lv);
        Ok(entries)
    }
}

/// Once a line is refused, the whole table is, with that line's message.
pub proof fn lemma_mount_lines_error(path: Seq<char>, ls: Seq<Seq<char>>, k: int)
    requires
        0 <= k <= ls.len(),
        spec_parse_mount_lines(path, ls.take(k)) is Err,
    ensures
        spec_parse_mount_lines(path, ls) == spec_parse_mount_lines(path, ls.take(k)),
    decreases ls.len(),
{
    if k < ls.len() {
        assert(ls.drop_last().take(k) == ls.take(k));
        lemma_mount_lines_error(path, ls.drop_last(), k);
    } else {
        assert(ls.take(k) == ls);
    }
}

/// The types of virtual filesystems, whose space is not checked.
pub open spec fn skip_fs_names() -> Seq<Seq<char>> {
    seq![
        "proc"@, "sysfs"@, "tmpfs"@, "devpts"@, "devtmpfs"@, "mqueue"@, "pstore"@,
        "securityfs"@, "configfs"@, "bpf"@, "tracefs"@, "debugfs"@, "hugetlbfs"@, "ramfs"@,
        "selinuxfs"@, "binfmt_misc"@, "fusectl"@, "autofs"@, "cgroup"@, "cgroup2"@, "overlay"@,
        "squashfs"@,
    ]
}

/// Whether `t` is one of the virtual filesystem types: proc, sysfs, tmpfs,
/// devpts, devtmpfs, mqueue, pstore, securityfs, configfs, bpf, tracefs,
/// debugfs, hugetlbfs, ramfs, selinuxfs, binfmt_misc, fusectl, autofs,
/// cgroup, cgroup2, overlay, squashfs.
pub open spec fn is_virtual_fs_type(t: Seq<char>) -> bool {
    ||| t == "proc"@
    ||| t == "sysfs"@
    ||| t == "tmpfs"@
    ||| t == "devpts"@
    ||| t == "devtmpfs"@
    ||| t == "mqueue"@
    ||| t == "pstore"@
    ||| t == "securityfs"@
    ||| t == "configfs"@
    ||| t == "bpf"@
    ||| t == "tracefs"@
    ||| t == "debugfs"@
    ||| t == "hugetlbfs"@
    ||| t == "ramfs"@
    ||| t == "selinuxfs"@
    ||| t == "binfmt_misc"@
    ||| t == "fusectl"@
    ||| t == "autofs"@
    ||| t == "cgroup"@
    ||| t == "cgroup2"@
    ||| t == "overlay"@
    ||| t == "squashfs"@
}

/// The skipped filesystem types are exactly the virtual ones: an entry is
/// dropped by [`ProcDiskUsage::filter_mount_entries`] exactly when its type
/// is one of them.
pub proof fn lemma_skipped_types_are_the_virtual_ones(t: Seq<char>)
    ensures
        skip_fs_names().contains(t) <==> is_virtual_fs_type(t),
{
    let s = skip_fs_names();
    if is_virtual_fs_type(t) {
        if t == "proc"@ { assert(s[0] == t); }
        if t == "sysfs"@ { assert(s[1] == t); }
        if t == "tmpfs"@ { assert(s[2] == t); }
        if t == "devpts"@ { assert(s[3] == t); }
        if t == "devtmpfs"@ { assert(s[4] == t); }
        if t == "mqueue"@ { assert(s[5] == t); }
        if t == "pstore"@ { assert(s[6] == t); }
        if t == "securityfs"@ { assert(s[7] == t); }
        if t == "configfs"@ { assert(s[8] == t); }
        if t == "bpf"@ { assert(s[9] == t); }
        if t == "tracefs"@ { assert(s[10] == t); }
        if t == "debugfs"@ { assert(s[11] == t); }
        if t == "hugetlbfs"@ { assert(s[12] == t); }
        if t == "ramfs"@ { assert(s[13] == t); }
        if t == "selinuxfs"@ { assert(s[14] == t); }
        if t == "binfmt_misc"@ { assert(s[15] == t); }
        if t == "fusectl"@ { assert(s[16] == t); }
        if t == "autofs"@ { assert(s[17] == t); }
        if t == "cgroup"@ { assert(s[18] == t); }
        if t == "cgroup2"@ { assert(s[19] == t); }
        if t == "overlay"@ { assert(s[20] == t); }
        if t == "squashfs"@ { assert(s[21] == t); }
    }
}

/// The entries of `es` whose space is checked, in order.
pub open spec fn checked_mounts(es: Seq<(Seq<char>, Seq<char>, Seq<char>)>) -> Seq<(Seq<char>, Seq<char>, Seq<char>)> {
    es.filter(|e: (Seq<char>, Seq<char>, Seq<char>)| is_checked_mount(e))
}

/// The result of filtering the mount entries holds no entry of a virtual
/// filesystem type, and keeps every entry of another type.
pub proof fn lemma_filter_drops_exactly_virtual(es: Seq<(Seq<char>, Seq<char>, Seq<char>)>)
    ensures
        forall|k: int| 0 <= k < checked_mounts(es).len() ==> !is_virtual_fs_type(
            #[trigger] checked_mounts(es)[k].2,
        ),
        forall|k: int|
            0 <= k < es.len() && !is_virtual_fs_type(#[trigger] es[k].2) ==> checked_mounts(es).contains(es[k]),
{
    let pred = |e: (Seq<char>, Seq<char>, Seq<char>)| is_checked_mount(e);
    assert forall|k: int| 0 <= k < checked_mounts(es).len() implies !is_virtual_fs_type(
        #[trigger] checked_mounts(es)[k].2,
    ) by {
        es.lemma_filter_pred(pred, k);
        lemma_skipped_types_are_the_virtual_ones(checked_mounts(es)[k].2);
    }
    assert forall|k: int| 0 <= k < es.len() && !is_virtual_fs_type(#[trigger] es[k].2) implies checked_mounts(
        es,
    ).contains(es[k]) by {
        lemma_skipped_types_are_the_virtual_ones(es[k].2);
        es.lemma_filter_contains(pred, k);
    }
}

/// Whether an entry is of a filesystem whose space is checked.
pub open spec fn is_checked_mount(e: (Seq<char>, Seq<char>, Seq<char>)) -> bool {
    !skip_fs_names().contains(e.2)
}

/// The space of the filesystems of the mount table, read by the application.
pub struct ProcDiskUsage;

impl ProcDiskUsage {
    /// The types of virtual filesystems, in the order of [`skip_fs_names`].
    fn skip_fs() -> (v: Vec<&'static str>)
        ensures
            v@.map_values(|s: &str| s@) == skip_fs_names(),
    {
        let v = vec![
            "proc", "sysfs", "tmpfs", "devpts", "devtmpfs", "mqueue", "pstore", "securityfs",
            "configfs", "bpf", "tracefs", "debugfs", "hugetlbfs", "ramfs", "selinuxfs",
            "binfmt_misc", "fusectl", "autofs", "cgroup", "cgroup2", "overlay", "squashfs",
        ];
        assert(v@.map_values(|s: &str| s@) =~= skip_fs_names());
        v
    }

    /// Whether `fs_type` is the type of a virtual filesystem.
    pub fn is_skipped_fs(fs_type: &str) -> (b: bool)
        ensures
            b == skip_fs_names().contains(fs_type@),
            b == is_virtual_fs_type(fs_type@),
    {
        proof {
            lemma_skipped_types_are_the_virtual_ones(fs_type@);
        }
        let names = Self::skip_fs();
        let ghost nv = names@.map_values(|s: &str| s@);
        let mut i: usize = 0;
        while i < names.len()
            invariant
                0 <= i <= names.len(),
                nv == names@.map_values(|s: &str| s@),
                nv == skip_fs_names(),
                skip_fs_names().contains(fs_type@) == is_virtual_fs_type(fs_type@),
                forall|j: int| 0 <= j < i ==> nv[j] != fs_type@,
            decreases names.len() - i,
        {
            assert(nv[i as int] == names@[i as int]@);
            if str_eq(names[i], fs_type) {
                return true;
            }
            i += 1;
        }
        false
    }

    /// The entries of filesystems whose space is checked, in order.
    pub fn filter_mount_entries(mount_entries: Vec<MountEntry>) -> (r: Vec<MountEntry>)
        ensures
            r.deep_view() == mount_entries.deep_view().filter(|e: (Seq<char>, Seq<char>, Seq<char>)| is_checked_mount(e)),
            forall|k: int| 0 <= k < r.deep_view().len() ==> !is_virtual_fs_type(#[trigger] r.deep_view()[k].2),
            forall|k: int|
                0 <= k < mount_entries.deep_view().len() && !is_virtual_fs_type(
                    #[trigger] mount_entries.deep_view()[k].2,
                ) ==> r.deep_view().contains(mount_entries.deep_view()[k]),
    {
        proof {
            lemma_filter_drops_exactly_virtual(mount_entries.deep_view());
        }
        let ghost ev = mount_entries.deep_view();
        let mut kept: Vec<MountEntry> = Vec::new();
        let mut i: usize = 0;
        assert(ev.take(0) =~= Seq::<(Seq<char>, Seq<char>, Seq<char>)>::empty());
        assert(kept.deep_view() =~= Seq::<(Seq<char>, Seq<char>, Seq<char>)>::empty());
        proof {
            reveal(Seq::filter);
        }
        while i < mount_entries.len()
            invariant
                0 <= i <= mount_entries.len(),
                ev == mount_entries.deep_view(),
                kept.deep_view() == ev.take(i as int).filter(|e: (Seq<char>, Seq<char>, Seq<char>)| is_checked_mount(e)),
            decreases mount_entries.len() - i,
        {
            proof {
                reveal(Seq::filter);
            }
            assert(ev.take(i + 1).drop_last() == ev.take(i as int));
            assert(ev.take(i + 1).last() == ev[i as int]);
            if !Self::is_skipped_fs(mount_entries[i].fs_type.as_str()) {
                let ghost before = kept.deep_view();
                let ghost before_v = kept@;
                let e = MountEntry {
                    source: mount_entries[i].source.clone(),
                    target: mount_entries[i].target.clone(),
                    fs_type: mount_entries[i].fs_type.clone(),
                };
                kept.push(e);
                assert forall|k: int| 0 <= k < before.len() implies #[trigger] kept.deep_view()[k]
                    == before[k] by {
                    assert(kept@[k] == before_v[k]);
                }
                assert(kept.deep_view() =~= before.push(ev[i as int]));
            }
            i += 1;
        }
        assert(ev.take(i as int) == ev);
        assert(kept.deep_view() == checked_mounts(ev));
        kept
    }

    /// The entries of the mount table `mounts_info` read through `mounts`,
    /// without those of virtual filesystems.
    pub fn get_mount_entries(mounts: &ProcSelfMounts, mounts_info: &str) -> (r: Result<
        Vec<MountEntry>,
        SelfMountsError,
    >)
        ensures
            match (r, spec_parse_mount_lines(mounts.spec_path(), lines(mounts_info@))) {
                (Ok(v), Ok(s)) => v.deep_view() == s.filter(|e: (Seq<char>, Seq<char>, Seq<char>)| is_checked_mount(e)),
                (Err(SelfMountsError::ParseError(m)), Err(s)) => m@ == s,
                _ => false,
            },
    {
        match mounts.parse_mounts(mounts_info) {
            Err(e) => Err(e),
            Ok(entries) => Ok(Self::filter_mount_entries(entries)),
        }
    }
}

/// Keeping the checked entries of a list that holds only checked entries
/// changes nothing: filtering the mount entries twice is filtering them once.
pub proof fn lemma_filter_mounts_idempotent(es: Seq<(Seq<char>, Seq<char>, Seq<char>)>)
    ensures
        es.filter(|e: (Seq<char>, Seq<char>, Seq<char>)| is_checked_mount(e)).filter(
            |e: (Seq<char>, Seq<char>, Seq<char>)| is_checked_mount(e),
        ) == es.filter(|e: (Seq<char>, Seq<char>, Seq<char>)| is_checked_mount(e)),
{
    lemma_filter_idempotent(es, |e: (Seq<char>, Seq<char>, Seq<char>)| is_checked_mount(e));
}

/// Filtering twice by one predicate is filtering once.
pub proof fn lemma_filter_idempotent<A>(s: Seq<A>, pred: spec_fn(A) -> bool)
    ensures
        s.filter(pred).filter(pred) == s.filter(pred),
    decreases s.len(),
{
    reveal(Seq::filter);
    if s.len() > 0 {
        lemma_filter_idempotent(s.drop_last(), pred);
        let f = s.drop_last().filter(pred);
        if pred(s.last()) {
            assert(f.push(s.last()).drop_last() == f);
        }
    }
}

/// What `statvfs` reports of a filesystem, as plain numbers.
#[derive(Clone, Copy, Debug, PartialEq, Eq)]
pub struct StatvfsFields {
    pub f_bsize: u64,
    pub f_frsize: u64,
    pub f_blocks: u64,
    pub f_bfree: u64,
    pub f_bavail: u64,
}

/// The space of a filesystem in bytes.
#[derive(Clone, Copy, Debug, PartialEq, Eq)]
pub struct DiskUsageCounts {
    pub total: u64,
    pub free: u64,
    pub available: u64,
    pub used: u64,
}

/// `a * b`, or `u64::MAX` when the product does not fit.
pub open spec fn sat_mul(a: u64, b: u64) -> u64 {
    if a * b > u64::MAX {
        u64::MAX
    } else {
        (a * b) as u64
    }
}

/// A byte count is the exact product of blocks and block size whenever that
/// product fits in a `u64`; only a product that does not fit is clamped, to
/// `u64::MAX`.
pub proof fn lemma_sat_mul(a: u64, b: u64)
    ensures
        a * b <= u64::MAX ==> sat_mul(a, b) == a * b,
        a * b > u64::MAX ==> sat_mul(a, b) == u64::MAX,
        sat_mul(a, b) <= a * b,
{
}

/// `a - b`, or `0` when `b` is larger.
pub open spec fn sat_sub(a: u64, b: u64) -> u64 {
    if a < b {
        0
    } else {
        (a - b) as u64
    }
}

/// The block size of a filesystem: the fragment size, or the block size
/// when the fragment size is zero.
pub open spec fn block_size(f: StatvfsFields) -> u64 {
    if f.f_frsize != 0 {
        f.f_frsize
    } else {
        f.f_bsize
    }
}

/// `a * b`, or `u64::MAX` when the product does not fit.
fn saturating_mul(a: u64, b: u64) -> (r: u64)
    ensures
        r == sat_mul(a, b),
{
    match a.checked_mul(b) {
        Some(v) => v,
        None => u64::MAX,
    }
}

/// The computation of the space figures of a filesystem.
pub struct StatfsData;

impl StatfsData {
    /// The space of a filesystem in bytes: each block count times the block
    /// size (saturating), and the used space as the total less the free space
    /// (saturating at zero).
    pub fn calc_disk_usage_for(statvfs_buffer: &StatvfsFields) -> (r: DiskUsageCounts)
        ensures
            r.total == sat_mul(statvfs_buffer.f_blocks, block_size(*statvfs_buffer)),
            r.free == sat_mul(statvfs_buffer.f_bfree, block_size(*statvfs_buffer)),
            r.available == sat_mul(statvfs_buffer.f_bavail, block_size(*statvfs_buffer)),
            r.used == sat_sub(r.total, r.free),
            r.used <= r.total,
            statvfs_buffer.f_blocks * block_size(*statvfs_buffer) <= u64::MAX ==> r.total
                == statvfs_buffer.f_blocks * block_size(*statvfs_buffer),
            statvfs_buffer.f_bfree * block_size(*statvfs_buffer) <= u64::MAX ==> r.free
                == statvfs_buffer.f_bfree * block_size(*statvfs_buffer),
            statvfs_buffer.f_bavail * block_size(*statvfs_buffer) <= u64::MAX ==> r.available
                == statvfs_buffer.f_bavail * block_size(*statvfs_buffer),
            r.free <= r.total ==> r.used == r.total - r.free,
    {
        proof {
            lemma_sat_mul(statvfs_buffer.f_blocks, block_size(*statvfs_buffer));
            lemma_sat_mul(statvfs_buffer.f_bfree, block_size(*statvfs_buffer));
            lemma_sat_mul(statvfs_buffer.f_bavail, block_size(*statvfs_buffer));
        }
        let bs = if statvfs_buffer.f_frsize != 0 {
            statvfs_buffer.f_frsize
        } else {
            statvfs_buffer.f_bsize
        };
        let total = saturating_mul(statvfs_buffer.f_blocks, bs);
        let free = saturating_mul(statvfs_buffer.f_bfree, bs);
        let used = total.saturating_sub(free);
        let available = saturating_mul(statvfs_buffer.f_bavail, bs);
        DiskUsageCounts { total, free, available, used }
    }
}

} // verus!
