//! Storage panel: physical-device names, SSD/HDD/NVMe categories with
//! partitions of one device counted once, and the size readings.

use vstd::prelude::*;
use vstd::hash_map::StringHashMap;
use crate::style::{Reading, Tint, is_exact, is_scaled, scaled};
use crate::text::{
    byte_len, byte_length, chars_from, chars_of, chars_upto, decimal, decimal_string, first_chars,
    has_infix, has_prefix, has_suffix, is_ascii_digit, leading_digits, lemma_prefix_is_infix, lowercase,
    prefix_digits, prefix_until, push_str, str_contains, str_starts_with, string_of, take_until,
    to_lowercase,
};

verus! {

/// The kind of medium the operating system reports for a disk.
#[derive(Clone, Copy, Debug, PartialEq, Eq, Structural)]
pub enum DiskKind {
    Hdd,
    Ssd,
    Unknown,
}

/// One mounted disk as the operating system lists it.
pub struct DiskRecord {
    pub name: String,
    pub kind: DiskKind,
    pub total_space: u64,
    pub available_space: u64,
}

/// The three categories the panel sums disks into.
#[derive(Clone, Copy, Debug, PartialEq, Eq, Structural)]
pub enum StorageKind {
    Ssd,
    Hdd,
    Nvme,
}

/// The used and total bytes of one category.
#[derive(Clone, Copy, Debug, PartialEq, Eq, Structural)]
pub struct StorageCategory {
    pub kind: StorageKind,
    pub used: u64,
    pub total: u64,
}

/// The physical device a disk (partition) name belongs to, given the name
/// and its lowercase form.
pub open spec fn physical_from(name: Seq<char>, lower: Seq<char>) -> Seq<char> {
    if has_prefix(lower, "nvme"@) {
        take_until(lower, 'p')
    } else if has_prefix(lower, "disk"@) {
        "disk"@ + leading_digits(lower.skip("disk"@.len() as int))
    } else if has_prefix(lower, "rdisk"@) {
        "disk"@ + leading_digits(lower.skip("rdisk"@.len() as int))
    } else if (has_prefix(lower, "sd"@) || has_prefix(lower, "hd"@) || has_prefix(lower, "vd"@))
        && byte_len(lower) >= 3 {
        first_chars(lower, 3)
    } else if byte_len(lower) == 2 && has_suffix(lower, ":"@) {
        lower
    } else {
        name
    }
}

/// The physical device of the disk named `name`.
pub open spec fn physical_name(name: Seq<char>) -> Seq<char> {
    physical_from(name, lowercase(name))
}

/// True when either name, lowercased, mentions `nvme`.
pub open spec fn nvme_named(disk_name: Seq<char>, physical: Seq<char>) -> bool {
    has_infix(lowercase(disk_name), "nvme"@) || has_infix(lowercase(physical), "nvme"@)
}

/// The category a disk is summed into.
pub open spec fn category_of(d: DiskRecord) -> StorageKind {
    if nvme_named(d.name@, physical_name(d.name@)) {
        StorageKind::Nvme
    } else {
        match d.kind {
            DiskKind::Hdd => StorageKind::Hdd,
            _ => StorageKind::Ssd,
        }
    }
}

/// Bytes in use on a disk: total minus available, or 0 when more is
/// available than the total.
pub open spec fn used_space(d: DiskRecord) -> nat {
    if d.available_space < d.total_space {
        (d.total_space - d.available_space) as nat
    } else {
        0
    }
}

/// True when disk `i` is counted: it has a name, and no earlier named disk
/// belongs to the same physical device.
pub open spec fn is_counted(disks: Seq<DiskRecord>, i: int) -> bool {
    &&& disks[i].name@.len() > 0
    &&& forall|j: int|
        0 <= j < i && disks[j].name@.len() > 0 ==> physical_name(#[trigger] disks[j].name@)
            != physical_name(disks[i].name@)
}

/// Sum of the totals of the counted disks of kind `k` among the first `n`.
pub open spec fn kind_total(disks: Seq<DiskRecord>, n: int, k: StorageKind) -> nat
    decreases n,
{
    if n <= 0 {
        0
    } else {
        kind_total(disks, n - 1, k) + if is_counted(disks, n - 1) && category_of(disks[n - 1])
            == k {
            disks[n - 1].total_space as nat
        } else {
            0
        }
    }
}

/// Sum of the used bytes of the counted disks of kind `k` among the first `n`.
pub open spec fn kind_used(disks: Seq<DiskRecord>, n: int, k: StorageKind) -> nat
    decreases n,
{
    if n <= 0 {
        0
    } else {
        kind_used(disks, n - 1, k) + if is_counted(disks, n - 1) && category_of(disks[n - 1])
            == k {
            used_space(disks[n - 1])
        } else {
            0
        }
    }
}

/// The category entry of kind `k` for all of `disks`.
pub open spec fn category_entry(disks: Seq<DiskRecord>, k: StorageKind) -> StorageCategory {
    StorageCategory {
        kind: k,
        used: kind_used(disks, disks.len() as int, k) as u64,
        total: kind_total(disks, disks.len() as int, k) as u64,
    }
}

/// The entry of kind `k` when its total is positive, else nothing.
pub open spec fn entry_if_present(disks: Seq<DiskRecord>, k: StorageKind) -> Seq<StorageCategory> {
    if kind_total(disks, disks.len() as int, k) > 0 {
        seq![category_entry(disks, k)]
    } else {
        Seq::empty()
    }
}

/// The categories shown: SSD, HDD, NVMe in that order, those with a positive total.
pub open spec fn categories(disks: Seq<DiskRecord>) -> Seq<StorageCategory> {
    entry_if_present(disks, StorageKind::Ssd) + entry_if_present(disks, StorageKind::Hdd)
        + entry_if_present(disks, StorageKind::Nvme)
}

/// True when every category sum fits in a `u64`.
pub open spec fn sums_fit(disks: Seq<DiskRecord>) -> bool {
    &&& kind_total(disks, disks.len() as int, StorageKind::Ssd) <= u64::MAX
    &&& kind_total(disks, disks.len() as int, StorageKind::Hdd) <= u64::MAX
    &&& kind_total(disks, disks.len() as int, StorageKind::Nvme) <= u64::MAX
}

/// Each disk adds at most `u64::MAX` to a sum.
proof fn lemma_kind_total_bound(disks: Seq<DiskRecord>, n: int, k: StorageKind)
    requires
        n >= 0,
    ensures
        kind_total(disks, n, k) <= n * 0xFFFF_FFFF_FFFF_FFFFu64,
        kind_used(disks, n, k) <= kind_total(disks, n, k),
    decreases n,
{
    lemma_used_le_total(disks, n, k);
    if n > 0 {
        lemma_kind_total_bound(disks, n - 1, k);
        assert((n - 1) * 0xFFFF_FFFF_FFFF_FFFFu64 + 0xFFFF_FFFF_FFFF_FFFFu64 == n
            * 0xFFFF_FFFF_FFFF_FFFFu64) by (nonlinear_arith);
    }
}

/// Used bytes never exceed the total.
proof fn lemma_used_le_total(disks: Seq<DiskRecord>, n: int, k: StorageKind)
    ensures
        kind_used(disks, n, k) <= kind_total(disks, n, k),
    decreases n,
{
    if n > 0 {
        lemma_used_le_total(disks, n - 1, k);
    }
}

/// A disk on the device of an earlier named disk is not counted.
proof fn lemma_not_counted_if_seen(disks: Seq<DiskRecord>, i: int, j: int)
    requires
        0 <= j < i < disks.len(),
        disks[j].name@.len() > 0,
        physical_name(disks[j].name@) == physical_name(disks[i].name@),
    ensures
        !is_counted(disks, i),
{
}

/// True when disk `j` has a name and lies on physical device `p`.
pub open spec fn names_device(ds: Seq<DiskRecord>, j: int, p: Seq<char>) -> bool {
    ds[j].name@.len() > 0 && physical_name(ds[j].name@) == p
}

/// True when one of the first `i` disks has a name and lies on device `p`.
pub open spec fn named_before(ds: Seq<DiskRecord>, i: int, p: Seq<char>) -> bool {
    exists|j: int| 0 <= j < i && #[trigger] names_device(ds, j, p)
}

/// True when the names in `seen` are exactly the physical devices of the
/// named disks among the first `i`.
#[verifier::opaque]
pub open spec fn seen_covers(seen: Set<Seq<char>>, ds: Seq<DiskRecord>, i: int) -> bool {
    &&& forall|p: Seq<char>| #[trigger] seen.contains(p) ==> named_before(ds, i, p)
    &&& forall|j: int|
        0 <= j < i && ds[j].name@.len() > 0 ==> seen.contains(physical_name(#[trigger] ds[j].name@))
}

/// A disk that is not counted leaves the seen names complete.
proof fn lemma_seen_skip(seen: Set<Seq<char>>, ds: Seq<DiskRecord>, i: int)
    requires
        0 <= i < ds.len(),
        seen_covers(seen, ds, i),
        ds[i].name@.len() == 0 || seen.contains(physical_name(ds[i].name@)),
    ensures
        seen_covers(seen, ds, i + 1),
        !is_counted(ds, i),
{
    reveal(seen_covers);
    assert forall|p: Seq<char>| #[trigger] seen.contains(p) implies named_before(ds, i + 1, p) by {
        assert(named_before(ds, i, p));
        let j = choose|j: int| 0 <= j < i && #[trigger] names_device(ds, j, p);
    }
    if ds[i].name@.len() > 0 {
        let p = physical_name(ds[i].name@);
        assert(named_before(ds, i, p));
        let j = choose|j: int| 0 <= j < i && #[trigger] names_device(ds, j, p);
        lemma_not_counted_if_seen(ds, i, j);
    }
}

/// For a named disk, being counted is not having its device among the seen names.
proof fn lemma_seen_decides(seen: Set<Seq<char>>, ds: Seq<DiskRecord>, i: int)
    requires
        0 <= i < ds.len(),
        seen_covers(seen, ds, i),
        ds[i].name@.len() > 0,
    ensures
        is_counted(ds, i) <==> !seen.contains(physical_name(ds[i].name@)),
{
    reveal(seen_covers);
    let p = physical_name(ds[i].name@);
    if seen.contains(p) {
        assert(named_before(ds, i, p));
        let j = choose|j: int| 0 <= j < i && #[trigger] names_device(ds, j, p);
        lemma_not_counted_if_seen(ds, i, j);
    } else {
        assert forall|j: int|
            0 <= j < i && ds[j].name@.len() > 0 implies physical_name(#[trigger] ds[j].name@)
            != physical_name(ds[i].name@) by {
            assert(seen.contains(physical_name(ds[j].name@)));
        }
    }
}

/// Adding the device of a newly counted disk keeps the seen names complete.
proof fn lemma_seen_add(seen: Set<Seq<char>>, p: Seq<char>, ds: Seq<DiskRecord>, i: int)
    requires
        0 <= i < ds.len(),
        seen_covers(seen, ds, i),
        ds[i].name@.len() > 0,
        p == physical_name(ds[i].name@),
    ensures
        seen_covers(seen.insert(p), ds, i + 1),
{
    reveal(seen_covers);
    let s2 = seen.insert(p);
    assert forall|q: Seq<char>| #[trigger] s2.contains(q) implies named_before(ds, i + 1, q) by {
        if seen.contains(q) {
            assert(named_before(ds, i, q));
            let j = choose|j: int| 0 <= j < i && #[trigger] names_device(ds, j, q);
        } else {
            assert(names_device(ds, i, q));
        }
    }
    assert forall|j: int| 0 <= j < i + 1 && ds[j].name@.len() > 0 implies s2.contains(
        physical_name(#[trigger] ds[j].name@),
    ) by {
        if j < i {
            assert(seen.contains(physical_name(ds[j].name@)));
        }
    }
}

/// `disk` followed by the ASCII digits that start `lower` at offset `skip`.
fn disk_name_after(lower: &Vec<char>, skip: usize) -> (r: String)
    requires
        skip <= lower@.len(),
    ensures
        r@ == "disk"@ + leading_digits(lower@.skip(skip as int)),
{
    let rest = chars_from(lower, skip);
    let digits = prefix_digits(&rest);
    let mut v: Vec<char> = Vec::new();
    push_str(&mut v, "disk");
    let mut i: usize = 0;
    while i < digits.len()
        invariant
            i <= digits.len(),
            v@ == "disk"@ + digits@.take(i as int),
        decreases digits.len() - i,
    {
        v.push(digits[i]);
        i = i + 1;
        assert(v@ =~= "disk"@ + digits@.take(i as int));
    }
    assert(digits@.take(digits.len() as int) =~= digits@);
    string_of(&v)
}

impl StorageKind {
    /// The category's label: `SSD`, `HDD` or `NVME`.
    pub fn label(&self) -> (s: &'static str)
        ensures
            s@ == match *self {
                StorageKind::Ssd => "SSD"@,
                StorageKind::Hdd => "HDD"@,
                StorageKind::Nvme => "NVME"@,
            },
    {
        match self {
            StorageKind::Ssd => "SSD",
            StorageKind::Hdd => "HDD",
            StorageKind::Nvme => "NVME",
        }
    }

    /// The category's gauge colour: blue, yellow or magenta.
    pub fn tint(&self) -> (t: Tint)
        ensures
            t == match *self {
                StorageKind::Ssd => Tint::Blue,
                StorageKind::Hdd => Tint::Yellow,
                StorageKind::Nvme => Tint::Magenta,
            },
    {
        match self {
            StorageKind::Ssd => Tint::Blue,
            StorageKind::Hdd => Tint::Yellow,
            StorageKind::Nvme => Tint::Magenta,
        }
    }
}

/// The storage panel's data: the disks listed by the operating system.
pub struct StorageWidget {
    disks: Vec<DiskRecord>,
}

impl View for StorageWidget {
    type V = Seq<DiskRecord>;

    closed spec fn view(&self) -> Seq<DiskRecord> {
        self.disks@
    }
}

impl StorageWidget {
    /// A panel over the given disks.
    pub fn new(disks: Vec<DiskRecord>) -> (w: Self)
        ensures
            w@ == disks@,
    {
        StorageWidget { disks }
    }

    /// The disks the panel shows.
    pub fn disks(&self) -> (d: &Vec<DiskRecord>)
        ensures
            d@ == self@,
    {
        &self.disks
    }

    /// The physical device a disk name belongs to: `nvme0n1p1` gives
    /// `nvme0n1`, `disk0s1` and `rdisk0` give `disk0`, `sda1` gives `sda`,
    /// a drive letter such as `C:` is kept (lowercased), and any other name
    /// is returned unchanged.
    pub fn get_physical_device_name(name: &str) -> (r: String)
        ensures
            r@ == physical_name(name@),
    {
        let lower = to_lowercase(name);
        Self::physical_name_from(name, lower)
    }

    /// The physical device of the disk named `name`, given the name's
    /// lowercase form `lower_s`.
    pub fn physical_name_from(name: &str, lower_s: String) -> (r: String)
        ensures
            r@ == physical_from(name@, lower_s@),
    {
        let lower = chars_of(lower_s.as_str());
        if str_starts_with(&lower, "nvme") {
            let head = prefix_until(&lower, 'p');
            return string_of(&head);
        }
        if str_starts_with(&lower, "disk") {
            let pre = chars_of("disk");
            return disk_name_after(&lower, pre.len());
        }
        if str_starts_with(&lower, "rdisk") {
            let pre = chars_of("rdisk");
            return disk_name_after(&lower, pre.len());
        }
        let blen = byte_length(lower_s.as_str());
        if (str_starts_with(&lower, "sd") || str_starts_with(&lower, "hd") || str_starts_with(
            &lower,
            "vd",
        )) && blen >= 3 {
            let head = chars_upto(&lower, 3);
            return string_of(&head);
        }
        if blen == 2 && crate::text::ends_with(&lower, &chars_of(":")) {
            return lower_s;
        }
        name.to_owned()
    }

    /// Whether a disk is an NVMe device: its name or its physical-device
    /// name, lowercased, mentions `nvme`.
    pub fn is_nvme(disk_name: &str, physical_name: &str) -> (b: bool)
        ensures
            b == nvme_named(disk_name@, physical_name@),
    {
        let d_s = to_lowercase(disk_name);
        let p_s = to_lowercase(physical_name);
        Self::mentions_nvme(d_s.as_str(), p_s.as_str())
    }

    /// Whether either lowercased name mentions `nvme`.
    pub fn mentions_nvme(lower_disk: &str, lower_physical: &str) -> (b: bool)
        ensures
            b == (has_infix(lower_disk@, "nvme"@) || has_infix(lower_physical@, "nvme"@)),
    {
        let d = chars_of(lower_disk);
        let p = chars_of(lower_physical);
        let ds = str_starts_with(&d, "nvme");
        let dc = str_contains(&d, "nvme");
        let ps = str_starts_with(&p, "nvme");
        let pc = str_contains(&p, "nvme");
        proof {
            if ds {
                lemma_prefix_is_infix(d@, "nvme"@);
            }
            if ps {
                lemma_prefix_is_infix(p@, "nvme"@);
            }
        }
        ds || dc || ps || pc
    }

    /// The six category sums (used and total of SSD, HDD, NVMe) over all
    /// disks, without overflow.
    fn tally(disks: &Vec<DiskRecord>) -> (t: (u128, u128, u128, u128, u128, u128))
        ensures
            t.0 == kind_used(disks@, disks@.len() as int, StorageKind::Ssd),
            t.1 == kind_total(disks@, disks@.len() as int, StorageKind::Ssd),
            t.2 == kind_used(disks@, disks@.len() as int, StorageKind::Hdd),
            t.3 == kind_total(disks@, disks@.len() as int, StorageKind::Hdd),
            t.4 == kind_used(disks@, disks@.len() as int, StorageKind::Nvme),
            t.5 == kind_total(disks@, disks@.len() as int, StorageKind::Nvme),
    {
        let ghost ds = disks@;
        let mut seen: StringHashMap<bool> = StringHashMap::new();
        let mut ssd_used: u128 = 0;
        let mut ssd_total: u128 = 0;
        let mut hdd_used: u128 = 0;
        let mut hdd_total: u128 = 0;
        let mut nvme_used: u128 = 0;
        let mut nvme_total: u128 = 0;
        let mut i: usize = 0;
        proof {
            reveal(seen_covers);
        }
        while i < disks.len()
            invariant
                ds == disks@,
                i <= ds.len(),
                ssd_total == kind_total(ds, i as int, StorageKind::Ssd),
                ssd_used == kind_used(ds, i as int, StorageKind::Ssd),
                hdd_total == kind_total(ds, i as int, StorageKind::Hdd),
                hdd_used == kind_used(ds, i as int, StorageKind::Hdd),
                nvme_total == kind_total(ds, i as int, StorageKind::Nvme),
                nvme_used == kind_used(ds, i as int, StorageKind::Nvme),
                seen_covers(seen@.dom(), ds, i as int),
            decreases ds.len() - i,
        {
            let disk = &disks[i];
            let ghost di = ds[i as int];
            proof {
                lemma_kind_total_bound(ds, i + 1, StorageKind::Ssd);
                lemma_kind_total_bound(ds, i + 1, StorageKind::Hdd);
                lemma_kind_total_bound(ds, i + 1, StorageKind::Nvme);
                assert((i + 1) * 0xFFFF_FFFF_FFFF_FFFFu64 <= 0xFFFF_FFFF_FFFF_FFFFu64
                    * 0xFFFF_FFFF_FFFF_FFFFu64) by (nonlinear_arith)
                    requires
                        i + 1 <= 0xFFFF_FFFF_FFFF_FFFFu64,
                ;
                lemma_used_le_total(ds, i + 1, StorageKind::Ssd);
                lemma_used_le_total(ds, i + 1, StorageKind::Hdd);
                lemma_used_le_total(ds, i + 1, StorageKind::Nvme);
            }
            if disk.name.as_str().is_empty() {
                proof {
                    lemma_seen_skip(seen@.dom(), ds, i as int);
                }
                i = i + 1;
                continue;
            }
            let physical = Self::get_physical_device_name(disk.name.as_str());
            let found = seen.contains_key(physical.as_str());
            proof {
                lemma_seen_decides(seen@.dom(), ds, i as int);
            }
            if found {
                proof {
                    lemma_seen_skip(seen@.dom(), ds, i as int);
                }
                i = i + 1;
                continue;
            }
            let nvme = Self::is_nvme(disk.name.as_str(), physical.as_str());
            proof {
                lemma_seen_add(seen@.dom(), physical@, ds, i as int);
            }
            seen.insert(physical, true);
            let total = disk.total_space;
            let used = total.saturating_sub(disk.available_space);
            let total = total as u128;
            let used = used as u128;
            assert(category_of(di) == if nvme {
                StorageKind::Nvme
            } else {
                match di.kind {
                    DiskKind::Hdd => StorageKind::Hdd,
                    _ => StorageKind::Ssd,
                }
            });
            if nvme {
                nvme_used = nvme_used + used;
                nvme_total = nvme_total + total;
            } else {
                match disk.kind {
                    DiskKind::Ssd => {
                        ssd_used = ssd_used + used;
                        ssd_total = ssd_total + total;
                    },
                    DiskKind::Hdd => {
                        hdd_used = hdd_used + used;
                        hdd_total = hdd_total + total;
                    },
                    DiskKind::Unknown => {
                        ssd_used = ssd_used + used;
                        ssd_total = ssd_total + total;
                    },
                }
            }
            i = i + 1;
        }
        (ssd_used, ssd_total, hdd_used, hdd_total, nvme_used, nvme_total)
    }

    /// The categories for the given sums, those with a positive total.
    fn categories_from(disks: &Vec<DiskRecord>, t: (u128, u128, u128, u128, u128, u128)) -> (cats: Vec<StorageCategory>)
        requires
            sums_fit(disks@),
            t.0 == kind_used(disks@, disks@.len() as int, StorageKind::Ssd),
            t.1 == kind_total(disks@, disks@.len() as int, StorageKind::Ssd),
            t.2 == kind_used(disks@, disks@.len() as int, StorageKind::Hdd),
            t.3 == kind_total(disks@, disks@.len() as int, StorageKind::Hdd),
            t.4 == kind_used(disks@, disks@.len() as int, StorageKind::Nvme),
            t.5 == kind_total(disks@, disks@.len() as int, StorageKind::Nvme),
        ensures
            cats@ == categories(disks@),
            forall|i: int| 0 <= i < cats@.len() ==> 0 < #[trigger] cats@[i].total && cats@[i].used
                <= cats@[i].total,
    {
        let ghost ds = disks@;
        proof {
            lemma_used_le_total(ds, ds.len() as int, StorageKind::Ssd);
            lemma_used_le_total(ds, ds.len() as int, StorageKind::Hdd);
            lemma_used_le_total(ds, ds.len() as int, StorageKind::Nvme);
        }
        let mut cats: Vec<StorageCategory> = Vec::new();
        if t.1 > 0 {
            cats.push(StorageCategory { kind: StorageKind::Ssd, used: t.0 as u64, total: t.1 as u64 });
        }
        if t.3 > 0 {
            cats.push(StorageCategory { kind: StorageKind::Hdd, used: t.2 as u64, total: t.3 as u64 });
        }
        if t.5 > 0 {
            cats.push(StorageCategory { kind: StorageKind::Nvme, used: t.4 as u64, total: t.5 as u64 });
        }
        assert(cats@ =~= categories(ds));
        cats
    }

    /// Sums the disks into SSD, HDD and NVMe categories. A disk without a
    /// name is skipped, and of several disks on one physical device only the
    /// first named one is counted. A disk is NVMe when its names say so,
    /// else HDD when reported as a hard disk, else SSD. Categories with a
    /// zero total are left out. Each category sum must fit in a `u64`.
    pub fn categorize_disks(disks: &Vec<DiskRecord>) -> (cats: Vec<StorageCategory>)
        requires
            sums_fit(disks@),
        ensures
            cats@ == categories(disks@),
            forall|i: int| 0 <= i < cats@.len() ==> 0 < #[trigger] cats@[i].total && cats@[i].used
                <= cats@[i].total,
    {
        let t = Self::tally(disks);
        Self::categories_from(disks, t)
    }

    /// The categories, or `None` when a category sum does not fit in a `u64`.
    pub fn checked_categorize_disks(disks: &Vec<DiskRecord>) -> (cats: Option<Vec<StorageCategory>>)
        ensures
            cats is None <==> !sums_fit(disks@),
            cats matches Some(c) ==> c@ == categories(disks@),
    {
        let t = Self::tally(disks);
        if t.1 > 0xFFFF_FFFF_FFFF_FFFF || t.3 > 0xFFFF_FFFF_FFFF_FFFF || t.5 > 0xFFFF_FFFF_FFFF_FFFF {
            None
        } else {
            Some(Self::categorize_disks(disks))
        }
    }

    /// How a byte count is printed: at least 1 TiB as tebibytes with one
    /// decimal and `TB`, then `GB`, then `MB`, and below 1 MiB the exact
    /// count followed by `B`.
    pub fn format_bytes(bytes: u64) -> (r: Reading)
        ensures
            bytes >= 1_099_511_627_776 ==> is_scaled(r, 1_099_511_627_776, 1, "TB"@),
            1_073_741_824 <= bytes < 1_099_511_627_776 ==> is_scaled(r, 1_073_741_824, 1, "GB"@),
            1_048_576 <= bytes < 1_073_741_824 ==> is_scaled(r, 1_048_576, 1, "MB"@),
            bytes < 1_048_576 ==> is_exact(r, decimal(bytes as nat) + "B"@),
    {
        if bytes >= 1_099_511_627_776 {
            scaled(1_099_511_627_776, 1, "TB")
        } else if bytes >= 1_073_741_824 {
            scaled(1_073_741_824, 1, "GB")
        } else if bytes >= 1_048_576 {
            scaled(1_048_576, 1, "MB")
        } else {
            let mut v = chars_of(decimal_string(bytes).as_str());
            push_str(&mut v, "B");
            Reading::Exact(string_of(&v))
        }
    }
}

/// How many category rows the panel shows in `lines` rows: the first row
/// holds the total gauge, and the rows below it take one category each
/// while rows and categories last.
pub fn category_rows(lines: usize, categories: usize) -> (n: usize)
    ensures
        n == if lines <= 1 {
            0
        } else if categories < lines - 1 {
            categories
        } else {
            (lines - 1) as usize
        },
{
    let slots = lines.saturating_sub(1);
    if categories < slots {
        categories
    } else {
        slots
    }
}

/// Earlier disks are unaffected by appending one more.
proof fn lemma_prefix_sums_unchanged(disks: Seq<DiskRecord>, extra: DiskRecord, m: int, k: StorageKind)
    requires
        0 <= m <= disks.len(),
    ensures
        kind_total(disks.push(extra), m, k) == kind_total(disks, m, k),
        kind_used(disks.push(extra), m, k) == kind_used(disks, m, k),
    decreases m,
{
    let d2 = disks.push(extra);
    if m > 0 {
        lemma_prefix_sums_unchanged(disks, extra, m - 1, k);
        assert(d2[m - 1] == disks[m - 1]);
        assert(is_counted(d2, m - 1) == is_counted(disks, m - 1)) by {
            if is_counted(disks, m - 1) {
                assert forall|j: int|
                    0 <= j < m - 1 && d2[j].name@.len() > 0 implies physical_name(
                    #[trigger] d2[j].name@,
                ) != physical_name(d2[m - 1].name@) by {
                    assert(d2[j] == disks[j]);
                }
            }
            if is_counted(d2, m - 1) {
                assert forall|j: int|
                    0 <= j < m - 1 && disks[j].name@.len() > 0 implies physical_name(
                    #[trigger] disks[j].name@,
                ) != physical_name(disks[m - 1].name@) by {
                    assert(d2[j] == disks[j]);
                }
            }
        }
    }
}

/// Partitions of one device are counted once: appending a disk whose
/// physical device is already that of an earlier named disk, or a disk
/// without a name, leaves the categories unchanged, and leaves unchanged
/// whether every category sum fits in a `u64`.
pub proof fn law_partitions_counted_once(disks: Seq<DiskRecord>, extra: DiskRecord, j: int)
    requires
        extra.name@.len() == 0 || (0 <= j < disks.len() && disks[j].name@.len() > 0
            && physical_name(disks[j].name@) == physical_name(extra.name@)),
    ensures
        categories(disks.push(extra)) == categories(disks),
        sums_fit(disks.push(extra)) == sums_fit(disks),
{
    let d2 = disks.push(extra);
    let n = disks.len() as int;
    assert(d2[n] == extra);
    if extra.name@.len() > 0 {
        assert(d2[j] == disks[j]);
        lemma_not_counted_if_seen(d2, n, j);
    }
    assert(!is_counted(d2, n));
    lemma_prefix_sums_unchanged(disks, extra, n, StorageKind::Ssd);
    lemma_prefix_sums_unchanged(disks, extra, n, StorageKind::Hdd);
    lemma_prefix_sums_unchanged(disks, extra, n, StorageKind::Nvme);
    assert(entry_if_present(d2, StorageKind::Ssd) == entry_if_present(disks, StorageKind::Ssd));
    assert(entry_if_present(d2, StorageKind::Hdd) == entry_if_present(disks, StorageKind::Hdd));
    assert(entry_if_present(d2, StorageKind::Nvme) == entry_if_present(disks, StorageKind::Nvme));
}

/// Each character takes at least one byte.
proof fn lemma_byte_len_at_least_len(s: Seq<char>)
    ensures
        byte_len(s) >= s.len(),
    decreases s.len(),
{
    if s.len() > 0 {
        lemma_byte_len_at_least_len(s.drop_first());
    }
}

/// `take_until(s, c)` is a prefix of `s` without `c`, ending where `s`
/// ends or at a `c`.
proof fn lemma_take_until_prefix(s: Seq<char>, c: char)
    ensures
        take_until(s, c).len() <= s.len(),
        forall|i: int| 0 <= i < take_until(s, c).len() ==> #[trigger] take_until(s, c)[i] == s[i]
            && s[i] != c,
        take_until(s, c).len() < s.len() ==> s[take_until(s, c).len() as int] == c,
    decreases s.len(),
{
    if s.len() > 0 && s[0] != c {
        lemma_take_until_prefix(s.drop_first(), c);
        let t = take_until(s.drop_first(), c);
        assert forall|i: int| 0 <= i < take_until(s, c).len() implies #[trigger] take_until(s, c)[i]
            == s[i] && s[i] != c by {
            if i > 0 {
                assert(take_until(s, c)[i] == t[i - 1]);
            }
        }
    }
}

/// A sequence without `c` is its own `take_until`.
proof fn lemma_take_until_whole(s: Seq<char>, c: char)
    requires
        forall|i: int| 0 <= i < s.len() ==> s[i] != c,
    ensures
        take_until(s, c) == s,
    decreases s.len(),
{
    if s.len() > 0 {
        lemma_take_until_whole(s.drop_first(), c);
        assert(seq![s[0]] + s.drop_first() =~= s);
    }
}

/// `leading_digits(s)` is made of ASCII digits.
proof fn lemma_leading_digits_are_digits(s: Seq<char>)
    ensures
        forall|i: int| 0 <= i < leading_digits(s).len() ==> is_ascii_digit(
            #[trigger] leading_digits(s)[i],
        ),
    decreases s.len(),
{
    if s.len() > 0 && is_ascii_digit(s[0]) {
        lemma_leading_digits_are_digits(s.drop_first());
        let d = leading_digits(s.drop_first());
        assert forall|i: int| 0 <= i < leading_digits(s).len() implies is_ascii_digit(
            #[trigger] leading_digits(s)[i],
        ) by {
            if i > 0 {
                assert(leading_digits(s)[i] == d[i - 1]);
            }
        }
    }
}

/// A sequence of ASCII digits is its own `leading_digits`.
proof fn lemma_leading_digits_whole(s: Seq<char>)
    requires
        forall|i: int| 0 <= i < s.len() ==> is_ascii_digit(#[trigger] s[i]),
    ensures
        leading_digits(s) == s,
    decreases s.len(),
{
    if s.len() > 0 {
        assert(is_ascii_digit(s[0]));
        lemma_leading_digits_whole(s.drop_first());
        assert(seq![s[0]] + s.drop_first() =~= s);
    }
}

/// `disk` followed by ASCII digits names itself.
proof fn lemma_disk_name_fixed(d: Seq<char>)
    requires
        forall|i: int| 0 <= i < d.len() ==> is_ascii_digit(#[trigger] d[i]),
    ensures
        physical_from("disk"@ + d, "disk"@ + d) == "disk"@ + d,
{
    reveal_strlit("disk");
    reveal_strlit("nvme");
    let r = "disk"@ + d;
    assert(r.subrange(0, 4) =~= "disk"@);
    assert(r[0] == 'd');
    assert(!has_prefix(r, "nvme"@));
    assert(r.skip(4) =~= d);
    lemma_leading_digits_whole(d);
}

/// `leading_digits(s)` is the longest run of ASCII digits that starts `s`.
proof fn lemma_leading_digits_run(s: Seq<char>)
    ensures
        leading_digits(s).len() <= s.len(),
        leading_digits(s) == s.subrange(0, leading_digits(s).len() as int),
        forall|i: int| 0 <= i < leading_digits(s).len() ==> is_ascii_digit(#[trigger] s[i]),
        leading_digits(s).len() < s.len() ==> !is_ascii_digit(s[leading_digits(s).len() as int]),
    decreases s.len(),
{
    if s.len() > 0 && is_ascii_digit(s[0]) {
        let t = s.drop_first();
        lemma_leading_digits_run(t);
        assert(leading_digits(s) =~= s.subrange(0, leading_digits(s).len() as int));
        assert forall|i: int| 0 <= i < leading_digits(s).len() implies is_ascii_digit(
            #[trigger] s[i],
        ) by {
            if i > 0 {
                assert(s[i] == t[i - 1]);
            }
        }
    } else {
        assert(leading_digits(s) =~= s.subrange(0, 0));
    }
}

/// SCSI, IDE and virtio names: a name whose lowercase form starts with
/// `sd`, `hd` or `vd` and takes at least three bytes lies on the device
/// named by its first three lowercase characters (all of them, when it has
/// fewer). So `vda1` and `vda2`, or `SDB3` and `sdb7`, are one device.
pub proof fn law_scsi_ide_virtio_names(name: Seq<char>)
    requires
        lowercase(name).len() >= 2,
        lowercase(name)[0] == 's' || lowercase(name)[0] == 'h' || lowercase(name)[0] == 'v',
        lowercase(name)[1] == 'd',
        byte_len(lowercase(name)) >= 3,
    ensures
        physical_name(name) == if lowercase(name).len() >= 3 {
            lowercase(name).subrange(0, 3)
        } else {
            lowercase(name)
        },
{
    let l = lowercase(name);
    reveal_strlit("nvme");
    reveal_strlit("disk");
    reveal_strlit("rdisk");
    reveal_strlit("sd");
    reveal_strlit("hd");
    reveal_strlit("vd");
    assert(!has_prefix(l, "nvme"@)) by {
        if has_prefix(l, "nvme"@) {
            assert(l.subrange(0, 4)[0] == l[0]);
        }
    }
    assert(!has_prefix(l, "disk"@)) by {
        if has_prefix(l, "disk"@) {
            assert(l.subrange(0, 4)[0] == l[0]);
        }
    }
    assert(!has_prefix(l, "rdisk"@)) by {
        if has_prefix(l, "rdisk"@) {
            assert(l.subrange(0, 5)[0] == l[0]);
        }
    }
    if l[0] == 's' {
        assert(l.subrange(0, 2) =~= "sd"@);
    } else if l[0] == 'h' {
        assert(l.subrange(0, 2) =~= "hd"@);
    } else {
        assert(l.subrange(0, 2) =~= "vd"@);
    }
}

/// Two partition names that agree on their first three lowercase
/// characters, starting `sd`, `hd` or `vd`, lie on the same device: the
/// panel counts them once.
pub proof fn law_partitions_share_device(a: Seq<char>, b: Seq<char>)
    requires
        lowercase(a).len() >= 3,
        lowercase(b).len() >= 3,
        lowercase(a).subrange(0, 3) == lowercase(b).subrange(0, 3),
        lowercase(a)[0] == 's' || lowercase(a)[0] == 'h' || lowercase(a)[0] == 'v',
        lowercase(a)[1] == 'd',
    ensures
        physical_name(a) == physical_name(b),
        physical_name(a) == lowercase(a).subrange(0, 3),
{
    lemma_byte_len_at_least_len(lowercase(a));
    lemma_byte_len_at_least_len(lowercase(b));
    assert(lowercase(b)[0] == lowercase(b).subrange(0, 3)[0]);
    assert(lowercase(b)[1] == lowercase(b).subrange(0, 3)[1]);
    assert(lowercase(a)[0] == lowercase(a).subrange(0, 3)[0]);
    assert(lowercase(a)[1] == lowercase(a).subrange(0, 3)[1]);
    law_scsi_ide_virtio_names(a);
    law_scsi_ide_virtio_names(b);
}

/// NVMe names: the device is the lowercase name up to (not including) its
/// first `p`, or all of it when it has no `p`; so `nvme0n1p3` lies on
/// `nvme0n1`.
pub proof fn law_nvme_names(name: Seq<char>)
    requires
        lowercase(name).len() >= 4,
        lowercase(name).subrange(0, 4) == "nvme"@,
    ensures
        4 <= physical_name(name).len() <= lowercase(name).len(),
        physical_name(name) == lowercase(name).subrange(0, physical_name(name).len() as int),
        forall|i: int| 0 <= i < physical_name(name).len() ==> #[trigger] physical_name(name)[i] != 'p',
        physical_name(name).len() == lowercase(name).len() || lowercase(name)[physical_name(
            name,
        ).len() as int] == 'p',
{
    let l = lowercase(name);
    reveal_strlit("nvme");
    let r = take_until(l, 'p');
    lemma_take_until_prefix(l, 'p');
    if r.len() < 4 {
        assert(l[r.len() as int] == 'p');
        assert(l.subrange(0, 4)[r.len() as int] == l[r.len() as int]);
    }
    assert(r =~= l.subrange(0, r.len() as int));
}

/// Whole-disk names: a lowercase name starting `disk` lies on `disk`
/// followed by the run of ASCII digits right after it (`disk0s2` lies on
/// `disk0`).
pub proof fn law_disk_names(name: Seq<char>)
    requires
        lowercase(name).len() >= 4,
        lowercase(name).subrange(0, 4) == "disk"@,
    ensures
        4 <= physical_name(name).len() <= lowercase(name).len(),
        physical_name(name) == lowercase(name).subrange(0, physical_name(name).len() as int),
        forall|i: int| 4 <= i < physical_name(name).len() ==> '0' <= #[trigger] physical_name(name)[i] <= '9',
        physical_name(name).len() == lowercase(name).len() || !('0' <= lowercase(name)[physical_name(
            name,
        ).len() as int] <= '9'),
{
    let l = lowercase(name);
    reveal_strlit("nvme");
    reveal_strlit("disk");
    assert(!has_prefix(l, "nvme"@)) by {
        if has_prefix(l, "nvme"@) {
            assert(l.subrange(0, 4)[0] == l[0]);
        }
    }
    assert(has_prefix(l, "disk"@));
    let d = leading_digits(l.skip(4));
    lemma_leading_digits_run(l.skip(4));
    let r = physical_name(name);
    assert(r == "disk"@ + d);
    assert(r =~= l.subrange(0, r.len() as int)) by {
        assert forall|i: int| 0 <= i < r.len() implies r[i] == l[i] by {
            if i < 4 {
                assert(l.subrange(0, 4)[i] == l[i]);
            } else {
                assert(r[i] == d[i - 4]);
                assert(d[i - 4] == l.skip(4)[i - 4]);
            }
        }
    }
    assert forall|i: int| 4 <= i < r.len() implies '0' <= #[trigger] r[i] <= '9' by {
        assert(r[i] == d[i - 4]);
        assert(is_ascii_digit(l.skip(4)[i - 4]));
    }
    if r.len() < l.len() {
        assert(l[r.len() as int] == l.skip(4)[d.len() as int]);
    }
}

/// Raw whole-disk names: a lowercase name starting `rdisk` lies on `disk`
/// followed by the run of ASCII digits right after `rdisk` (`rdisk3` lies
/// on `disk3`).
pub proof fn law_raw_disk_names(name: Seq<char>)
    requires
        lowercase(name).len() >= 5,
        lowercase(name).subrange(0, 5) == "rdisk"@,
    ensures
        4 <= physical_name(name).len() <= lowercase(name).len() - 1,
        physical_name(name).subrange(0, 4) == "disk"@,
        physical_name(name).subrange(4, physical_name(name).len() as int) == lowercase(
            name,
        ).subrange(5, physical_name(name).len() + 1int),
        forall|i: int| 4 <= i < physical_name(name).len() ==> '0' <= #[trigger] physical_name(name)[i] <= '9',
        physical_name(name).len() + 1 == lowercase(name).len() || !('0' <= lowercase(
            name,
        )[physical_name(name).len() + 1int] <= '9'),
{
    let l = lowercase(name);
    reveal_strlit("nvme");
    reveal_strlit("disk");
    reveal_strlit("rdisk");
    assert(!has_prefix(l, "nvme"@)) by {
        if has_prefix(l, "nvme"@) {
            assert(l.subrange(0, 4)[0] == l[0]);
            assert(l.subrange(0, 5)[0] == l[0]);
        }
    }
    assert(!has_prefix(l, "disk"@)) by {
        if has_prefix(l, "disk"@) {
            assert(l.subrange(0, 4)[0] == l[0]);
            assert(l.subrange(0, 5)[0] == l[0]);
        }
    }
    assert(has_prefix(l, "rdisk"@));
    let d = leading_digits(l.skip(5));
    lemma_leading_digits_run(l.skip(5));
    let r = physical_name(name);
    assert(r == "disk"@ + d);
    assert(r.subrange(0, 4) =~= "disk"@);
    assert(r.subrange(4, r.len() as int) =~= l.subrange(5, r.len() + 1int)) by {
        assert forall|i: int| 0 <= i < r.len() - 4 implies r.subrange(4, r.len() as int)[i]
            == l.subrange(5, r.len() + 1int)[i] by {
            assert(r[i + 4] == d[i]);
            assert(d[i] == l.skip(5)[i]);
        }
    }
    assert forall|i: int| 4 <= i < r.len() implies '0' <= #[trigger] r[i] <= '9' by {
        assert(r[i] == d[i - 4]);
        assert(is_ascii_digit(l.skip(5)[i - 4]));
    }
    if r.len() + 1 < l.len() {
        assert(l[r.len() + 1int] == l.skip(5)[d.len() as int]);
    }
}

/// Drive letters: a lowercase name of two bytes ending in `:` (`C:`) is its
/// own device, in lowercase.
pub proof fn law_drive_letters(name: Seq<char>)
    requires
        byte_len(lowercase(name)) == 2,
        lowercase(name).len() > 0,
        lowercase(name).last() == ':',
    ensures
        physical_name(name) == lowercase(name),
{
    let l = lowercase(name);
    reveal_strlit(":");
    reveal_strlit("nvme");
    reveal_strlit("disk");
    reveal_strlit("rdisk");
    lemma_byte_len_at_least_len(l);
    assert(!has_prefix(l, "nvme"@));
    assert(!has_prefix(l, "disk"@));
    assert(!has_prefix(l, "rdisk"@));
    assert(l.subrange(l.len() - 1, l.len() as int) =~= ":"@);
}

/// Any other name is its own device, unchanged: one whose lowercase form
/// starts with none of `nvme`, `disk`, `rdisk`, nor with `sd`, `hd` or `vd`
/// at three bytes or more, and is not a two-byte drive letter.
pub proof fn law_other_names(name: Seq<char>)
    requires
        !has_prefix(lowercase(name), "nvme"@),
        !has_prefix(lowercase(name), "disk"@),
        !has_prefix(lowercase(name), "rdisk"@),
        !((has_prefix(lowercase(name), "sd"@) || has_prefix(lowercase(name), "hd"@) || has_prefix(
            lowercase(name),
            "vd"@,
        )) && byte_len(lowercase(name)) >= 3),
        !(byte_len(lowercase(name)) == 2 && has_suffix(lowercase(name), ":"@)),
    ensures
        physical_name(name) == name,
{
}

/// Where a disk is summed: into NVMe when its name or its physical device
/// name, lowercased, mentions `nvme`; otherwise into HDD for a rotating
/// disk, and into SSD for a solid-state or unknown one. Its used bytes are
/// its total less its available bytes, or 0 when more is available.
pub proof fn law_disk_category(d: DiskRecord)
    ensures
        has_infix(lowercase(d.name@), "nvme"@) || has_infix(lowercase(physical_name(d.name@)), "nvme"@)
            ==> category_of(d) == StorageKind::Nvme,
        !has_infix(lowercase(d.name@), "nvme"@) && !has_infix(lowercase(physical_name(d.name@)), "nvme"@)
            ==> category_of(d) == if d.kind == DiskKind::Hdd {
            StorageKind::Hdd
        } else {
            StorageKind::Ssd
        },
        d.available_space < d.total_space ==> used_space(d) + d.available_space == d.total_space,
        d.available_space >= d.total_space ==> used_space(d) == 0,
{
}

/// The order of the categories on the panel.
pub open spec fn kind_rank(k: StorageKind) -> int {
    match k {
        StorageKind::Ssd => 0,
        StorageKind::Hdd => 1,
        StorageKind::Nvme => 2,
    }
}

/// The panel shows each category at most once, in the order SSD, HDD,
/// NVMe, only those with a positive total, each with no more used than
/// total bytes; and a category is shown exactly when some counted disk of
/// that kind has a positive total (for each kind `k`).
pub proof fn law_categories_shown(disks: Seq<DiskRecord>, k: StorageKind)
    requires
        sums_fit(disks),
    ensures
        categories(disks).len() <= 3,
        forall|i: int|
            0 <= i < categories(disks).len() ==> (#[trigger] categories(disks)[i]).total > 0
                && categories(disks)[i].used <= categories(disks)[i].total,
        forall|i: int, j: int|
            0 <= i < j < categories(disks).len() ==> kind_rank((#[trigger] categories(disks)[i]).kind)
                < kind_rank((#[trigger] categories(disks)[j]).kind),
        (exists|i: int| 0 <= i < categories(disks).len() && (#[trigger] categories(disks)[i]).kind == k)
            <==> (exists|j: int|
            0 <= j < disks.len() && #[trigger] is_counted(disks, j) && category_of(disks[j]) == k
                && disks[j].total_space > 0),
{
    let n = disks.len() as int;
    lemma_used_le_total(disks, n, StorageKind::Ssd);
    lemma_used_le_total(disks, n, StorageKind::Hdd);
    lemma_used_le_total(disks, n, StorageKind::Nvme);
    let a = entry_if_present(disks, StorageKind::Ssd);
    let b = entry_if_present(disks, StorageKind::Hdd);
    let c = entry_if_present(disks, StorageKind::Nvme);
    let cats = categories(disks);
    assert(cats == a + b + c);
    assert forall|i: int| 0 <= i < cats.len() implies (#[trigger] cats[i]).total > 0 && cats[i].used
        <= cats[i].total by {
        if i < a.len() {
            assert(cats[i] == a[i]);
        } else if i < a.len() + b.len() {
            assert(cats[i] == b[i - a.len()]);
        } else {
            assert(cats[i] == c[i - a.len() - b.len()]);
        }
    }
    assert forall|i: int, j: int| 0 <= i < j < cats.len() implies kind_rank((#[trigger] cats[i]).kind)
        < kind_rank((#[trigger] cats[j]).kind) by {
        if i < a.len() {
            assert(cats[i] == a[i]);
        } else if i < a.len() + b.len() {
            assert(cats[i] == b[i - a.len()]);
        } else {
            assert(cats[i] == c[i - a.len() - b.len()]);
        }
        if j < a.len() {
            assert(cats[j] == a[j]);
        } else if j < a.len() + b.len() {
            assert(cats[j] == b[j - a.len()]);
        } else {
            assert(cats[j] == c[j - a.len() - b.len()]);
        }
    }
    {
        lemma_total_positive_iff(disks, n, k);
        let e = entry_if_present(disks, k);
        if exists|i: int| 0 <= i < cats.len() && (#[trigger] cats[i]).kind == k {
            let i = choose|i: int| 0 <= i < cats.len() && (#[trigger] cats[i]).kind == k;
            if i < a.len() {
                assert(cats[i] == a[i]);
            } else if i < a.len() + b.len() {
                assert(cats[i] == b[i - a.len()]);
            } else {
                assert(cats[i] == c[i - a.len() - b.len()]);
            }
        }
        if kind_total(disks, n, k) > 0 {
            match k {
                StorageKind::Ssd => {
                    assert(cats[0] == a[0]);
                },
                StorageKind::Hdd => {
                    assert(cats[a.len() as int] == b[0]);
                },
                StorageKind::Nvme => {
                    assert(cats[(a.len() + b.len()) as int] == c[0]);
                },
            }
        }
    }
}

/// A kind's total is positive exactly when some counted disk of that kind
/// among the first `n` has a positive total.
proof fn lemma_total_positive_iff(disks: Seq<DiskRecord>, n: int, k: StorageKind)
    requires
        0 <= n <= disks.len(),
    ensures
        kind_total(disks, n, k) > 0 <==> (exists|j: int|
            0 <= j < n && #[trigger] is_counted(disks, j) && category_of(disks[j]) == k
                && disks[j].total_space > 0),
    decreases n,
{
    if n > 0 {
        lemma_total_positive_iff(disks, n - 1, k);
        if exists|j: int|
            0 <= j < n && #[trigger] is_counted(disks, j) && category_of(disks[j]) == k
                && disks[j].total_space > 0 {
            let j = choose|j: int|
                0 <= j < n && #[trigger] is_counted(disks, j) && category_of(disks[j]) == k
                    && disks[j].total_space > 0;
            if j < n - 1 {
                assert(kind_total(disks, n - 1, k) > 0);
            }
        }
    }
}

/// Naming the physical device of a physical device name gives that name
/// back, for names whose physical device name is their own or is left
/// unchanged by lowercasing.
pub proof fn law_physical_name_idempotent(name: Seq<char>)
    requires
        physical_name(name) != name ==> lowercase(physical_name(name)) == physical_name(name),
    ensures
        physical_name(physical_name(name)) == physical_name(name),
{
    let lower = lowercase(name);
    let r = physical_name(name);
    if r != name {
        assert(physical_name(r) == physical_from(r, r));
        reveal_strlit("nvme");
        reveal_strlit("disk");
        reveal_strlit("rdisk");
        reveal_strlit("sd");
        reveal_strlit("hd");
        reveal_strlit("vd");
        reveal_strlit(":");
        lemma_byte_len_at_least_len(lower);
        if has_prefix(lower, "nvme"@) {
            lemma_take_until_prefix(lower, 'p');
            assert(r == take_until(lower, 'p'));
            if r.len() < 4 {
                assert(lower[r.len() as int] == 'p');
                assert(lower.subrange(0, 4)[r.len() as int] == lower[r.len() as int]);
            }
            assert forall|i: int| 0 <= i < 4 implies r[i] == "nvme"@[i] by {
                assert(lower.subrange(0, 4)[i] == lower[i]);
            }
            assert(r.subrange(0, 4) =~= "nvme"@);
            lemma_take_until_whole(r, 'p');
        } else if has_prefix(lower, "disk"@) {
            lemma_leading_digits_are_digits(lower.skip(4));
            lemma_disk_name_fixed(leading_digits(lower.skip(4)));
        } else if has_prefix(lower, "rdisk"@) {
            lemma_leading_digits_are_digits(lower.skip(5));
            lemma_disk_name_fixed(leading_digits(lower.skip(5)));
        } else if (has_prefix(lower, "sd"@) || has_prefix(lower, "hd"@) || has_prefix(lower, "vd"@))
            && byte_len(lower) >= 3 {
            assert(r == first_chars(lower, 3));
            assert(r.len() <= 3);
            lemma_byte_len_at_least_len(r);
            assert(byte_len(r) >= 3);
            assert(r.subrange(0, 2) =~= lower.subrange(0, 2));
            assert(r[0] == lower[0]);
            assert(!has_prefix(r, "nvme"@));
            assert(!has_prefix(r, "disk"@));
            assert(!has_prefix(r, "rdisk"@));
            assert(first_chars(r, 3) == r);
        } else {
            assert(r == lower);
        }
    }
}

/// Sum of the used bytes of a list of categories.
pub open spec fn used_sum(cats: Seq<StorageCategory>) -> nat
    decreases cats.len(),
{
    if cats.len() == 0 {
        0
    } else {
        used_sum(cats.drop_last()) + cats.last().used as nat
    }
}

/// Sum of the totals of a list of categories.
pub open spec fn total_sum(cats: Seq<StorageCategory>) -> nat
    decreases cats.len(),
{
    if cats.len() == 0 {
        0
    } else {
        total_sum(cats.drop_last()) + cats.last().total as nat
    }
}

/// The overall gauge adds up the categories: nothing for none, a single
/// category's own bytes, and sums that add over joined lists.
pub proof fn law_totals_add_up(x: Seq<StorageCategory>, y: Seq<StorageCategory>, c: StorageCategory)
    ensures
        used_sum(Seq::empty()) == 0 && total_sum(Seq::empty()) == 0,
        used_sum(seq![c]) == c.used && total_sum(seq![c]) == c.total,
        used_sum(x + y) == used_sum(x) + used_sum(y),
        total_sum(x + y) == total_sum(x) + total_sum(y),
    decreases y.len(),
{
    assert(seq![c].drop_last() =~= Seq::<StorageCategory>::empty());
    if y.len() == 0 {
        assert(x + y =~= x);
    } else {
        law_totals_add_up(x, y.drop_last(), c);
        assert((x + y).drop_last() =~= x + y.drop_last());
    }
}

/// A single named disk of positive size makes one category: its own kind,
/// with its used and total bytes.
pub proof fn law_single_disk(d: DiskRecord)
    requires
        d.name@.len() > 0,
        d.total_space > 0,
    ensures
        categories(seq![d]) == seq![
            (StorageCategory { kind: category_of(d), used: used_space(d) as u64, total: d.total_space }),
        ],
        used_space(d) <= d.total_space,
{
    let ds = seq![d];
    assert(is_counted(ds, 0));
    assert(kind_total(ds, 0, StorageKind::Ssd) == 0);
    assert(kind_total(ds, 0, StorageKind::Hdd) == 0);
    assert(kind_total(ds, 0, StorageKind::Nvme) == 0);
    assert(kind_used(ds, 0, StorageKind::Ssd) == 0);
    assert(kind_used(ds, 0, StorageKind::Hdd) == 0);
    assert(kind_used(ds, 0, StorageKind::Nvme) == 0);
    let e = StorageCategory { kind: category_of(d), used: used_space(d) as u64, total: d.total_space };
    match category_of(d) {
        StorageKind::Ssd => {
            assert(entry_if_present(ds, StorageKind::Ssd) == seq![e]);
            assert(entry_if_present(ds, StorageKind::Hdd) =~= Seq::<StorageCategory>::empty());
            assert(entry_if_present(ds, StorageKind::Nvme) =~= Seq::<StorageCategory>::empty());
            assert(categories(ds) =~= seq![e]);
        },
        StorageKind::Hdd => {
            assert(entry_if_present(ds, StorageKind::Hdd) == seq![e]);
            assert(entry_if_present(ds, StorageKind::Ssd) =~= Seq::<StorageCategory>::empty());
            assert(entry_if_present(ds, StorageKind::Nvme) =~= Seq::<StorageCategory>::empty());
            assert(categories(ds) =~= seq![e]);
        },
        StorageKind::Nvme => {
            assert(entry_if_present(ds, StorageKind::Nvme) == seq![e]);
            assert(entry_if_present(ds, StorageKind::Ssd) =~= Seq::<StorageCategory>::empty());
            assert(entry_if_present(ds, StorageKind::Hdd) =~= Seq::<StorageCategory>::empty());
            assert(categories(ds) =~= seq![e]);
        },
    }
}

/// The used and total bytes over all categories, for the panel's first gauge.
pub fn overall_totals(cats: &Vec<StorageCategory>) -> (r: (u64, u64))
    requires
        used_sum(cats@) <= u64::MAX,
        total_sum(cats@) <= u64::MAX,
    ensures
        r.0 == used_sum(cats@),
        r.1 == total_sum(cats@),
{
    let mut used: u64 = 0;
    let mut total: u64 = 0;
    let mut i: usize = 0;
    while i < cats.len()
        invariant
            i <= cats@.len(),
            used_sum(cats@) <= u64::MAX,
            total_sum(cats@) <= u64::MAX,
            used == used_sum(cats@.take(i as int)),
            total == total_sum(cats@.take(i as int)),
        decreases cats@.len() - i,
    {
        proof {
            assert(cats@.take(i + 1).drop_last() =~= cats@.take(i as int));
            lemma_sums_monotone(cats@, i + 1);
        }
        used = used + cats[i].used;
        total = total + cats[i].total;
        i = i + 1;
    }
    assert(cats@.take(cats@.len() as int) =~= cats@);
    (used, total)
}

proof fn lemma_sums_monotone(cats: Seq<StorageCategory>, n: int)
    requires
        0 <= n <= cats.len(),
    ensures
        used_sum(cats.take(n)) <= used_sum(cats),
        total_sum(cats.take(n)) <= total_sum(cats),
    decreases cats.len() - n,
{
    if n < cats.len() {
        assert(cats.drop_last().take(n) =~= cats.take(n));
        lemma_sums_monotone(cats.drop_last(), n);
    } else {
        assert(cats.take(n) =~= cats);
    }
}

/// Gauge colour for an overall usage percentage: red above 90, yellow above
/// 70, green otherwise.
pub fn usage_tint(percent: u16) -> (t: Tint)
    ensures
        t == if percent > 90 {
            Tint::Red
        } else if percent > 70 {
            Tint::Yellow
        } else {
            Tint::Green
        },
{
    if percent > 90 {
        Tint::Red
    } else if percent > 70 {
        Tint::Yellow
    } else {
        Tint::Green
    }
}

} // verus!
