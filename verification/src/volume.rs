//! Mounted-volume snapshots and the change monitor's diff step.
//!
//! A snapshot is a list of volumes with pairwise distinct mountpoints; a
//! volume's identity for diffing purposes is its mountpoint alone, never
//! the capacity figures. Capacities are whole decimal gigabytes, each
//! truncated independently from a byte count, so `used_gb + available_gb`
//! need not equal `total_gb`; that rounding is deliberate and kept.

use vstd::prelude::*;
use sysinfo::DiskExt;
use sysinfo::SystemExt;

verus! {

/// Bytes in one decimal gigabyte.
pub const BYTES_PER_GB: u64 = 1_000_000_000;

/// One mounted volume, as reported at a point in time.
pub struct Volume {
    pub is_removable: bool,
    pub kind: String,
    pub mountpoint: String,
    pub available_gb: u16,
    pub used_gb: u16,
    pub total_gb: u16,
}

/// The mathematical value of a volume.
pub struct VolumeModel {
    pub is_removable: bool,
    pub kind: Seq<char>,
    pub mountpoint: Seq<char>,
    pub available_gb: u16,
    pub used_gb: u16,
    pub total_gb: u16,
}

impl View for Volume {
    type V = VolumeModel;

    open spec fn view(&self) -> VolumeModel {
        VolumeModel {
            is_removable: self.is_removable,
            kind: self.kind@,
            mountpoint: self.mountpoint@,
            available_gb: self.available_gb,
            used_gb: self.used_gb,
            total_gb: self.total_gb,
        }
    }
}

/// A byte count as whole decimal gigabytes, truncated to the u16 the
/// volume record carries.
pub open spec fn gb_of(bytes: u64) -> u16 {
    (((bytes as int) / (BYTES_PER_GB as int)) % 0x10000) as u16
}

/// Used bytes: what of the total is not available, zero if a racy reading
/// reports more available than total.
pub open spec fn used_bytes_of(total_bytes: u64, available_bytes: u64) -> u64 {
    if available_bytes <= total_bytes {
        (total_bytes - available_bytes) as u64
    } else {
        0
    }
}

/// Raw per-disk readings, in plain values.
pub struct DiskStats {
    pub mountpoint: String,
    pub kind: String,
    pub is_removable: bool,
    pub total_bytes: u64,
    pub available_bytes: u64,
}

/// The volume one disk's readings convert to: identity and removability
/// carried over, each capacity figure truncated on its own.
pub open spec fn spec_volume_of(stats: DiskStats) -> VolumeModel {
    VolumeModel {
        is_removable: stats.is_removable,
        kind: stats.kind@,
        mountpoint: stats.mountpoint@,
        available_gb: gb_of(stats.available_bytes),
        used_gb: gb_of(used_bytes_of(stats.total_bytes, stats.available_bytes)),
        total_gb: gb_of(stats.total_bytes),
    }
}

/// Build a volume from one disk's readings: each capacity figure is
/// converted to gigabytes by its own truncating division.
pub fn volume_from_stats(stats: DiskStats) -> (v: Volume)
    ensures
        v@ == spec_volume_of(stats),
{
    let used_bytes = if stats.available_bytes <= stats.total_bytes {
        stats.total_bytes - stats.available_bytes
    } else {
        0
    };
    Volume {
        is_removable: stats.is_removable,
        kind: stats.kind,
        mountpoint: stats.mountpoint,
        available_gb: ((stats.available_bytes / BYTES_PER_GB) % 0x10000) as u16,
        used_gb: ((used_bytes / BYTES_PER_GB) % 0x10000) as u16,
        total_gb: ((stats.total_bytes / BYTES_PER_GB) % 0x10000) as u16,
    }
}

/// Relies on sysinfo's System::new_all and SystemExt::disks, with DiskExt's
/// mount_point, kind, is_removable, total_space and available_space: reads
/// the currently mounted disks and hands their figures out as plain values.
/// What comes back depends on the machine, so nothing is promised of it.
#[verifier::external_body]
fn read_disks() -> (stats: Vec<DiskStats>)
{
    let sys = sysinfo::System::new_all();
    sys.disks()
        .iter()
        .map(|d| DiskStats {
            mountpoint: d.mount_point().to_string_lossy().into_owned(),
            kind: format!("{:?}", d.kind()),
            is_removable: d.is_removable(),
            total_bytes: d.total_space(),
            available_bytes: d.available_space(),
        })
        .collect()
}

/// The volume is the conversion of one of the readings.
pub open spec fn converted_from(stats: Seq<DiskStats>, v: VolumeModel) -> bool {
    exists|k: int| 0 <= k < stats.len() && v == #[trigger] spec_volume_of(stats[k])
}

/// Build the snapshot from the disks' readings: every reading's mountpoint
/// is represented, every volume is the conversion of one reading, and a
/// second reading on an already-seen mountpoint is dropped, so the
/// snapshot's mountpoints are distinct by construction.
pub fn snapshot_from_stats(stats: Vec<DiskStats>) -> (snap: Vec<Volume>)
    ensures
        distinct_mounts(snap@),
        forall|k: int| 0 <= k < stats@.len() ==> has_mount(snap@, #[trigger] stats@[k].mountpoint@),
        forall|i: int| 0 <= i < snap@.len() ==> converted_from(stats@, #[trigger] snap@[i]@),
{
    let ghost stats0 = stats@;
    let mut rest = stats;
    let mut snap: Vec<Volume> = Vec::new();
    while rest.len() > 0
        invariant
            rest@.len() <= stats0.len(),
            rest@ == stats0.take(rest@.len() as int),
            distinct_mounts(snap@),
            forall|k: int|
                rest@.len() <= k < stats0.len() ==> has_mount(
                    snap@,
                    #[trigger] stats0[k].mountpoint@,
                ),
            forall|i: int| 0 <= i < snap@.len() ==> converted_from(stats0, #[trigger] snap@[i]@),
        decreases rest@.len(),
    {
        let ghost n = rest@.len() as int;
        let st = rest.pop().unwrap();
        proof {
            assert(st == stats0.take(n)[n - 1]);
            assert(st == stats0[n - 1]);
            assert(rest@ =~= stats0.take(n - 1));
        }
        let v = volume_from_stats(st);
        if !find_mount(&snap, &v.mountpoint) {
            let ghost snap0 = snap@;
            snap.push(v);
            proof {
                let len = snap@.len() as int;
                assert(snap@[len - 1]@ == spec_volume_of(stats0[n - 1]));
                assert forall|i: int, j: int|
                    0 <= i < j < len implies #[trigger] snap@[i]@.mountpoint
                        != #[trigger] snap@[j]@.mountpoint by {
                    if j == len - 1 {
                        assert(snap@[i] == snap0[i]);
                    }
                }
                assert forall|k: int|
                    n - 1 <= k < stats0.len() implies has_mount(
                    snap@,
                    #[trigger] stats0[k].mountpoint@,
                ) by {
                    if k == n - 1 {
                        assert(snap@[len - 1]@.mountpoint == stats0[k].mountpoint@);
                    } else {
                        let w = choose|w: int|
                            0 <= w < snap0.len() && #[trigger] snap0[w]@.mountpoint
                                == stats0[k].mountpoint@;
                        assert(snap@[w]@.mountpoint == stats0[k].mountpoint@);
                    }
                }
                assert forall|i: int|
                    0 <= i < snap@.len() implies converted_from(stats0, #[trigger] snap@[i]@) by {
                    if i < len - 1 {
                        assert(snap@[i] == snap0[i]);
                    }
                }
            }
        } else {
            proof {
                assert(v@.mountpoint == stats0[n - 1].mountpoint@);
                assert forall|k: int|
                    n - 1 <= k < stats0.len() implies has_mount(
                    snap@,
                    #[trigger] stats0[k].mountpoint@,
                ) by {}
            }
        }
    }
    proof {
        assert(stats0.take(0) =~= rest@);
    }
    snap
}

/// One fresh snapshot of the mounted volumes. Disks sysinfo cannot read do
/// not appear in the readings and so not in the snapshot; what the machine
/// reports is its own business, so the exact correspondence between
/// readings and volumes is stated at [`snapshot_from_stats`].
pub fn get_volumes() -> (snap: Vec<Volume>)
    ensures
        distinct_mounts(snap@),
{
    snapshot_from_stats(read_disks())
}

/// Some volume in the snapshot is mounted at `mp`.
pub open spec fn has_mount(s: Seq<Volume>, mp: Seq<char>) -> bool {
    exists|i: int| 0 <= i < s.len() && #[trigger] s[i]@.mountpoint == mp
}

/// The snapshot's volumes carry pairwise distinct mountpoints.
pub open spec fn distinct_mounts(s: Seq<Volume>) -> bool {
    forall|i: int, j: int|
        0 <= i < j < s.len() ==> #[trigger] s[i]@.mountpoint != #[trigger] s[j]@.mountpoint
}

/// The two snapshots cover exactly the same mountpoints, whatever their
/// capacity figures say.
pub open spec fn same_mounts(a: Seq<Volume>, b: Seq<Volume>) -> bool {
    (forall|i: int| 0 <= i < a.len() ==> has_mount(b, #[trigger] a[i]@.mountpoint))
        && (forall|j: int| 0 <= j < b.len() ==> has_mount(a, #[trigger] b[j]@.mountpoint))
}

/// The snapshot contains a volume with this mathematical value.
pub open spec fn has_volume(s: Seq<Volume>, v: VolumeModel) -> bool {
    exists|i: int| 0 <= i < s.len() && #[trigger] s[i]@ == v
}

/// Whether some volume of the snapshot is mounted at `mp`.
pub fn find_mount(s: &Vec<Volume>, mp: &String) -> (r: bool)
    ensures
        r == has_mount(s@, mp@),
{
    let n = s.len();
    let mut i: usize = 0;
    while i < n
        invariant
            i <= n,
            n == s@.len(),
            forall|k: int| 0 <= k < i ==> #[trigger] s@[k]@.mountpoint != mp@,
        decreases n - i,
    {
        if s[i].mountpoint == *mp {
            assert(s@[i as int]@.mountpoint == mp@);
            return true;
        }
        i += 1;
    }
    false
}

fn copy_volume(v: &Volume) -> (r: Volume)
    ensures
        r@ == v@,
{
    Volume {
        is_removable: v.is_removable,
        kind: v.kind.clone(),
        mountpoint: v.mountpoint.clone(),
        available_gb: v.available_gb,
        used_gb: v.used_gb,
        total_gb: v.total_gb,
    }
}

/// The volumes of the previous snapshot whose mountpoint is gone from the
/// current one: exactly the removed volumes, in their previous state.
/// The volume's value stands at some index of `prev` below `bound`.
spec fn from_prefix(prev: Seq<Volume>, bound: int, v: VolumeModel) -> bool {
    exists|w: int| 0 <= w < bound && #[trigger] prev[w]@ == v
}

pub fn diff_removed(prev: &Vec<Volume>, curr: &Vec<Volume>) -> (removed: Vec<Volume>)
    ensures
        forall|i: int|
            0 <= i < removed@.len() ==> !has_mount(curr@, #[trigger] removed@[i]@.mountpoint)
                && has_volume(prev@, removed@[i]@),
        forall|j: int|
            0 <= j < prev@.len() && !has_mount(curr@, #[trigger] prev@[j]@.mountpoint)
                ==> has_volume(removed@, prev@[j]@),
        distinct_mounts(prev@) ==> distinct_mounts(removed@),
{
    let n = prev.len();
    let mut removed: Vec<Volume> = Vec::new();
    let mut j: usize = 0;
    while j < n
        invariant
            j <= n,
            n == prev@.len(),
            forall|i: int|
                0 <= i < removed@.len() ==> !has_mount(curr@, #[trigger] removed@[i]@.mountpoint)
                    && has_volume(prev@, removed@[i]@),
            forall|k: int|
                0 <= k < j && !has_mount(curr@, #[trigger] prev@[k]@.mountpoint)
                    ==> has_volume(removed@, prev@[k]@),
            forall|i: int|
                0 <= i < removed@.len() ==> from_prefix(prev@, j as int, #[trigger] removed@[i]@),
            distinct_mounts(prev@) ==> distinct_mounts(removed@),
        decreases n - j,
    {
        if !find_mount(curr, &prev[j].mountpoint) {
            let ghost removed0 = removed@;
            let v = copy_volume(&prev[j]);
            removed.push(v);
            proof {
                let rlen = removed@.len() as int;
                assert(removed@[rlen - 1]@ == prev@[j as int]@);
                assert forall|i: int|
                    0 <= i < rlen implies !has_mount(
                    curr@,
                    #[trigger] removed@[i]@.mountpoint,
                ) && has_volume(prev@, removed@[i]@) by {
                    if i < rlen - 1 {
                        assert(removed@[i] == removed0[i]);
                    }
                }
                assert forall|k: int|
                    0 <= k < j + 1 && !has_mount(curr@, #[trigger] prev@[k]@.mountpoint)
                        implies has_volume(removed@, prev@[k]@) by {
                    if k < j {
                        let w = choose|w: int|
                            0 <= w < removed0.len() && #[trigger] removed0[w]@ == prev@[k]@;
                        assert(removed@[w]@ == prev@[k]@);
                    } else {
                        assert(removed@[rlen - 1]@ == prev@[k]@);
                    }
                }
                assert forall|i: int|
                    0 <= i < rlen implies from_prefix(
                    prev@,
                    j + 1 as int,
                    #[trigger] removed@[i]@,
                ) by {
                    if i < rlen - 1 {
                        assert(removed@[i] == removed0[i]);
                        let w = choose|w: int|
                            0 <= w < j && #[trigger] prev@[w]@ == removed0[i]@;
                        assert(prev@[w]@ == removed@[i]@);
                    } else {
                        assert(prev@[j as int]@ == removed@[i]@);
                    }
                }
                if distinct_mounts(prev@) {
                    assert forall|a: int, b: int|
                        0 <= a < b < rlen implies #[trigger] removed@[a]@.mountpoint
                            != #[trigger] removed@[b]@.mountpoint by {
                        if b == rlen - 1 {
                            assert(removed@[a] == removed0[a]);
                            let w = choose|w: int|
                                0 <= w < j && #[trigger] prev@[w]@ == removed0[a]@;
                            assert(prev@[w]@.mountpoint != prev@[j as int]@.mountpoint);
                        } else {
                            assert(removed@[a] == removed0[a]);
                            assert(removed@[b] == removed0[b]);
                        }
                    }
                }
            }
        } else {
            proof {
                assert forall|i: int|
                    0 <= i < removed@.len() implies from_prefix(
                    prev@,
                    j + 1 as int,
                    #[trigger] removed@[i]@,
                ) by {
                    let w = choose|w: int|
                        0 <= w < j && #[trigger] prev@[w]@ == removed@[i]@;
                    assert(prev@[w]@ == removed@[i]@);
                }
            }
        }
        j += 1;
    }
    removed
}

/// One monitor tick's decision: `None` when the mountpoint sets agree
/// (capacity drift alone is never reported), otherwise the removed volumes
/// to publish alongside the current snapshot.
pub fn monitor_step(prev: &Vec<Volume>, curr: &Vec<Volume>) -> (r: Option<Vec<Volume>>)
    ensures
        (r is None) == same_mounts(prev@, curr@),
        r matches Some(removed) ==> {
            &&& (forall|i: int|
                0 <= i < removed@.len() ==> !has_mount(curr@, #[trigger] removed@[i]@.mountpoint)
                    && has_volume(prev@, removed@[i]@))
            &&& (forall|j: int|
                0 <= j < prev@.len() && !has_mount(curr@, #[trigger] prev@[j]@.mountpoint)
                    ==> has_volume(removed@, prev@[j]@))
            &&& (distinct_mounts(prev@) ==> distinct_mounts(removed@))
        },
{
    if same_mounts_check(prev, curr) {
        None
    } else {
        Some(diff_removed(prev, curr))
    }
}

/// Whether the two snapshots cover the same mountpoints.
pub fn same_mounts_check(a: &Vec<Volume>, b: &Vec<Volume>) -> (r: bool)
    ensures
        r == same_mounts(a@, b@),
{
    let an = a.len();
    let mut i: usize = 0;
    while i < an
        invariant
            i <= an,
            an == a@.len(),
            forall|k: int| 0 <= k < i ==> has_mount(b@, #[trigger] a@[k]@.mountpoint),
        decreases an - i,
    {
        if !find_mount(b, &a[i].mountpoint) {
            assert(!has_mount(b@, a@[i as int]@.mountpoint));
            return false;
        }
        i += 1;
    }
    let bn = b.len();
    let mut j: usize = 0;
    while j < bn
        invariant
            j <= bn,
            bn == b@.len(),
            forall|k: int| 0 <= k < a@.len() ==> has_mount(b@, #[trigger] a@[k]@.mountpoint),
            forall|k: int| 0 <= k < j ==> has_mount(a@, #[trigger] b@[k]@.mountpoint),
        decreases bn - j,
    {
        if !find_mount(a, &b[j].mountpoint) {
            assert(!has_mount(a@, b@[j as int]@.mountpoint));
            return false;
        }
        j += 1;
    }
    true
}

/// A snapshot always covers its own mountpoints: once the published
/// snapshot becomes the held one, the same transition is never reported a
/// second time.
pub proof fn lemma_same_mounts_reflexive(s: Seq<Volume>)
    ensures
        same_mounts(s, s),
{
}

/// Capacity drift alone never changes the diff decision: snapshots that
/// list the same mountpoints in the same order are `same_mounts`, whatever
/// their capacity figures.
pub proof fn lemma_capacity_drift_ignored(a: Seq<Volume>, b: Seq<Volume>)
    requires
        a.len() == b.len(),
        forall|i: int| 0 <= i < a.len() ==> #[trigger] a[i]@.mountpoint == #[trigger] b[i]@.mountpoint,
    ensures
        same_mounts(a, b),
{
    assert forall|i: int| 0 <= i < a.len() implies has_mount(b, #[trigger] a[i]@.mountpoint) by {
        assert(b[i]@.mountpoint == a[i]@.mountpoint);
    }
    assert forall|j: int| 0 <= j < b.len() implies has_mount(a, #[trigger] b[j]@.mountpoint) by {
        assert(a[j]@.mountpoint == b[j]@.mountpoint);
    }
}

} // verus!
