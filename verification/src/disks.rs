//! Mounted volumes: merging entries that describe the same volume and
//! ordering them for display.

use vstd::prelude::*;
use crate::action::Action;
use crate::snapshot::DiskInfo;
use crate::theme::Theme;
use crate::text::{chars_equal, chars_less, chars_lt, chars_of, lemma_chars_lt_total, lemma_chars_lt_transitive};

verus! {

/// A volume as the system lists it, before merging.
#[derive(Debug)]
pub struct MountEntry {
    pub name: String,
    pub file_system: String,
    pub total_space: u64,
    pub available_space: u64,
}

/// What a volume entry holds, as values.
pub struct VolumeView {
    pub name: Seq<char>,
    pub file_system: Seq<char>,
    pub total: u64,
    pub available: u64,
}

impl View for MountEntry {
    type V = VolumeView;

    open spec fn view(&self) -> VolumeView {
        VolumeView {
            name: self.name@,
            file_system: self.file_system@,
            total: self.total_space,
            available: self.available_space,
        }
    }
}

impl View for DiskInfo {
    type V = VolumeView;

    open spec fn view(&self) -> VolumeView {
        VolumeView {
            name: self.name@,
            file_system: Seq::empty(),
            total: self.total_space,
            available: self.available_space,
        }
    }
}

/// `a` and `b` describe the same volume: same name and size, and, when
/// `by_fs` holds, the same file system.
pub open spec fn same_volume(a: VolumeView, b: VolumeView, by_fs: bool) -> bool {
    a.name == b.name && a.total == b.total && (by_fs ==> a.file_system == b.file_system)
}

/// `a` is listed strictly before `b`: by name, then larger volumes first.
pub open spec fn volume_before(a: VolumeView, b: VolumeView) -> bool {
    chars_lt(a.name, b.name) || (a.name == b.name && a.total > b.total)
}

/// `v` merges the entries of `entries` that describe its volume: it has
/// their name, size and file system, and their least available space.
pub open spec fn merges(entries: Seq<VolumeView>, v: VolumeView, by_fs: bool) -> bool {
    &&& exists|k: int| 0 <= k < entries.len() && same_volume(#[trigger] entries[k], v, by_fs) && entries[k].available == v.available
    &&& forall|k: int| 0 <= k < entries.len() && same_volume(#[trigger] entries[k], v, by_fs) ==> v.available <= entries[k].available
}

/// Some volume of `out` is the one that `v` describes.
pub open spec fn listed(v: VolumeView, out: Seq<VolumeView>, by_fs: bool) -> bool {
    exists|i: int| 0 <= i < out.len() && same_volume(v, #[trigger] out[i], by_fs)
}

/// `s[k]` describes a volume that no earlier entry of `s` describes.
pub open spec fn first_of_volume(s: Seq<VolumeView>, k: int, by_fs: bool) -> bool {
    !exists|m: int| 0 <= m < k && same_volume(#[trigger] s[m], s[k], by_fs)
}

/// The number of different volumes that the entries of `s` describe.
pub open spec fn volume_count(s: Seq<VolumeView>, by_fs: bool) -> nat
    decreases s.len(),
{
    if s.len() == 0 {
        0
    } else {
        volume_count(s.drop_last(), by_fs) + if first_of_volume(s, s.len() - 1, by_fs) { 1nat } else { 0nat }
    }
}

/// `out` lists each volume of `entries` once, merged, in display order.
pub open spec fn merged_volumes(entries: Seq<VolumeView>, out: Seq<VolumeView>, by_fs: bool) -> bool {
    &&& out.len() == volume_count(entries, by_fs)
    &&& forall|i: int| 0 <= i < out.len() ==> #[trigger] merges(entries, out[i], by_fs)
    &&& forall|k: int| 0 <= k < entries.len() ==> #[trigger] listed(entries[k], out, by_fs)
    &&& forall|i: int, j: int| 0 <= i < j < out.len() ==> !same_volume(#[trigger] out[i], #[trigger] out[j], by_fs)
    &&& forall|i: int, j: int| 0 <= i < j < out.len() ==> !volume_before(#[trigger] out[j], #[trigger] out[i])
}

/// The views of a list of entries.
pub open spec fn entry_views(s: Seq<MountEntry>) -> Seq<VolumeView> {
    s.map_values(|e: MountEntry| e@)
}

/// The views of a list of volumes.
pub open spec fn disk_views(s: Seq<DiskInfo>) -> Seq<VolumeView> {
    s.map_values(|d: DiskInfo| d@)
}

proof fn lemma_volume_order(a: VolumeView, b: VolumeView, c: VolumeView)
    ensures
        !volume_before(a, a),
        !(volume_before(a, b) && volume_before(b, a)),
        !volume_before(b, a) && !volume_before(c, b) ==> !volume_before(c, a),
        volume_before(a, b) && !volume_before(c, b) ==> volume_before(a, c),
        !volume_before(a, b) && !volume_before(b, a) ==> a.name == b.name && a.total == b.total,
{
    lemma_chars_lt_total(a.name, b.name);
    lemma_chars_lt_total(b.name, c.name);
    lemma_chars_lt_total(a.name, c.name);
    lemma_chars_lt_total(a.name, a.name);
    if chars_lt(a.name, b.name) && chars_lt(b.name, c.name) {
        lemma_chars_lt_transitive(a.name, b.name, c.name);
    }
    if chars_lt(c.name, b.name) && chars_lt(b.name, a.name) {
        lemma_chars_lt_transitive(c.name, b.name, a.name);
    }
    if chars_lt(a.name, b.name) && chars_lt(c.name, a.name) {
        lemma_chars_lt_transitive(c.name, a.name, b.name);
    }
}

proof fn lemma_merges_other(pre: Seq<VolumeView>, v: VolumeView, e: VolumeView, by_fs: bool)
    requires
        merges(pre, v, by_fs),
        !same_volume(e, v, by_fs),
    ensures
        merges(pre.push(e), v, by_fs),
{
    let post = pre.push(e);
    let w = choose|w: int| 0 <= w < pre.len() && same_volume(#[trigger] pre[w], v, by_fs) && pre[w].available == v.available;
    assert(post[w] == pre[w]);
    assert forall|w2: int| 0 <= w2 < post.len() && same_volume(#[trigger] post[w2], v, by_fs) implies v.available <= post[w2].available by {
        if w2 < pre.len() {
            assert(post[w2] == pre[w2]);
        }
    }
}

proof fn lemma_merges_same(pre: Seq<VolumeView>, v: VolumeView, e: VolumeView, by_fs: bool)
    requires
        merges(pre, v, by_fs),
        same_volume(e, v, by_fs),
    ensures
        merges(pre.push(e), VolumeView { available: if e.available < v.available { e.available } else { v.available }, ..v }, by_fs),
{
    let post = pre.push(e);
    let nv = VolumeView { available: if e.available < v.available { e.available } else { v.available }, ..v };
    if e.available < v.available {
        assert(post[pre.len() as int] == e);
    } else {
        let w = choose|w: int| 0 <= w < pre.len() && same_volume(#[trigger] pre[w], v, by_fs) && pre[w].available == v.available;
        assert(post[w] == pre[w]);
    }
    assert forall|w2: int| 0 <= w2 < post.len() && same_volume(#[trigger] post[w2], nv, by_fs) implies nv.available <= post[w2].available by {
        if w2 < pre.len() {
            assert(post[w2] == pre[w2]);
        }
    }
}

proof fn lemma_merges_new(pre: Seq<VolumeView>, e: VolumeView, by_fs: bool)
    requires
        forall|m: int| 0 <= m < pre.len() ==> !same_volume(#[trigger] pre[m], e, by_fs),
    ensures
        merges(pre.push(e), e, by_fs),
{
    let post = pre.push(e);
    assert(post[pre.len() as int] == e);
    assert forall|w2: int| 0 <= w2 < post.len() && same_volume(#[trigger] post[w2], e, by_fs) implies e.available <= post[w2].available by {
        if w2 < pre.len() {
            assert(post[w2] == pre[w2]);
        }
    }
}

fn copy_entry(e: &MountEntry, available: u64) -> (res: MountEntry)
    ensures
        res@ == (VolumeView { available, ..e@ }),
{
    MountEntry {
        name: e.name.clone(),
        file_system: e.file_system.clone(),
        total_space: e.total_space,
        available_space: available,
    }
}

fn same_volume_exec(a: &MountEntry, b: &MountEntry, by_fs: bool) -> (res: bool)
    ensures
        res == same_volume(a@, b@, by_fs),
{
    a.total_space == b.total_space && a.name == b.name && (!by_fs || a.file_system == b.file_system)
}

/// `gs` holds the merged volumes of the first `k` entries of `ev`, each once.
spec fn grouped(ev: Seq<VolumeView>, k: int, gs: Seq<VolumeView>, by_fs: bool) -> bool {
    &&& gs.len() == volume_count(ev.take(k), by_fs)
    &&& forall|i: int| 0 <= i < gs.len() ==> merges(ev.take(k), #[trigger] gs[i], by_fs)
    &&& forall|m: int| 0 <= m < k ==> listed(#[trigger] ev[m], gs, by_fs)
    &&& forall|i: int, j: int| 0 <= i < j < gs.len() ==> !same_volume(#[trigger] gs[i], #[trigger] gs[j], by_fs)
}

/// Folding in an entry whose volume is already listed at `j`.
#[verifier::spinoff_prover]
#[verifier::rlimit(40)]
proof fn lemma_grouped_merge(ev: Seq<VolumeView>, k: int, gs: Seq<VolumeView>, j: int, by_fs: bool)
    requires
        0 <= k < ev.len(),
        grouped(ev, k, gs, by_fs),
        0 <= j < gs.len(),
        same_volume(gs[j], ev[k], by_fs),
    ensures
        grouped(ev, k + 1, gs.update(j, VolumeView {
            available: if ev[k].available < gs[j].available { ev[k].available } else { gs[j].available },
            ..gs[j]
        }), by_fs),
{
    let e = ev[k];
    let pre = ev.take(k);
    assert(ev.take(k + 1) =~= pre.push(e));
    let nv = VolumeView { available: if e.available < gs[j].available { e.available } else { gs[j].available }, ..gs[j] };
    let now = gs.update(j, nv);
    let post = ev.take(k + 1);
    assert(post.drop_last() =~= pre);
    let w = choose|w: int| 0 <= w < pre.len() && same_volume(#[trigger] pre[w], gs[j], by_fs) && pre[w].available == gs[j].available;
    assert(post[w] == pre[w]);
    assert(same_volume(post[w], post[k], by_fs));
    assert(!first_of_volume(post, k, by_fs));
    assert forall|i: int| 0 <= i < now.len() implies merges(pre.push(e), #[trigger] now[i], by_fs) by {
        if i == j {
            lemma_merges_same(pre, gs[i], e, by_fs);
        } else {
            if i < j {
                assert(!same_volume(gs[i], gs[j], by_fs));
            } else {
                assert(!same_volume(gs[j], gs[i], by_fs));
            }
            lemma_merges_other(pre, gs[i], e, by_fs);
        }
    }
    assert forall|m: int| 0 <= m < k + 1 implies listed(#[trigger] ev[m], now, by_fs) by {
        if m == k {
            assert(same_volume(ev[m], now[j], by_fs));
        } else {
            let i = choose|i: int| 0 <= i < gs.len() && same_volume(ev[m], #[trigger] gs[i], by_fs);
            assert(same_volume(ev[m], now[i], by_fs));
        }
    }
    assert forall|a: int, b: int| 0 <= a < b < now.len() implies !same_volume(#[trigger] now[a], #[trigger] now[b], by_fs) by {
        assert(!same_volume(gs[a], gs[b], by_fs));
    }
}

/// Appending an entry whose volume is not listed yet.
proof fn lemma_grouped_push(ev: Seq<VolumeView>, k: int, gs: Seq<VolumeView>, by_fs: bool)
    requires
        0 <= k < ev.len(),
        grouped(ev, k, gs, by_fs),
        forall|i: int| 0 <= i < gs.len() ==> !same_volume(#[trigger] gs[i], ev[k], by_fs),
    ensures
        grouped(ev, k + 1, gs.push(ev[k]), by_fs),
{
    let e = ev[k];
    let pre = ev.take(k);
    assert(ev.take(k + 1) =~= pre.push(e));
    let now = gs.push(e);
    assert forall|m: int| 0 <= m < pre.len() implies !same_volume(#[trigger] pre[m], e, by_fs) by {
        let i = choose|i: int| 0 <= i < gs.len() && same_volume(ev[m], #[trigger] gs[i], by_fs);
        assert(!same_volume(gs[i], e, by_fs));
    }
    let post = ev.take(k + 1);
    assert(post.drop_last() =~= pre);
    assert forall|m: int| 0 <= m < k implies !same_volume(#[trigger] post[m], post[k], by_fs) by {
        assert(post[m] == pre[m]);
    }
    assert(first_of_volume(post, k, by_fs));
    assert forall|i: int| 0 <= i < now.len() implies merges(pre.push(e), #[trigger] now[i], by_fs) by {
        if i == gs.len() {
            lemma_merges_new(pre, e, by_fs);
        } else {
            lemma_merges_other(pre, gs[i], e, by_fs);
        }
    }
    assert forall|m: int| 0 <= m < k + 1 implies listed(#[trigger] ev[m], now, by_fs) by {
        if m == k {
            assert(same_volume(ev[m], now[gs.len() as int], by_fs));
        } else {
            let i = choose|i: int| 0 <= i < gs.len() && same_volume(ev[m], #[trigger] gs[i], by_fs);
            assert(same_volume(ev[m], now[i], by_fs));
        }
    }
    assert forall|a: int, b: int| 0 <= a < b < now.len() implies !same_volume(#[trigger] now[a], #[trigger] now[b], by_fs) by {
        if b == gs.len() {
            assert(!same_volume(gs[a], e, by_fs));
        } else {
            assert(!same_volume(gs[a], gs[b], by_fs));
        }
    }
}

/// Merges the entries that describe the same volume, in order of first appearance.
fn group_volumes(entries: &Vec<MountEntry>, by_fs: bool) -> (groups: Vec<MountEntry>)
    ensures
        grouped(entry_views(entries@), entries.len() as int, entry_views(groups@), by_fs),
{
    let ghost ev = entry_views(entries@);
    let mut groups: Vec<MountEntry> = Vec::new();
    let mut k: usize = 0;
    assert(grouped(ev, 0, entry_views(groups@), by_fs));
    while k < entries.len()
        invariant
            k <= entries.len(),
            ev == entry_views(entries@),
            grouped(ev, k as int, entry_views(groups@), by_fs),
        decreases entries.len() - k,
    {
        let e = &entries[k];
        let ghost gs = entry_views(groups@);
        assert(ev[k as int] == e@);
        let mut j: usize = 0;
        while j < groups.len() && !same_volume_exec(&groups[j], e, by_fs)
            invariant
                j <= groups.len(),
                gs == entry_views(groups@),
                forall|i: int| 0 <= i < j ==> !same_volume(#[trigger] gs[i], e@, by_fs),
            decreases groups.len() - j,
        {
            j = j + 1;
        }
        if j < groups.len() {
            let a = groups[j].available_space;
            let na = if e.available_space < a { e.available_space } else { a };
            let item = copy_entry(&groups[j], na);
            groups.set(j, item);
            proof {
                lemma_grouped_merge(ev, k as int, gs, j as int, by_fs);
                assert(entry_views(groups@) =~= gs.update(j as int, VolumeView {
                    available: if ev[k as int].available < gs[j as int].available { ev[k as int].available } else { gs[j as int].available },
                    ..gs[j as int]
                }));
            }
        } else {
            let item = copy_entry(e, e.available_space);
            groups.push(item);
            proof {
                lemma_grouped_push(ev, k as int, gs, by_fs);
                assert(entry_views(groups@) =~= gs.push(ev[k as int]));
            }
        }
        k = k + 1;
    }
    groups
}

fn volume_before_exec(a: &MountEntry, b: &MountEntry) -> (res: bool)
    ensures
        res == volume_before(a@, b@),
{
    let an = chars_of(a.name.as_str());
    let bn = chars_of(b.name.as_str());
    chars_less(&an, &bn) || (chars_equal(&an, &bn) && a.total_space > b.total_space)
}

/// Orders volumes by name, larger first among equal names; ties keep their order.
fn order_volumes(groups: &Vec<MountEntry>, by_fs: bool) -> (res: Vec<MountEntry>)
    requires
        forall|i: int, j: int| 0 <= i < j < groups.len() ==> !same_volume(#[trigger] entry_views(groups@)[i], #[trigger] entry_views(groups@)[j], by_fs),
    ensures
        forall|i: int, j: int| 0 <= i < j < res.len() ==> !same_volume(#[trigger] entry_views(res@)[i], #[trigger] entry_views(res@)[j], by_fs),
        res.len() == groups.len(),
        forall|i: int| 0 <= i < res.len() ==> entry_views(groups@).contains(#[trigger] entry_views(res@)[i]),
        forall|i: int| 0 <= i < groups.len() ==> entry_views(res@).contains(#[trigger] entry_views(groups@)[i]),
        forall|i: int, j: int| 0 <= i < j < res.len() ==> !volume_before(#[trigger] entry_views(res@)[j], #[trigger] entry_views(res@)[i]),
{
    let ghost gsv = entry_views(groups@);
    let mut res: Vec<MountEntry> = Vec::new();
    let n = groups.len();
    let mut g: usize = 0;
    while g < n
        invariant
            g <= n,
            n == gsv.len(),
            gsv == entry_views(groups@),
            res.len() == g,
            forall|i: int| 0 <= i < res.len() ==> exists|h: int| 0 <= h < g && #[trigger] entry_views(res@)[i] == gsv[h],
            forall|h: int| 0 <= h < g ==> entry_views(res@).contains(#[trigger] gsv[h]),
            forall|i: int, j: int| 0 <= i < j < res.len() ==> !volume_before(#[trigger] entry_views(res@)[j], #[trigger] entry_views(res@)[i]),
            forall|i: int, j: int| 0 <= i < j < res.len() ==> !same_volume(#[trigger] entry_views(res@)[i], #[trigger] entry_views(res@)[j], by_fs),
            forall|i: int, j: int| 0 <= i < j < n ==> !same_volume(#[trigger] gsv[i], #[trigger] gsv[j], by_fs),
        decreases n - g,
    {
        let item = copy_entry(&groups[g], groups[g].available_space);
        assert(item@ == gsv[g as int]);
        let ghost cur = entry_views(res@);
        let mut pos: usize = 0;
        while pos < res.len() && !volume_before_exec(&item, &res[pos])
            invariant
                pos <= res.len(),
                cur == entry_views(res@),
                forall|j: int| 0 <= j < pos ==> !volume_before(item@, #[trigger] cur[j]),
            decreases res.len() - pos,
        {
            pos = pos + 1;
        }
        let ghost iv = item@;
        res.insert(pos, item);
        proof {
            let now = entry_views(res@);
            assert(now =~= cur.insert(pos as int, iv));
            cur.insert_ensures(pos as int, iv);
            assert forall|a: int, b: int| 0 <= a < b < now.len() implies !volume_before(#[trigger] now[b], #[trigger] now[a]) by {
                if b < pos {
                } else if a < pos && b == pos {
                } else if a < pos && b > pos {
                    assert(now[b] == cur[b - 1]);
                    assert(!volume_before(cur[b - 1], cur[a]));
                } else if a == pos {
                    assert(now[b] == cur[b - 1]);
                    lemma_volume_order(iv, cur[pos as int], cur[b - 1]);
                    if b - 1 > pos {
                        assert(!volume_before(cur[b - 1], cur[pos as int]));
                    }
                } else {
                    assert(now[a] == cur[a - 1]);
                    assert(now[b] == cur[b - 1]);
                }
            }
            assert forall|a: int, b: int| 0 <= a < b < now.len() implies !same_volume(#[trigger] now[a], #[trigger] now[b], by_fs) by {
                if a == pos {
                    assert(now[b] == cur[b - 1]);
                    let h2 = choose|h: int| 0 <= h < g && #[trigger] cur[b - 1] == gsv[h];
                    assert(!same_volume(gsv[h2], gsv[g as int], by_fs));
                } else if b == pos {
                    let h2 = choose|h: int| 0 <= h < g && #[trigger] cur[a] == gsv[h];
                    assert(!same_volume(gsv[h2], gsv[g as int], by_fs));
                } else if a < pos && b > pos {
                    assert(now[b] == cur[b - 1]);
                } else if a > pos {
                    assert(now[a] == cur[a - 1]);
                    assert(now[b] == cur[b - 1]);
                }
            }
            assert forall|i: int| 0 <= i < now.len() implies exists|h: int| 0 <= h < g + 1 && #[trigger] now[i] == gsv[h] by {
                if i < pos {
                    assert(now[i] == cur[i]);
                } else if i == pos {
                    assert(now[i] == gsv[g as int]);
                } else {
                    assert(now[i] == cur[i - 1]);
                }
            }
            assert forall|h: int| 0 <= h < g + 1 implies now.contains(#[trigger] gsv[h]) by {
                if h == g {
                    assert(now[pos as int] == gsv[h]);
                } else {
                    let i = choose|i: int| 0 <= i < cur.len() && cur[i] == gsv[h];
                    if i < pos {
                        assert(now[i] == cur[i]);
                    } else {
                        assert(now[i + 1] == cur[i]);
                    }
                }
            }
        }
        g = g + 1;
    }
    proof {
        assert forall|i: int| 0 <= i < res.len() implies gsv.contains(#[trigger] entry_views(res@)[i]) by {
            let h = choose|h: int| 0 <= h < n && #[trigger] entry_views(res@)[i] == gsv[h];
        }
    }
    res
}

/// Merges the entries that describe the same volume (same name and size,
/// and same file system when `by_fs` holds), keeping the least available
/// space among them, and orders the volumes by name, larger first among
/// equal names.
pub fn merge_volumes(entries: &Vec<MountEntry>, by_fs: bool) -> (res: Vec<MountEntry>)
    ensures
        merged_volumes(entry_views(entries@), entry_views(res@), by_fs),
{
    let groups = group_volumes(entries, by_fs);
    let ghost gs = entry_views(groups@);
    let res = order_volumes(&groups, by_fs);
    proof {
        let ev = entry_views(entries@);
        let out = entry_views(res@);
        assert(ev.take(ev.len() as int) =~= ev);
        assert forall|i: int| 0 <= i < out.len() implies merges(ev, #[trigger] out[i], by_fs) by {
            assert(gs.contains(out[i]));
            let h = choose|h: int| 0 <= h < gs.len() && gs[h] == out[i];
            assert(merges(ev.take(ev.len() as int), gs[h], by_fs));
        }
        assert forall|m: int| 0 <= m < ev.len() implies listed(#[trigger] ev[m], out, by_fs) by {
            let h = choose|h: int| 0 <= h < gs.len() && same_volume(ev[m], #[trigger] gs[h], by_fs);
            assert(out.contains(gs[h]));
            let i = choose|i: int| 0 <= i < out.len() && out[i] == gs[h];
            assert(same_volume(ev[m], out[i], by_fs));
        }
    }
    res
}

/// Leaves out the volumes of size zero.
pub open spec fn sized_volumes(s: Seq<VolumeView>) -> Seq<VolumeView> {
    s.filter(|v: VolumeView| v.total > 0)
}

/// The views with the file system left out.
pub open spec fn without_file_systems(s: Seq<VolumeView>) -> Seq<VolumeView> {
    s.map_values(|v: VolumeView| VolumeView { file_system: Seq::empty(), ..v })
}

/// `out` is what the collector reports for the mounted volumes `entries`:
/// entries of size zero are left out, the rest are merged by name, file
/// system and size and put in display order, and the file system is dropped.
pub open spec fn collected_volumes(entries: Seq<VolumeView>, out: Seq<VolumeView>) -> bool {
    exists|m: Seq<VolumeView>| merged_volumes(sized_volumes(entries), m, true) && out == without_file_systems(m)
}

fn disk_of(e: &MountEntry) -> (d: DiskInfo)
    ensures
        d@ == (VolumeView { file_system: Seq::empty(), ..e@ }),
{
    DiskInfo { name: e.name.clone(), total_space: e.total_space, available_space: e.available_space }
}

fn entry_of(d: &DiskInfo) -> (e: MountEntry)
    ensures
        e@ == d@,
{
    MountEntry {
        name: d.name.clone(),
        file_system: String::new(),
        total_space: d.total_space,
        available_space: d.available_space,
    }
}

fn disks_of(entries: &Vec<MountEntry>) -> (disks: Vec<DiskInfo>)
    ensures
        disk_views(disks@) == without_file_systems(entry_views(entries@)),
{
    let mut disks: Vec<DiskInfo> = Vec::new();
    let mut i: usize = 0;
    while i < entries.len()
        invariant
            i <= entries.len(),
            disks.len() == i,
            disk_views(disks@) == without_file_systems(entry_views(entries@)).take(i as int),
        decreases entries.len() - i,
    {
        let d = disk_of(&entries[i]);
        let ghost before = disks@;
        disks.push(d);
        proof {
            let w = without_file_systems(entry_views(entries@));
            assert forall|j: int| 0 <= j <= i implies #[trigger] disk_views(disks@)[j] == w[j] by {
                if j < i {
                    assert(disks@[j] == before[j]);
                    assert(disk_views(before)[j] == w.take(i as int)[j]);
                }
            }
            assert(disk_views(disks@) =~= w.take(i + 1));
        }
        i = i + 1;
    }
    proof {
        assert(without_file_systems(entry_views(entries@)).take(entries.len() as int) =~= without_file_systems(entry_views(entries@)));
    }
    disks
}

proof fn lemma_merged_sizes(ev: Seq<VolumeView>, m: Seq<VolumeView>)
    requires
        merged_volumes(sized_volumes(ev), m, true),
    ensures
        forall|i: int| 0 <= i < m.len() ==> (#[trigger] m[i]).total > 0,
{
    let sv = sized_volumes(ev);
    assert forall|i: int| 0 <= i < m.len() implies (#[trigger] m[i]).total > 0 by {
        assert(merges(sv, m[i], true));
        let k = choose|k: int| 0 <= k < sv.len() && same_volume(#[trigger] sv[k], m[i], true) && sv[k].available == m[i].available;
        ev.lemma_filter_pred(|v: VolumeView| v.total > 0, k);
    }
}

/// Builds the list of volumes from what the system reports about its mounts:
/// volumes of size zero are left out; entries with the same name, file
/// system and size are one volume, with the least available space among
/// them; volumes are ordered by name, larger ones first among equal names.
pub fn collect_disks(entries: &Vec<MountEntry>) -> (disks: Vec<DiskInfo>)
    ensures
        collected_volumes(entry_views(entries@), disk_views(disks@)),
        forall|i: int| 0 <= i < disks.len() ==> (#[trigger] disks@[i]).total_space > 0,
{
    let ghost ev = entry_views(entries@);
    let mut sized: Vec<MountEntry> = Vec::new();
    let mut k: usize = 0;
    while k < entries.len()
        invariant
            k <= entries.len(),
            ev == entry_views(entries@),
            entry_views(sized@) == sized_volumes(ev.take(k as int)),
        decreases entries.len() - k,
    {
        let ghost before = entry_views(sized@);
        if entries[k].total_space > 0 {
            let item = copy_entry(&entries[k], entries[k].available_space);
            sized.push(item);
        }
        proof {
            let t = ev.take(k + 1);
            assert(t.drop_last() =~= ev.take(k as int));
            assert(t.last() == ev[k as int]);
            reveal(Seq::filter);
            assert(entry_views(sized@) =~= sized_volumes(t));
        }
        k = k + 1;
    }
    proof {
        assert(ev.take(entries.len() as int) =~= ev);
    }
    let merged = merge_volumes(&sized, true);
    let disks = disks_of(&merged);
    proof {
        let m = entry_views(merged@);
        lemma_merged_sizes(ev, m);
        assert(disk_views(disks@).len() == m.len());
        assert forall|i: int| 0 <= i < disks.len() implies (#[trigger] disks@[i]).total_space > 0 by {
            assert(disk_views(disks@)[i] == disks@[i]@);
            assert(disk_views(disks@)[i] == without_file_systems(m)[i]);
            assert(m[i].total > 0);
        }
    }
    disks
}

/// Merging without the file system ignores it in the result as well.
#[verifier::spinoff_prover]
#[verifier::rlimit(50)]
proof fn lemma_merged_without_file_systems(entries: Seq<VolumeView>, out: Seq<VolumeView>)
    requires
        merged_volumes(entries, out, false),
        forall|k: int| 0 <= k < entries.len() ==> (#[trigger] entries[k]).file_system == Seq::<char>::empty(),
    ensures
        merged_volumes(entries, without_file_systems(out), false),
{
    let d = without_file_systems(out);
    assert forall|i: int| 0 <= i < d.len() implies merges(entries, #[trigger] d[i], false) by {
        let o = out[i];
        let v = d[i];
        assert(v == VolumeView { file_system: Seq::empty(), ..o });
        assert(merges(entries, o, false));
        let w = choose|w: int| 0 <= w < entries.len() && same_volume(#[trigger] entries[w], o, false) && entries[w].available == o.available;
        assert(same_volume(entries[w], v, false));
        assert forall|k: int| 0 <= k < entries.len() && same_volume(#[trigger] entries[k], v, false) implies v.available <= entries[k].available by {
            assert(same_volume(entries[k], o, false));
        }
    }
    assert forall|k: int| 0 <= k < entries.len() implies listed(#[trigger] entries[k], d, false) by {
        assert(listed(entries[k], out, false));
        let i = choose|i: int| 0 <= i < out.len() && same_volume(entries[k], #[trigger] out[i], false);
        assert(same_volume(entries[k], d[i], false));
    }
    assert forall|i: int, j: int| 0 <= i < j < d.len() implies !same_volume(#[trigger] d[i], #[trigger] d[j], false) by {
        assert(!same_volume(out[i], out[j], false));
    }
    assert forall|i: int, j: int| 0 <= i < j < d.len() implies !volume_before(#[trigger] d[j], #[trigger] d[i]) by {
        assert(!volume_before(out[j], out[i]));
    }
}

/// Merges the volumes that share a name and a size, keeping the least
/// available space among them, and orders them by name, larger ones first
/// among equal names.
pub fn deduplicate_disks(disks: &Vec<DiskInfo>) -> (res: Vec<DiskInfo>)
    ensures
        merged_volumes(disk_views(disks@), disk_views(res@), false),
{
    let mut entries: Vec<MountEntry> = Vec::new();
    let mut i: usize = 0;
    while i < disks.len()
        invariant
            i <= disks.len(),
            entries.len() == i,
            entry_views(entries@) == disk_views(disks@).take(i as int),
        decreases disks.len() - i,
    {
        let e = entry_of(&disks[i]);
        let ghost before = entries@;
        entries.push(e);
        proof {
            assert forall|j: int| 0 <= j <= i implies #[trigger] entry_views(entries@)[j] == disk_views(disks@)[j] by {
                if j < i {
                    assert(entries@[j] == before[j]);
                    assert(entry_views(before)[j] == disk_views(disks@).take(i as int)[j]);
                }
            }
            assert(entry_views(entries@) =~= disk_views(disks@).take(i + 1));
        }
        i = i + 1;
    }
    proof {
        assert(disk_views(disks@).take(disks.len() as int) =~= disk_views(disks@));
    }
    let merged = merge_volumes(&entries, false);
    let res = disks_of(&merged);
    proof {
        lemma_merged_without_file_systems(disk_views(disks@), entry_views(merged@));
    }
    res
}

/// Sum of the used space (size less available space) of `s`.
pub open spec fn used_space_total(s: Seq<VolumeView>) -> int
    decreases s.len(),
{
    if s.len() == 0 {
        0
    } else {
        used_space_total(s.drop_last()) + (s.last().total - s.last().available)
    }
}

/// Sum of the sizes of `s`.
pub open spec fn space_total(s: Seq<VolumeView>) -> int
    decreases s.len(),
{
    if s.len() == 0 {
        0
    } else {
        space_total(s.drop_last()) + s.last().total
    }
}

proof fn lemma_used_within_total(s: Seq<VolumeView>)
    requires
        forall|i: int| 0 <= i < s.len() ==> (#[trigger] s[i]).available <= s[i].total,
    ensures
        0 <= used_space_total(s) <= space_total(s),
    decreases s.len(),
{
    if s.len() > 0 {
        lemma_used_within_total(s.drop_last());
    }
}

proof fn lemma_totals_grow(s: Seq<VolumeView>, i: int)
    requires
        0 <= i <= s.len(),
        forall|j: int| 0 <= j < s.len() ==> (#[trigger] s[j]).available <= s[j].total,
    ensures
        space_total(s.take(i)) <= space_total(s),
    decreases s.len() - i,
{
    if i < s.len() {
        lemma_totals_grow(s, i + 1);
        assert(s.take(i + 1).drop_last() =~= s.take(i));
    } else {
        assert(s.take(i) =~= s);
    }
}

/// The used space and the size of all the volumes together.
pub fn disk_totals(disks: &Vec<DiskInfo>) -> (res: (u64, u64))
    requires
        forall|i: int| 0 <= i < disks.len() ==> (#[trigger] disks@[i]).available_space <= disks@[i].total_space,
        space_total(disk_views(disks@)) <= u64::MAX,
    ensures
        res.0 == used_space_total(disk_views(disks@)),
        res.1 == space_total(disk_views(disks@)),
{
    let ghost s = disk_views(disks@);
    let mut used: u64 = 0;
    let mut total: u64 = 0;
    let mut i: usize = 0;
    while i < disks.len()
        invariant
            i <= disks.len(),
            s == disk_views(disks@),
            forall|j: int| 0 <= j < disks.len() ==> (#[trigger] disks@[j]).available_space <= disks@[j].total_space,
            space_total(s) <= u64::MAX,
            used == used_space_total(s.take(i as int)),
            total == space_total(s.take(i as int)),
        decreases disks.len() - i,
    {
        proof {
            assert(s.take(i + 1).drop_last() =~= s.take(i as int));
            assert(forall|j: int| 0 <= j < s.len() ==> (#[trigger] s[j]).available <= s[j].total) by {
                assert(forall|j: int| 0 <= j < s.len() ==> #[trigger] s[j] == disks@[j]@);
            }
            lemma_totals_grow(s, i + 1);
            lemma_used_within_total(s.take(i + 1));
            assert forall|j: int| 0 <= j < s.take(i + 1).len() implies (#[trigger] s.take(i + 1)[j]).available <= s.take(i + 1)[j].total by {
                assert(s.take(i + 1)[j] == s[j]);
            }
        }
        let d = &disks[i];
        used = used + (d.total_space - d.available_space);
        total = total + d.total_space;
        i = i + 1;
    }
    proof {
        assert(s.take(disks.len() as int) =~= s);
    }
    (used, total)
}

/// The disk panel: the volumes and the selected line.
pub struct DiskComponent {
    pub disks: Vec<DiskInfo>,
    pub theme: Theme,
    pub selected_index: usize,
}

impl DiskComponent {
    /// A panel over `disks` with the first line selected.
    pub fn new(disks: Vec<DiskInfo>, theme: Theme) -> (c: Self)
        ensures
            c.disks@ == disks@,
            c.theme == theme,
            c.selected_index == 0,
    {
        DiskComponent { disks, theme, selected_index: 0 }
    }

    /// Moves the selection up or down within the merged volumes; other
    /// actions change nothing.
    pub fn update(&mut self, action: Action)
        ensures
            final(self).disks@ == old(self).disks@,
            final(self).theme == old(self).theme,
            final(self).selected_index == match action {
                Action::MoveUp => if old(self).selected_index > 0 {
                    (old(self).selected_index - 1) as usize
                } else {
                    old(self).selected_index
                },
                Action::MoveDown => if old(self).selected_index + 1 < volume_count(disk_views(old(self).disks@), false) {
                    (old(self).selected_index + 1) as usize
                } else {
                    old(self).selected_index
                },
                _ => old(self).selected_index,
            },
    {
        match action {
            Action::MoveUp => {
                if self.selected_index > 0 {
                    self.selected_index = self.selected_index - 1;
                }
            },
            Action::MoveDown => {
                let count = deduplicate_disks(&self.disks).len();
                if count > 0 && self.selected_index < count - 1 {
                    self.selected_index = self.selected_index + 1;
                }
            },
            _ => {},
        }
    }
}

/// A list whose volumes are all different counts each of them.
proof fn lemma_count_distinct(s: Seq<VolumeView>, by_fs: bool)
    requires
        forall|i: int, j: int| 0 <= i < j < s.len() ==> !same_volume(#[trigger] s[i], #[trigger] s[j], by_fs),
    ensures
        volume_count(s, by_fs) == s.len(),
    decreases s.len(),
{
    if s.len() > 0 {
        let t = s.drop_last();
        assert forall|i: int, j: int| 0 <= i < j < t.len() implies !same_volume(#[trigger] t[i], #[trigger] t[j], by_fs) by {
            assert(!same_volume(s[i], s[j], by_fs));
        }
        lemma_count_distinct(t, by_fs);
        assert forall|m: int| 0 <= m < s.len() - 1 implies !same_volume(#[trigger] s[m], s[s.len() - 1], by_fs) by {
            assert(!same_volume(s[m], s[s.len() - 1], by_fs));
        }
        assert(first_of_volume(s, s.len() - 1, by_fs));
    }
}

/// A merged list, merged again, is itself a valid result.
proof fn lemma_merged_merges_itself(e: Seq<VolumeView>, o: Seq<VolumeView>)
    requires
        merged_volumes(e, o, false),
    ensures
        merged_volumes(o, o, false),
{
    lemma_count_distinct(o, false);
    assert forall|i: int| 0 <= i < o.len() implies merges(o, #[trigger] o[i], false) by {
        assert forall|k: int| 0 <= k < o.len() && same_volume(#[trigger] o[k], o[i], false) implies o[i].available <= o[k].available by {
            if k < i {
                assert(!same_volume(o[k], o[i], false));
            } else if k > i {
                assert(!same_volume(o[i], o[k], false));
            }
        }
        assert(same_volume(o[i], o[i], false));
    }
    assert forall|k: int| 0 <= k < o.len() implies listed(#[trigger] o[k], o, false) by {
        assert(same_volume(o[k], o[k], false));
    }
}

/// In a merged list, later volumes come strictly after earlier ones.
proof fn lemma_merged_strictly_ordered(e: Seq<VolumeView>, o: Seq<VolumeView>, i: int, j: int)
    requires
        merged_volumes(e, o, false),
        0 <= i < j < o.len(),
    ensures
        volume_before(o[i], o[j]),
{
    assert(!volume_before(o[j], o[i]));
    assert(!same_volume(o[i], o[j], false));
    lemma_volume_order(o[i], o[j], o[j]);
}

/// Two merges of the same entries, without regard to file systems, agree
/// on every name and size, position by position.
proof fn lemma_merged_keys_agree(e: Seq<VolumeView>, a: Seq<VolumeView>, b: Seq<VolumeView>, n: int)
    requires
        merged_volumes(e, a, false),
        merged_volumes(e, b, false),
        0 <= n <= a.len(),
    ensures
        a.len() == b.len(),
        forall|k: int| 0 <= k < n ==> same_volume(#[trigger] a[k], b[k], false),
    decreases n,
{
    if n > 0 {
        lemma_merged_keys_agree(e, a, b, n - 1);
        let i = n - 1;
        if !same_volume(a[i], b[i], false) {
            lemma_volume_order(a[i], b[i], b[i]);
            if volume_before(a[i], b[i]) {
                lemma_listed_in_other(e, a, b, i);
                let j = choose|j: int| 0 <= j < b.len() && same_volume(a[i], #[trigger] b[j], false);
                lemma_position_of_key(e, a, b, i);
            } else {
                lemma_listed_in_other(e, b, a, i);
                let j = choose|j: int| 0 <= j < a.len() && same_volume(b[i], #[trigger] a[j], false);
                assert forall|k: int| 0 <= k < i implies same_volume(#[trigger] b[k], a[k], false) by {
                    assert(same_volume(a[k], b[k], false));
                }
                lemma_position_of_key(e, b, a, i);
            }
        }
    }
}

/// A volume of one merge is listed in another merge of the same entries.
proof fn lemma_listed_in_other(e: Seq<VolumeView>, a: Seq<VolumeView>, b: Seq<VolumeView>, i: int)
    requires
        merged_volumes(e, a, false),
        merged_volumes(e, b, false),
        0 <= i < a.len(),
    ensures
        listed(a[i], b, false),
{
    assert(merges(e, a[i], false));
    let k = choose|k: int| 0 <= k < e.len() && same_volume(#[trigger] e[k], a[i], false) && e[k].available == a[i].available;
    assert(listed(e[k], b, false));
    let j = choose|j: int| 0 <= j < b.len() && same_volume(e[k], #[trigger] b[j], false);
    assert(same_volume(a[i], b[j], false));
}

/// Where two merges agree before position `i`, and `a[i]` comes before
/// `b[i]`, the volume of `a[i]` stands at no position of `b`.
proof fn lemma_position_of_key(e: Seq<VolumeView>, a: Seq<VolumeView>, b: Seq<VolumeView>, i: int)
    requires
        merged_volumes(e, a, false),
        merged_volumes(e, b, false),
        0 <= i < a.len(),
        a.len() == b.len(),
        forall|k: int| 0 <= k < i ==> same_volume(#[trigger] a[k], b[k], false),
        volume_before(a[i], b[i]),
    ensures
        forall|j: int| 0 <= j < b.len() ==> !same_volume(a[i], #[trigger] b[j], false),
{
    assert forall|j: int| 0 <= j < b.len() implies !same_volume(a[i], #[trigger] b[j], false) by {
        if same_volume(a[i], b[j], false) {
            if j < i {
                assert(same_volume(a[j], b[j], false));
                assert(!same_volume(a[j], a[i], false));
            } else if j == i {
                lemma_volume_order(a[i], b[i], b[i]);
            } else {
                lemma_merged_strictly_ordered(e, b, i, j);
                lemma_volume_order(b[i], a[i], a[i]);
                lemma_volume_order(a[i], b[i], b[j]);
            }
        }
    }
}

/// The merge of a list of entries, without regard to file systems, is
/// determined by the entries: any two results that both leave the file
/// system empty are the same.
pub proof fn lemma_merge_is_unique(e: Seq<VolumeView>, a: Seq<VolumeView>, b: Seq<VolumeView>)
    requires
        merged_volumes(e, a, false),
        merged_volumes(e, b, false),
        forall|i: int| 0 <= i < a.len() ==> (#[trigger] a[i]).file_system == Seq::<char>::empty(),
        forall|i: int| 0 <= i < b.len() ==> (#[trigger] b[i]).file_system == Seq::<char>::empty(),
    ensures
        a == b,
{
    lemma_merged_keys_agree(e, a, b, a.len() as int);
    assert forall|i: int| 0 <= i < a.len() implies #[trigger] a[i] == b[i] by {
        assert(same_volume(a[i], b[i], false));
        assert(merges(e, a[i], false));
        assert(merges(e, b[i], false));
        let ka = choose|k: int| 0 <= k < e.len() && same_volume(#[trigger] e[k], a[i], false) && e[k].available == a[i].available;
        let kb = choose|k: int| 0 <= k < e.len() && same_volume(#[trigger] e[k], b[i], false) && e[k].available == b[i].available;
        assert(same_volume(e[ka], b[i], false));
        assert(same_volume(e[kb], a[i], false));
    }
    assert(a =~= b);
}

/// Deduplicating a deduplicated list of volumes changes nothing.
pub proof fn lemma_dedup_is_idempotent(d: Seq<DiskInfo>, once: Seq<DiskInfo>, twice: Seq<DiskInfo>)
    requires
        merged_volumes(disk_views(d), disk_views(once), false),
        merged_volumes(disk_views(once), disk_views(twice), false),
    ensures
        disk_views(twice) == disk_views(once),
{
    lemma_merged_merges_itself(disk_views(d), disk_views(once));
    lemma_merge_is_unique(disk_views(once), disk_views(twice), disk_views(once));
}

} // verus!
