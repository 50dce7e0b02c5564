//! Choices made while looking for the Intel graphics telemetry files: which
//! device node is Intel's, which counter files to read, and which sensors
//! stand in for a missing graphics temperature.

use vstd::prelude::*;
use crate::app_state::{char_vec_views, interface_cycle, interface_names, name_views};
use crate::text::{
    ascii_lower, chars_equal, chars_of, contains_sub, has_prefix, has_sub, lowercase, lowercase_chars,
    slice_chars, starts_with, string_of_chars, to_ascii_lowercase, trim, trim_seq,
};

verus! {

fn has_text(hay: &Vec<char>, needle: &str) -> (res: bool)
    ensures
        res == has_sub(hay@, needle@),
{
    contains_sub(hay, &chars_of(needle))
}

fn lower_of(v: &Vec<char>) -> (res: Vec<char>)
    ensures
        res@ == lowercase(v@),
{
    let s = string_of_chars(v);
    lowercase_chars(s.as_str())
}

/// The distinct paths, in text order.
pub fn sorted_distinct_paths(paths: &Vec<String>) -> (res: Vec<String>)
    ensures
        name_views(res@) == interface_cycle(name_views(paths@)),
{
    let names = interface_names(paths);
    let mut res: Vec<String> = Vec::new();
    let mut i: usize = 0;
    while i < names.len()
        invariant
            i <= names.len(),
            res.len() == i,
            name_views(res@) == char_vec_views(names@).take(i as int),
        decreases names.len() - i,
    {
        let ghost before = res@;
        res.push(string_of_chars(&names[i]));
        assert(name_views(res@) =~= char_vec_views(names@).take(i + 1)) by {
            assert forall|j: int| 0 <= j < i + 1 implies #[trigger] name_views(res@)[j] == char_vec_views(names@).take(i + 1)[j] by {
                if j < i {
                    assert(res@[j] == before[j]);
                    assert(name_views(before)[j] == char_vec_views(names@).take(i as int)[j]);
                }
            }
        }
        i = i + 1;
    }
    assert(char_vec_views(names@).take(names.len() as int) =~= char_vec_views(names@));
    res
}

/// Some path of `paths` lies under a `/gt/` directory.
pub open spec fn has_tile_path(paths: Seq<String>) -> bool {
    exists|i: int| 0 <= i < paths.len() && has_sub((#[trigger] paths[i])@, "/gt/"@)
}

/// The counter files to read: those under a `/gt/` directory when there are
/// any (a card-wide counter would count the first tile twice), else all.
pub fn prefer_tile_paths(paths: &Vec<String>) -> (res: Vec<String>)
    ensures
        has_tile_path(paths@) ==> name_views(res@) == name_views(paths@).filter(|p: Seq<char>| has_sub(p, "/gt/"@)),
        !has_tile_path(paths@) ==> name_views(res@) == name_views(paths@),
{
    let marker = chars_of("/gt/");
    let ghost src = name_views(paths@);
    let mut any = false;
    let mut k: usize = 0;
    while k < paths.len()
        invariant
            k <= paths.len(),
            marker@ == "/gt/"@,
            any == exists|i: int| 0 <= i < k && has_sub((#[trigger] paths@[i])@, "/gt/"@),
        decreases paths.len() - k,
    {
        if contains_sub(&chars_of(paths[k].as_str()), &marker) {
            any = true;
        }
        k = k + 1;
    }
    let mut res: Vec<String> = Vec::new();
    let mut i: usize = 0;
    while i < paths.len()
        invariant
            i <= paths.len(),
            marker@ == "/gt/"@,
            src == name_views(paths@),
            any == has_tile_path(paths@),
            any ==> name_views(res@) == src.take(i as int).filter(|p: Seq<char>| has_sub(p, "/gt/"@)),
            !any ==> name_views(res@) == src.take(i as int),
        decreases paths.len() - i,
    {
        let ghost before = res@;
        let ghost t = src.take(i + 1);
        assert(t.drop_last() =~= src.take(i as int));
        assert(t.last() == paths@[i as int]@);
        let keep = !any || contains_sub(&chars_of(paths[i].as_str()), &marker);
        if keep {
            res.push(paths[i].clone());
        }
        proof {
            reveal(Seq::filter);
            if keep {
                assert(name_views(res@) =~= name_views(before).push(paths@[i as int]@));
            } else {
                assert(name_views(res@) =~= name_views(before));
            }
        }
        i = i + 1;
    }
    assert(src.take(paths.len() as int) =~= src);
    res
}

/// The first sensor whose lower-cased label names the processor package.
pub open spec fn is_package_sensor(label: Seq<char>) -> bool {
    has_sub(lowercase(label), "package id"@) || has_sub(lowercase(label), "x86_pkg_temp"@)
}

/// The first sensor that can stand in for the graphics temperature: the
/// processor package sensor.
pub fn package_sensor(labels: &Vec<String>) -> (res: Option<usize>)
    ensures
        match res {
            Some(i) => i < labels.len() && is_package_sensor(labels@[i as int]@)
                && forall|j: int| 0 <= j < i ==> !is_package_sensor((#[trigger] labels@[j])@),
            None => forall|j: int| 0 <= j < labels.len() ==> !is_package_sensor((#[trigger] labels@[j])@),
        },
{
    let mut i: usize = 0;
    while i < labels.len()
        invariant
            i <= labels.len(),
            forall|j: int| 0 <= j < i ==> !is_package_sensor((#[trigger] labels@[j])@),
        decreases labels.len() - i,
    {
        let l = lower_of(&chars_of(labels[i].as_str()));
        if has_text(&l, "package id") || has_text(&l, "x86_pkg_temp") {
            return Some(i);
        }
        i = i + 1;
    }
    None
}

/// A thermal zone of this type is one of the `candidates`: the type,
/// trimmed and lower-cased, contains a lower-cased candidate.
pub open spec fn zone_matches_spec(zone_type: Seq<char>, candidates: Seq<String>) -> bool {
    exists|i: int| 0 <= i < candidates.len() && has_sub(lowercase(trim_seq(zone_type)), lowercase((#[trigger] candidates[i])@))
}

/// Whether a thermal zone of type `zone_type` is one of the `candidates`.
pub fn zone_matches(zone_type: &str, candidates: &Vec<String>) -> (res: bool)
    ensures
        res == zone_matches_spec(zone_type@, candidates@),
{
    let t = lower_of(&trim(&chars_of(zone_type)));
    let mut i: usize = 0;
    while i < candidates.len()
        invariant
            i <= candidates.len(),
            t@ == lowercase(trim_seq(zone_type@)),
            forall|j: int| 0 <= j < i ==> !has_sub(t@, lowercase((#[trigger] candidates@[j])@)),
        decreases candidates.len() - i,
    {
        let c = lower_of(&chars_of(candidates[i].as_str()));
        if contains_sub(&t, &c) {
            return true;
        }
        i = i + 1;
    }
    false
}

/// A power-capping zone of this name meters the graphics part: the name,
/// trimmed and lower-cased, mentions `gpu`, `gfx`, `uncore` or `psys`.
pub open spec fn is_gpu_power_zone_spec(name: Seq<char>) -> bool {
    let n = lowercase(trim_seq(name));
    has_sub(n, "gpu"@) || has_sub(n, "gfx"@) || has_sub(n, "uncore"@) || has_sub(n, "psys"@)
}

/// Whether a power-capping zone named `name` meters the graphics part.
pub fn is_gpu_power_zone(name: &str) -> (res: bool)
    ensures
        res == is_gpu_power_zone_spec(name@),
{
    let n = lower_of(&trim(&chars_of(name)));
    has_text(&n, "gpu") || has_text(&n, "gfx") || has_text(&n, "uncore") || has_text(&n, "psys")
}

/// The PCI vendor file says Intel (`0x8086`, in any ASCII case, trimmed).
pub fn is_intel_vendor(vendor: &str) -> (res: bool)
    ensures
        res == (ascii_lower(trim_seq(vendor@)) == ascii_lower("0x8086"@)),
{
    let v = to_ascii_lowercase(&trim(&chars_of(vendor)));
    let intel = to_ascii_lowercase(&chars_of("0x8086"));
    chars_equal(&v, &intel)
}

/// A DRM entry name that is a card itself (`card0`), not one of its
/// connectors (`card0-HDMI-A-1`).
pub fn is_card_name(name: &str) -> (res: bool)
    ensures
        res == (has_prefix(name@, "card"@) && !name@.contains('-')),
{
    let n = chars_of(name);
    if !starts_with(&n, &chars_of("card")) {
        return false;
    }
    let mut i: usize = 0;
    while i < n.len()
        invariant
            i <= n.len(),
            n@ == name@,
            has_prefix(name@, "card"@),
            forall|j: int| 0 <= j < i ==> n@[j] != '-',
        decreases n.len() - i,
    {
        if n[i] == '-' {
            assert(name@[i as int] == '-');
            assert(name@.contains('-'));
            return false;
        }
        i = i + 1;
    }
    true
}

/// The card number in a DRM card name (`card1` gives `1`), for names that
/// begin with `card`.
pub fn card_index(name: &str) -> (res: Option<String>)
    ensures
        match res {
            Some(idx) => has_prefix(name@, "card"@) && idx@ == name@.skip(4),
            None => !has_prefix(name@, "card"@),
        },
{
    proof {
        reveal_strlit("card");
    }
    let n = chars_of(name);
    if starts_with(&n, &chars_of("card")) {
        let rest = slice_chars(&n, 4, n.len());
        assert(rest@ =~= n@.skip(4));
        Some(string_of_chars(&rest))
    } else {
        None
    }
}

} // verus!
