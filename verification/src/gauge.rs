//! The bars and labels of the CPU, memory and GPU panels: bar widths, the
//! cells of a bar drawn in eighths of a cell, the processor temperature
//! sensor to show, and the colour of a clock frequency.

use vstd::prelude::*;
use crate::text::{ascii_lower, chars_of, contains_sub, has_prefix, has_sub, push_chars, push_str, starts_with, string_of_chars, to_ascii_lowercase};
use crate::theme::Color;
use crate::utils::{human_bytes, human_bytes_chars};

verus! {

/// The width of a bar: what is left of the area after its label, at most `max_width`.
pub fn bar_width_for_area(area_width: u16, prefix_chars: usize, max_width: usize) -> (res: usize)
    ensures
        res == if area_width <= prefix_chars {
            0
        } else if area_width - prefix_chars < max_width {
            (area_width - prefix_chars) as usize
        } else {
            max_width
        },
{
    let available = area_width as usize;
    let room = if available > prefix_chars { available - prefix_chars } else { 0 };
    if room < max_width { room } else { max_width }
}

/// The block character that fills `units` eighths of a cell from the left;
/// a light shade for no eighth or a whole cell.
pub open spec fn eighths_char(units: nat) -> char {
    if units == 1 {
        '▏'
    } else if units == 2 {
        '▎'
    } else if units == 3 {
        '▍'
    } else if units == 4 {
        '▌'
    } else if units == 5 {
        '▋'
    } else if units == 6 {
        '▊'
    } else if units == 7 {
        '▉'
    } else {
        '░'
    }
}

/// The block character that fills `units` eighths of a cell.
pub fn fractional_block(units: usize) -> (res: char)
    ensures
        res == eighths_char(units as nat),
{
    match units {
        1 => '▏',
        2 => '▎',
        3 => '▍',
        4 => '▌',
        5 => '▋',
        6 => '▊',
        7 => '▉',
        _ => '░',
    }
}

/// One cell of a bar.
#[derive(Clone, Copy, Debug, PartialEq, Eq, Structural)]
pub enum GaugeCell {
    /// Empty: the track colour.
    Track,
    /// Filled: the bar colour.
    Filled,
    /// Partly filled: this block character in the bar colour on the track.
    Partial(char),
}

/// Cell `i` of a bar of which `filled` eighths are filled.
pub open spec fn gauge_cell(i: nat, filled: nat) -> GaugeCell {
    if filled <= 8 * i {
        GaugeCell::Track
    } else if filled >= 8 * i + 8 {
        GaugeCell::Filled
    } else {
        GaugeCell::Partial(eighths_char((filled - 8 * i) as nat))
    }
}

/// The cells of a bar `width` cells wide of which `filled` eighths are filled.
pub fn gauge_cells(width: usize, filled: usize) -> (res: Vec<GaugeCell>)
    requires
        width <= usize::MAX / 8,
    ensures
        res.len() == width,
        forall|i: int| 0 <= i < width ==> #[trigger] res@[i] == gauge_cell(i as nat, filled as nat),
{
    let mut res: Vec<GaugeCell> = Vec::new();
    let mut i: usize = 0;
    while i < width
        invariant
            i <= width <= usize::MAX / 8,
            res.len() == i,
            forall|j: int| 0 <= j < i ==> #[trigger] res@[j] == gauge_cell(j as nat, filled as nat),
        decreases width - i,
    {
        let start = i * 8;
        let cell = if filled <= start {
            GaugeCell::Track
        } else if filled >= start + 8 {
            GaugeCell::Filled
        } else {
            GaugeCell::Partial(fractional_block(filled - start))
        };
        res.push(cell);
        i = i + 1;
    }
    res
}

/// One cell of the memory bar, which shows used memory, then cached memory.
#[derive(Clone, Copy, Debug, PartialEq, Eq, Structural)]
pub enum StackCell {
    Track,
    Used,
    /// Partly used: this block character in the used colour on the track.
    UsedPartial(char),
    Cached,
    /// Partly cached: this block character in the cached colour on the track.
    CachedPartial(char),
}

/// Cell `i` of the memory bar with `used` eighths used, then `cached` eighths cached.
pub open spec fn stack_cell(i: nat, used: nat, cached: nat) -> StackCell {
    let start = 8 * i;
    if start >= used + cached {
        StackCell::Track
    } else if start >= used {
        if start + 8 > used + cached {
            StackCell::CachedPartial(eighths_char((used + cached - start) as nat))
        } else {
            StackCell::Cached
        }
    } else if start + 8 > used {
        StackCell::UsedPartial(eighths_char((used - start) as nat))
    } else {
        StackCell::Used
    }
}

/// The cells of the memory bar (see `stack_cell`).
pub fn stacked_cells(width: usize, used: usize, cached: usize) -> (res: Vec<StackCell>)
    requires
        width <= usize::MAX / 8,
        used + cached <= usize::MAX,
    ensures
        res.len() == width,
        forall|i: int| 0 <= i < width ==> #[trigger] res@[i] == stack_cell(i as nat, used as nat, cached as nat),
{
    let all = used + cached;
    let mut res: Vec<StackCell> = Vec::new();
    let mut i: usize = 0;
    while i < width
        invariant
            i <= width <= usize::MAX / 8,
            all == used + cached,
            res.len() == i,
            forall|j: int| 0 <= j < i ==> #[trigger] res@[j] == stack_cell(j as nat, used as nat, cached as nat),
        decreases width - i,
    {
        let start = i * 8;
        let cell = if start >= all {
            StackCell::Track
        } else if start >= used {
            if start + 8 > all {
                StackCell::CachedPartial(fractional_block(all - start))
            } else {
                StackCell::Cached
            }
        } else if start + 8 > used {
            StackCell::UsedPartial(fractional_block(used - start))
        } else {
            StackCell::Used
        };
        res.push(cell);
        i = i + 1;
    }
    res
}

/// How well a lower-cased sensor label identifies the processor
/// temperature: the package sensors first, then the die sensors, then any
/// processor sensor, then core sensors, then the system-on-chip; an empty
/// label ranks low; other labels do not count.
pub open spec fn temp_priority(l: Seq<char>) -> Option<u8> {
    if l.len() == 0 {
        Some(1)
    } else if has_sub(l, "package id"@) || has_sub(l, "x86_pkg_temp"@) || has_sub(l, "cpu package"@) || has_sub(l, "physical id"@) {
        Some(7)
    } else if has_sub(l, "tdie"@) || has_sub(l, "tctl"@) || has_sub(l, "tcpu"@) {
        Some(6)
    } else if has_sub(l, "cpu"@) || has_sub(l, "package"@) {
        Some(5)
    } else if has_sub(l, "coretemp"@) || has_prefix(l, "core "@) || has_prefix(l, "coretemp"@) {
        Some(4)
    } else if has_sub(l, "soc"@) {
        Some(3)
    } else {
        None
    }
}

fn has_text(hay: &Vec<char>, needle: &str) -> (res: bool)
    ensures
        res == has_sub(hay@, needle@),
{
    contains_sub(hay, &chars_of(needle))
}

/// How well a sensor label identifies the processor temperature (see
/// `temp_priority`; the label is compared without regard to ASCII case).
pub fn cpu_temp_priority(label: &str) -> (res: Option<u8>)
    ensures
        res == temp_priority(ascii_lower(label@)),
{
    let l = to_ascii_lowercase(&chars_of(label));
    if l.len() == 0 {
        Some(1)
    } else if has_text(&l, "package id") || has_text(&l, "x86_pkg_temp") || has_text(&l, "cpu package") || has_text(&l, "physical id") {
        Some(7)
    } else if has_text(&l, "tdie") || has_text(&l, "tctl") || has_text(&l, "tcpu") {
        Some(6)
    } else if has_text(&l, "cpu") || has_text(&l, "package") {
        Some(5)
    } else if has_text(&l, "coretemp") || starts_with(&l, &chars_of("core ")) || starts_with(&l, &chars_of("coretemp")) {
        Some(4)
    } else if has_text(&l, "soc") {
        Some(3)
    } else {
        None
    }
}

/// The priority of sensor `i` among `labels`.
pub open spec fn label_priority(labels: Seq<String>, i: int) -> Option<u8> {
    temp_priority(ascii_lower(labels[i]@))
}

/// Sensor `i` is the one the CPU panel shows: it has a priority, none has a
/// higher one, and none after it has the same (the last of the best wins).
pub open spec fn shown_cpu_sensor(labels: Seq<String>, i: int) -> bool {
    &&& 0 <= i < labels.len()
    &&& label_priority(labels, i) is Some
    &&& forall|j: int| 0 <= j < labels.len() && (#[trigger] label_priority(labels, j)) is Some ==> label_priority(labels, j)->0 <= label_priority(labels, i)->0
    &&& forall|j: int| i < j < labels.len() && (#[trigger] label_priority(labels, j)) is Some ==> label_priority(labels, j)->0 < label_priority(labels, i)->0
}

/// The sensor whose temperature the CPU panel shows (see `shown_cpu_sensor`),
/// or `None` when no label identifies the processor.
pub fn cpu_temperature_sensor(labels: &Vec<String>) -> (res: Option<usize>)
    ensures
        match res {
            Some(i) => shown_cpu_sensor(labels@, i as int),
            None => forall|j: int| 0 <= j < labels.len() ==> (#[trigger] label_priority(labels@, j)) is None,
        },
{
    let mut best: Option<usize> = None;
    let mut best_p: u8 = 0;
    let mut i: usize = 0;
    while i < labels.len()
        invariant
            i <= labels.len(),
            match best {
                Some(b) => {
                    &&& b < i
                    &&& label_priority(labels@, b as int) == Some(best_p)
                    &&& forall|j: int| 0 <= j < i && (#[trigger] label_priority(labels@, j)) is Some ==> label_priority(labels@, j)->0 <= best_p
                    &&& forall|j: int| b < j < i && (#[trigger] label_priority(labels@, j)) is Some ==> label_priority(labels@, j)->0 < best_p
                },
                None => forall|j: int| 0 <= j < i ==> (#[trigger] label_priority(labels@, j)) is None,
            },
        decreases labels.len() - i,
    {
        let p = cpu_temp_priority(labels[i].as_str());
        assert(p == label_priority(labels@, i as int));
        match p {
            None => {},
            Some(q) => {
                let take = match best {
                    None => true,
                    Some(_) => q >= best_p,
                };
                if take {
                    best = Some(i);
                    best_p = q;
                }
            },
        }
        i = i + 1;
    }
    best
}

/// The colour of a processor clock in MHz: slate when idle (below 1000),
/// cyan up to 3000, purple above.
pub open spec fn frequency_rgb(mhz: nat) -> Color {
    if mhz < 1000 {
        Color::Rgb(98, 114, 164)
    } else if mhz <= 3000 {
        Color::Rgb(139, 233, 253)
    } else {
        Color::Rgb(189, 147, 249)
    }
}

/// The colour of a processor clock in MHz (see `frequency_rgb`).
pub fn frequency_color(mhz: u64) -> (res: Color)
    ensures
        res == frequency_rgb(mhz as nat),
{
    if mhz < 1000 {
        Color::Rgb(98, 114, 164)
    } else if mhz <= 3000 {
        Color::Rgb(139, 233, 253)
    } else {
        Color::Rgb(189, 147, 249)
    }
}

/// The title of the CPU panel: with the processor's name when it is known.
pub open spec fn cpu_title_text(name: Seq<char>) -> Seq<char> {
    if name.len() > 0 {
        " CPU · "@ + name + " "@
    } else {
        " CPU "@
    }
}

/// The title of the CPU panel.
pub fn cpu_title(name: &str) -> (res: String)
    ensures
        res@ == cpu_title_text(name@),
{
    let n = chars_of(name);
    if n.len() > 0 {
        let mut out = chars_of(" CPU · ");
        push_chars(&mut out, &n);
        push_str(&mut out, " ");
        string_of_chars(&out)
    } else {
        string_of_chars(&chars_of(" CPU "))
    }
}

/// The label of the memory bar: memory used without the cache, the cache
/// and the total, each in binary units.
pub open spec fn ram_label_text(used: nat, cached: nat, total: nat) -> Seq<char> {
    "RAM: "@ + human_bytes(if used > cached { (used - cached) as nat } else { 0 }) + "/"@ + human_bytes(cached) + "/"@ + human_bytes(total)
}

/// The label of the memory bar (see `ram_label_text`).
pub fn ram_label(used: u64, cached: u64, total: u64) -> (res: String)
    ensures
        res@ == ram_label_text(used as nat, cached as nat, total as nat),
{
    let actual = if used > cached { used - cached } else { 0 };
    let mut out = chars_of("RAM: ");
    push_chars(&mut out, &human_bytes_chars(actual));
    push_str(&mut out, "/");
    push_chars(&mut out, &human_bytes_chars(cached));
    push_str(&mut out, "/");
    push_chars(&mut out, &human_bytes_chars(total));
    string_of_chars(&out)
}

/// A bar fills from the left: a filled cell has only filled cells before
/// it, an empty cell only empty cells after it, and exactly `filled / 8`
/// cells are filled.
pub proof fn lemma_bar_fills_from_left(i: nat, j: nat, filled: nat)
    requires
        i < j,
    ensures
        gauge_cell(j, filled) is Filled ==> gauge_cell(i, filled) is Filled,
        gauge_cell(i, filled) is Track ==> gauge_cell(j, filled) is Track,
        gauge_cell(i, filled) is Filled <==> i < filled / 8,
{
}

/// The memory field of a GPU line, and whether it is shown dimmed: used and
/// total, used alone, total alone (dimmed) or nothing known (dimmed).
pub open spec fn gpu_memory_field(used: Option<u64>, total: Option<u64>) -> (Seq<char>, bool) {
    match (used, total) {
        (Some(u), Some(t)) => ("M:"@ + human_bytes(u as nat) + "/"@ + human_bytes(t as nat), false),
        (Some(u), None) => ("M:"@ + human_bytes(u as nat), false),
        (None, Some(t)) => ("M:--/"@ + human_bytes(t as nat), true),
        (None, None) => ("M:--"@, true),
    }
}

/// The memory field of a GPU line (see `gpu_memory_field`).
pub fn gpu_memory_text(used: Option<u64>, total: Option<u64>) -> (res: (String, bool))
    ensures
        (res.0@, res.1) == gpu_memory_field(used, total),
{
    match (used, total) {
        (Some(u), Some(t)) => {
            let mut out = chars_of("M:");
            push_chars(&mut out, &human_bytes_chars(u));
            push_str(&mut out, "/");
            push_chars(&mut out, &human_bytes_chars(t));
            (string_of_chars(&out), false)
        },
        (Some(u), None) => {
            let mut out = chars_of("M:");
            push_chars(&mut out, &human_bytes_chars(u));
            (string_of_chars(&out), false)
        },
        (None, Some(t)) => {
            let mut out = chars_of("M:--/");
            push_chars(&mut out, &human_bytes_chars(t));
            (string_of_chars(&out), true)
        },
        (None, None) => (string_of_chars(&chars_of("M:--")), true),
    }
}

} // verus!
