//! Graphics adapters: the names that `lspci` gives them, the vendor that a
//! name or a sensor label points to, and the list of adapters the GPU panel
//! shows, put together from the driver, the sensors and `lspci`.

use vstd::prelude::*;
use vstd::string::StringExecFns;
use crate::text::{
    alnum_prefix_len, ascii_lower, char_pos, char_vec_seqs, chars_equal, chars_of, contains_sub,
    count_alnum_prefix, find_char_from, occurs_at, find_sub, first_index, has_sub, lemma_first_index,
    lines_seq, lowercase, lowercase_chars, push_chars, push_str, replace_all, replace_seq,
    slice_chars, split_lines, string_of_chars, to_ascii_lowercase, trim, trim_seq, trim_start_seq,
    trim_end_seq, has_prefix,
};

verus! {

// ---------------------------------------------------------------------------
// Byte lengths
// ---------------------------------------------------------------------------

/// The number of bytes that `c` takes in UTF-8.
pub open spec fn utf8_len(c: char) -> nat {
    let u = c as u32;
    if u < 0x80 {
        1
    } else if u < 0x800 {
        2
    } else if u < 0x10000 {
        3
    } else {
        4
    }
}

/// The number of leading characters of `s` that take exactly `n` bytes, if
/// `n` bytes end on a character boundary of `s`.
pub open spec fn chars_in_bytes(s: Seq<char>, n: nat) -> Option<nat>
    decreases s.len(),
{
    if n == 0 {
        Some(0)
    } else if s.len() == 0 || utf8_len(s[0]) > n {
        None
    } else {
        match chars_in_bytes(s.drop_first(), (n - utf8_len(s[0])) as nat) {
            Some(k) => Some(k + 1),
            None => None,
        }
    }
}

fn utf8_len_exec(c: char) -> (res: usize)
    ensures
        res == utf8_len(c),
{
    let u = c as u32;
    if u < 0x80 {
        1
    } else if u < 0x800 {
        2
    } else if u < 0x10000 {
        3
    } else {
        4
    }
}

/// How many leading characters of `s` take exactly `n` bytes.
fn count_chars_in_bytes(s: &Vec<char>, n: usize) -> (res: Option<usize>)
    ensures
        match chars_in_bytes(s@, n as nat) {
            Some(k) => k <= s.len() && res == Some(k as usize),
            None => res is None,
        },
        match res {
            Some(k) => k <= s.len(),
            None => true,
        },
{
    let mut i: usize = 0;
    let mut left: usize = n;
    assert(s@.skip(0) =~= s@);
    while left > 0
        invariant
            i <= s.len(),
            left <= n,
            chars_in_bytes(s@, n as nat) == match chars_in_bytes(s@.skip(i as int), left as nat) {
                Some(k) => Some((k + i) as nat),
                None => None::<nat>,
            },
        decreases left,
    {
        if i >= s.len() {
            return None;
        }
        let w = utf8_len_exec(s[i]);
        if w > left {
            return None;
        }
        assert(s@.skip(i as int).drop_first() =~= s@.skip(i as int + 1));
        left = left - w;
        i = i + 1;
    }
    Some(i)
}

// ---------------------------------------------------------------------------
// Cleaning adapter descriptions
// ---------------------------------------------------------------------------

/// `desc` trimmed, with the class labels and the trademark marks removed.
pub open spec fn gpu_labels_removed(desc: Seq<char>) -> Seq<char> {
    let e = Seq::<char>::empty();
    trim_seq(
        replace_seq(
            replace_seq(
                replace_seq(
                    replace_seq(replace_seq(trim_seq(desc), "VGA compatible controller: "@, e), "3D controller: "@, e),
                    "Display controller: "@,
                    e,
                ),
                "(R)"@,
                e,
            ),
            "(TM)"@,
            e,
        ),
    )
}

/// The code that follows `Device ` in an Intel description, where `after`
/// is what follows the vendor name and `dp` is where `Device ` stands.
pub open spec fn intel_device_code(after: Seq<char>, dp: int) -> Option<Seq<char>> {
    let hex = after.skip(dp + 7);
    match chars_in_bytes(hex, alnum_prefix_len(hex)) {
        Some(k) => Some(hex.take(k as int)),
        None => None,
    }
}

/// The model part of an Intel description, where `after` is what follows
/// the vendor name; `None` where the code after `Device ` cannot be cut out
/// on a character boundary.
pub open spec fn intel_model(after: Seq<char>) -> Option<Seq<char>> {
    if has_sub(after, "Device "@) {
        let dp = first_index(after, "Device "@);
        let before = trim_seq(after.take(dp));
        if before.len() == 0 {
            match intel_device_code(after, dp) {
                Some(code) => Some(
                    if code == "7d55"@ {
                        "Arc Graphics"@
                    } else if code == "a74d"@ || code == "a75d"@ || code == "a76d"@ {
                        "Arc A7xxM Graphics"@
                    } else {
                        "GPU (Code: "@ + code + ")"@
                    },
                ),
                None => None,
            }
        } else {
            Some(before)
        }
    } else {
        Some(after)
    }
}

/// The display name of an adapter description: labels and trademark marks
/// removed; for Intel, `Intel` and the model, with known device codes
/// named. `None` where the description cannot be cleaned (see `intel_model`).
pub open spec fn clean_gpu_name(desc: Seq<char>) -> Option<Seq<char>> {
    let c = gpu_labels_removed(desc);
    if has_sub(c, "Intel Corporation"@) {
        match intel_model(trim_seq(c.skip(first_index(c, "Intel Corporation"@) + 17))) {
            Some(m) => Some("Intel "@ + m),
            None => None,
        }
    } else {
        Some(c)
    }
}

fn strip_pattern(s: &Vec<char>, pat: &str) -> (res: Vec<char>)
    requires
        pat@.len() > 0,
    ensures
        res@ == replace_seq(s@, pat@, Seq::<char>::empty()),
{
    let p = chars_of(pat);
    let e: Vec<char> = Vec::new();
    replace_all(s, &p, &e)
}

fn remove_gpu_labels(desc: &Vec<char>) -> (res: Vec<char>)
    ensures
        res@ == gpu_labels_removed(desc@),
{
    proof {
        reveal_strlit("VGA compatible controller: ");
        reveal_strlit("3D controller: ");
        reveal_strlit("Display controller: ");
        reveal_strlit("(R)");
        reveal_strlit("(TM)");
    }
    let mut c = trim(desc);
    c = strip_pattern(&c, "VGA compatible controller: ");
    c = strip_pattern(&c, "3D controller: ");
    c = strip_pattern(&c, "Display controller: ");
    c = strip_pattern(&c, "(R)");
    c = strip_pattern(&c, "(TM)");
    trim(&c)
}

fn device_code_name(code: &Vec<char>) -> (res: Vec<char>)
    ensures
        res@ == if code@ == "7d55"@ {
            "Arc Graphics"@
        } else if code@ == "a74d"@ || code@ == "a75d"@ || code@ == "a76d"@ {
            "Arc A7xxM Graphics"@
        } else {
            "GPU (Code: "@ + code@ + ")"@
        },
{
    if chars_equal(code, &chars_of("7d55")) {
        chars_of("Arc Graphics")
    } else if chars_equal(code, &chars_of("a74d")) || chars_equal(code, &chars_of("a75d"))
        || chars_equal(code, &chars_of("a76d")) {
        chars_of("Arc A7xxM Graphics")
    } else {
        let mut m = chars_of("GPU (Code: ");
        push_chars(&mut m, code);
        push_str(&mut m, ")");
        m
    }
}

fn intel_model_chars(after: &Vec<char>) -> (res: Option<Vec<char>>)
    ensures
        match intel_model(after@) {
            Some(m) => res is Some && res->0@ == m,
            None => res is None,
        },
{
    proof {
        reveal_strlit("Device ");
    }
    let device = chars_of("Device ");
    match find_sub(after, &device) {
        None => {
            let all = slice_chars(after, 0, after.len());
            assert(all@ =~= after@);
            Some(all)
        },
        Some(dp) => {
            proof {
                lemma_first_index(after@, device@, dp as int);
                assert(after@.subrange(0, after.len() as int) =~= after@);
            }
            let head = slice_chars(after, 0, dp);
            assert(head@ =~= after@.take(dp as int));
            let before = trim(&head);
            if before.len() == 0 {
                let hex = slice_chars(after, dp + 7, after.len());
                assert(hex@ =~= after@.skip(dp + 7));
                let n = count_alnum_prefix(&hex);
                match count_chars_in_bytes(&hex, n) {
                    None => None,
                    Some(k) => {
                        let code = slice_chars(&hex, 0, k);
                        assert(code@ =~= hex@.take(k as int));
                        Some(device_code_name(&code))
                    },
                }
            } else {
                Some(before)
            }
        },
    }
}

/// Cleans an adapter description, or gives `None` where it cannot be cleaned.
fn clean_gpu_chars(desc: &Vec<char>) -> (res: Option<Vec<char>>)
    ensures
        match clean_gpu_name(desc@) {
            Some(n) => res is Some && res->0@ == n,
            None => res is None,
        },
{
    proof {
        reveal_strlit("Intel Corporation");
    }
    let c = remove_gpu_labels(desc);
    let vendor = chars_of("Intel Corporation");
    match find_sub(&c, &vendor) {
        None => Some(c),
        Some(pos) => {
            proof {
                lemma_first_index(c@, vendor@, pos as int);
                assert(vendor@.len() == 17);
                assert(occurs_at(c@, vendor@, pos as int));
                assert(pos + 17 <= c@.len());
                assert(pos + 17 <= c.len());
            }
            let tail = slice_chars(&c, pos + 17, c.len());
            assert(tail@ =~= c@.skip(pos + 17));
            let after = trim(&tail);
            match intel_model_chars(&after) {
                None => None,
                Some(model) => {
                    let mut res = chars_of("Intel ");
                    push_chars(&mut res, &model);
                    Some(res)
                },
            }
        },
    }
}

/// Whether `clean_gpu_description` accepts `desc`: everywhere but where the
/// code after `Intel Corporation … Device ` would be cut inside a character.
pub fn gpu_description_cleanable(desc: &str) -> (res: bool)
    ensures
        res == (clean_gpu_name(desc@) is Some),
{
    let d = chars_of(desc);
    match clean_gpu_chars(&d) {
        Some(_) => true,
        None => false,
    }
}

/// Tidies an adapter description as `lspci` prints it: drops the class
/// labels and the `(R)`/`(TM)` marks, and for Intel keeps `Intel` and the
/// model, naming the known device codes.
pub fn clean_gpu_description(desc: &str) -> (res: String)
    requires
        clean_gpu_name(desc@) is Some,
    ensures
        clean_gpu_name(desc@) == Some(res@),
{
    let d = chars_of(desc);
    match clean_gpu_chars(&d) {
        Some(c) => string_of_chars(&c),
        None => String::new(),
    }
}

/// Every character of `s` is ASCII.
pub open spec fn ascii_chars(s: Seq<char>) -> bool {
    forall|i: int| 0 <= i < s.len() ==> ((#[trigger] s[i]) as u32) < 0x80
}

proof fn lemma_trim_ascii(s: Seq<char>)
    requires
        ascii_chars(s),
    ensures
        ascii_chars(trim_start_seq(s)),
        ascii_chars(trim_end_seq(s)),
        ascii_chars(trim_seq(s)),
    decreases s.len(),
{
    if s.len() > 0 {
        assert(ascii_chars(s.drop_first()));
        assert(ascii_chars(s.drop_last()));
        lemma_trim_ascii(s.drop_first());
        lemma_trim_ascii(s.drop_last());
    }
    lemma_trim_end_ascii(trim_start_seq(s));
}

proof fn lemma_trim_end_ascii(s: Seq<char>)
    requires
        ascii_chars(s),
    ensures
        ascii_chars(trim_end_seq(s)),
    decreases s.len(),
{
    if s.len() > 0 {
        assert(ascii_chars(s.drop_last()));
        lemma_trim_end_ascii(s.drop_last());
    }
}

proof fn lemma_removal_ascii(s: Seq<char>, pat: Seq<char>)
    requires
        ascii_chars(s),
    ensures
        ascii_chars(replace_seq(s, pat, Seq::<char>::empty())),
    decreases s.len(),
{
    let e = Seq::<char>::empty();
    if s.len() > 0 && pat.len() > 0 {
        if has_prefix(s, pat) {
            assert(ascii_chars(s.skip(pat.len() as int)));
            lemma_removal_ascii(s.skip(pat.len() as int), pat);
            assert(e + replace_seq(s.skip(pat.len() as int), pat, e) =~= replace_seq(s.skip(pat.len() as int), pat, e));
        } else {
            assert(ascii_chars(s.drop_first()));
            lemma_removal_ascii(s.drop_first(), pat);
            let r = seq![s[0]] + replace_seq(s.drop_first(), pat, e);
            assert forall|i: int| 0 <= i < r.len() implies ((#[trigger] r[i]) as u32) < 0x80 by {
                if i > 0 {
                    assert(r[i] == replace_seq(s.drop_first(), pat, e)[i - 1]);
                }
            }
        }
    }
}

proof fn lemma_ascii_byte_count(s: Seq<char>, n: nat)
    requires
        ascii_chars(s),
        n <= s.len(),
    ensures
        chars_in_bytes(s, n) == Some(n),
    decreases s.len(),
{
    if n > 0 {
        assert(ascii_chars(s.drop_first()));
        lemma_ascii_byte_count(s.drop_first(), (n - 1) as nat);
    }
}

proof fn lemma_alnum_prefix_bound(s: Seq<char>)
    ensures
        alnum_prefix_len(s) <= s.len(),
    decreases s.len(),
{
    if s.len() > 0 {
        lemma_alnum_prefix_bound(s.drop_first());
    }
}

proof fn lemma_labels_removed_ascii(desc: Seq<char>)
    requires
        ascii_chars(desc),
    ensures
        ascii_chars(gpu_labels_removed(desc)),
{
    let e = Seq::<char>::empty();
    let t0 = trim_seq(desc);
    lemma_trim_ascii(desc);
    let r1 = replace_seq(t0, "VGA compatible controller: "@, e);
    lemma_removal_ascii(t0, "VGA compatible controller: "@);
    let r2 = replace_seq(r1, "3D controller: "@, e);
    lemma_removal_ascii(r1, "3D controller: "@);
    let r3 = replace_seq(r2, "Display controller: "@, e);
    lemma_removal_ascii(r2, "Display controller: "@);
    let r4 = replace_seq(r3, "(R)"@, e);
    lemma_removal_ascii(r3, "(R)"@);
    lemma_removal_ascii(r4, "(TM)"@);
    lemma_trim_ascii(replace_seq(r4, "(TM)"@, e));
}

proof fn lemma_ascii_suffix(s: Seq<char>, k: int)
    requires
        ascii_chars(s),
        0 <= k <= s.len(),
    ensures
        ascii_chars(s.skip(k)),
{
    assert forall|i: int| 0 <= i < s.skip(k).len() implies ((#[trigger] s.skip(k)[i]) as u32) < 0x80 by {
        assert(s.skip(k)[i] == s[i + k]);
    }
}

proof fn lemma_first_occurrence(hay: Seq<char>, needle: Seq<char>, j: int)
    requires
        occurs_at(hay, needle, j),
    ensures
        occurs_at(hay, needle, first_index(hay, needle)),
        first_index(hay, needle) <= j,
    decreases j,
{
    if exists|i: int| 0 <= i < j && occurs_at(hay, needle, i) {
        let i = choose|i: int| 0 <= i < j && occurs_at(hay, needle, i);
        lemma_first_occurrence(hay, needle, i);
    } else {
        lemma_first_index(hay, needle, j);
    }
}

proof fn lemma_ascii_model(after: Seq<char>)
    requires
        ascii_chars(after),
    ensures
        intel_model(after) is Some,
{
    if has_sub(after, "Device "@) {
        let dp = first_index(after, "Device "@);
        assert(0 <= dp && dp + 7 <= after.len()) by {
            let j = choose|j: int| occurs_at(after, "Device "@, j);
            lemma_first_occurrence(after, "Device "@, j);
            reveal_strlit("Device ");
        }
        let hex = after.skip(dp + 7);
        lemma_ascii_suffix(after, dp + 7);
        lemma_alnum_prefix_bound(hex);
        lemma_ascii_byte_count(hex, alnum_prefix_len(hex));
        assert(intel_device_code(after, dp) is Some);
    }
}

/// Every ASCII description can be cleaned: only a character of more than
/// one byte can stand where the device code is cut.
pub proof fn lemma_ascii_descriptions_clean(desc: Seq<char>)
    requires
        ascii_chars(desc),
    ensures
        clean_gpu_name(desc) is Some,
{
    let c = gpu_labels_removed(desc);
    lemma_labels_removed_ascii(desc);
    if has_sub(c, "Intel Corporation"@) {
        let k = first_index(c, "Intel Corporation"@) + 17;
        assert(0 <= k <= c.len()) by {
            let j = choose|j: int| occurs_at(c, "Intel Corporation"@, j);
            lemma_first_occurrence(c, "Intel Corporation"@, j);
            reveal_strlit("Intel Corporation");
        }
        let tail = c.skip(k);
        lemma_ascii_suffix(c, k);
        lemma_trim_ascii(tail);
        lemma_ascii_model(trim_seq(tail));
    }
}

// ---------------------------------------------------------------------------
// Vendors
// ---------------------------------------------------------------------------

/// The vendors the GPU panel tells apart.
#[derive(Clone, Copy, Debug, PartialEq, Eq, Structural)]
pub enum GpuVendor {
    Nvidia,
    Intel,
    Amd,
    Unknown,
}

/// The name the panel shows for a vendor.
pub open spec fn vendor_text(v: GpuVendor) -> Seq<char> {
    match v {
        GpuVendor::Nvidia => "NVIDIA"@,
        GpuVendor::Intel => "Intel"@,
        GpuVendor::Amd => "AMD"@,
        GpuVendor::Unknown => "Unknown"@,
    }
}

impl GpuVendor {
    /// The name the panel shows for this vendor.
    pub fn name(&self) -> (res: &'static str)
        ensures
            res@ == vendor_text(*self),
    {
        match self {
            GpuVendor::Nvidia => "NVIDIA",
            GpuVendor::Intel => "Intel",
            GpuVendor::Amd => "AMD",
            GpuVendor::Unknown => "Unknown",
        }
    }
}

/// The vendor that a lower-cased adapter name points to.
pub open spec fn name_vendor(lower: Seq<char>) -> GpuVendor {
    if has_sub(lower, "nvidia"@) {
        GpuVendor::Nvidia
    } else if has_sub(lower, "intel"@) || has_sub(lower, "arc"@) {
        GpuVendor::Intel
    } else if has_sub(lower, "amd"@) || has_sub(lower, "ati"@) || has_sub(lower, "radeon"@) {
        GpuVendor::Amd
    } else {
        GpuVendor::Unknown
    }
}

/// The vendor that a lower-cased sensor label points to.
pub open spec fn label_vendor(lower: Seq<char>) -> GpuVendor {
    if has_sub(lower, "nvidia"@) {
        GpuVendor::Nvidia
    } else if has_sub(lower, "intel"@) {
        GpuVendor::Intel
    } else if has_sub(lower, "amd"@) || has_sub(lower, "radeon"@) || has_sub(lower, "ati"@) {
        GpuVendor::Amd
    } else {
        GpuVendor::Unknown
    }
}

fn has_text(hay: &Vec<char>, needle: &str) -> (res: bool)
    ensures
        res == has_sub(hay@, needle@),
{
    contains_sub(hay, &chars_of(needle))
}

fn lower_of(v: &Vec<char>) -> (res: Vec<char>)
    ensures
        res@ == lowercase(v@),
{
    let s = string_of_chars(v);
    lowercase_chars(s.as_str())
}

/// The vendor that a lower-cased adapter name points to.
pub fn vendor_of_name(lower: &Vec<char>) -> (res: GpuVendor)
    ensures
        res == name_vendor(lower@),
{
    if has_text(lower, "nvidia") {
        GpuVendor::Nvidia
    } else if has_text(lower, "intel") || has_text(lower, "arc") {
        GpuVendor::Intel
    } else if has_text(lower, "amd") || has_text(lower, "ati") || has_text(lower, "radeon") {
        GpuVendor::Amd
    } else {
        GpuVendor::Unknown
    }
}

/// The vendor that a lower-cased sensor label points to.
pub fn vendor_of_label(lower: &Vec<char>) -> (res: GpuVendor)
    ensures
        res == label_vendor(lower@),
{
    if has_text(lower, "nvidia") {
        GpuVendor::Nvidia
    } else if has_text(lower, "intel") {
        GpuVendor::Intel
    } else if has_text(lower, "amd") || has_text(lower, "radeon") || has_text(lower, "ati") {
        GpuVendor::Amd
    } else {
        GpuVendor::Unknown
    }
}

// ---------------------------------------------------------------------------
// lspci
// ---------------------------------------------------------------------------

/// A lower-cased `lspci` line describes a display adapter.
pub open spec fn gpu_line(lower: Seq<char>) -> bool {
    has_sub(lower, "vga"@) || has_sub(lower, "3d controller"@) || has_sub(lower, "display controller"@)
}

/// What follows the first `c` in `s`, trimmed; all of `s` when there is no `c`.
pub open spec fn after_separator(s: Seq<char>, c: char) -> Seq<char> {
    let p = char_pos(s, c);
    if p < s.len() {
        trim_seq(s.skip(p as int + 1))
    } else {
        s
    }
}

/// The adapter description in an `lspci` line: after the first colon, and
/// after the first word there (the class number of the bus address).
pub open spec fn lspci_description(line: Seq<char>) -> Seq<char> {
    after_separator(trim_seq(after_separator(line, ':')), ' ')
}

/// At most the first `n` items of `s`.
pub open spec fn first_n<T>(s: Seq<T>, n: nat) -> Seq<T> {
    if s.len() <= n {
        s
    } else {
        s.take(n as int)
    }
}

/// `line` is no adapter line, or one whose description can be cleaned.
#[verifier::opaque]
pub open spec fn lspci_line_cleanable(line: Seq<char>) -> bool {
    gpu_line(lowercase(line)) ==> clean_gpu_name(lspci_description(line)) is Some
}

/// Every adapter line among `lines` has a description that can be cleaned.
pub open spec fn lspci_lines_cleanable(lines: Seq<Seq<char>>) -> bool {
    forall|i: int| 0 <= i < lines.len() ==> lspci_line_cleanable(#[trigger] lines[i])
}

/// The adapters that `lines` list, in order, once per name (names compared
/// without regard to ASCII case), with the vendor each name points to.
pub open spec fn lspci_candidates(lines: Seq<Seq<char>>) -> Seq<(Seq<char>, GpuVendor)>
    decreases lines.len(),
{
    if lines.len() == 0 {
        seq![]
    } else {
        let prev = lspci_candidates(lines.drop_last());
        let line = lines.last();
        if !gpu_line(lowercase(line)) {
            prev
        } else {
            match clean_gpu_name(lspci_description(line)) {
                None => prev,
                Some(name) => if exists|j: int| 0 <= j < prev.len() && ascii_lower((#[trigger] prev[j]).0) == ascii_lower(name) {
                    prev
                } else {
                    prev.push((name, name_vendor(lowercase(name))))
                },
            }
        }
    }
}

/// The views of a list of adapter candidates.
pub open spec fn candidate_views(c: Seq<(String, GpuVendor)>) -> Seq<(Seq<char>, GpuVendor)> {
    c.map_values(|p: (String, GpuVendor)| (p.0@, p.1))
}

fn after_separator_chars(s: &Vec<char>, c: char) -> (res: Vec<char>)
    ensures
        res@ == after_separator(s@, c),
{
    let p = find_char_from(s, c, 0);
    assert(s@.skip(0) =~= s@);
    if p < s.len() {
        let rest = slice_chars(s, p + 1, s.len());
        assert(rest@ =~= s@.skip(p + 1));
        trim(&rest)
    } else {
        slice_chars(s, 0, s.len())
    }
}

fn known_candidate(found: &Vec<(String, GpuVendor)>, name: &Vec<char>) -> (res: bool)
    ensures
        res == exists|j: int| 0 <= j < found.len() && ascii_lower((#[trigger] candidate_views(found@)[j]).0) == ascii_lower(name@),
{
    let key = to_ascii_lowercase(name);
    let mut j: usize = 0;
    while j < found.len()
        invariant
            j <= found.len(),
            key@ == ascii_lower(name@),
            forall|k: int| 0 <= k < j ==> ascii_lower((#[trigger] candidate_views(found@)[k]).0) != ascii_lower(name@),
        decreases found.len() - j,
    {
        let other = to_ascii_lowercase(&chars_of(found[j].0.as_str()));
        if chars_equal(&other, &key) {
            assert(ascii_lower(candidate_views(found@)[j as int].0) == ascii_lower(name@));
            return true;
        }
        j = j + 1;
    }
    false
}

/// Whether `parse_lspci_gpus` accepts `output`: every adapter line among
/// its first 64 lines has a description that can be cleaned.
fn line_cleanable(line: &Vec<char>) -> (res: bool)
    ensures
        res == lspci_line_cleanable(line@),
{
    reveal(lspci_line_cleanable);
    let lower = lower_of(line);
    if has_text(&lower, "vga") || has_text(&lower, "3d controller") || has_text(&lower, "display controller") {
        let first = after_separator_chars(line, ':');
        let raw = trim(&first);
        let desc = after_separator_chars(&raw, ' ');
        clean_gpu_chars(&desc).is_some()
    } else {
        true
    }
}

/// Whether `parse_lspci_gpus` accepts `output`: every adapter line among
/// its first 64 lines has a description that can be cleaned.
pub fn lspci_output_cleanable(output: &str) -> (res: bool)
    ensures
        res == lspci_lines_cleanable(first_n(lines_seq(output@), 64)),
{
    let text = chars_of(output);
    let all = split_lines(&text);
    let ghost lines = first_n(lines_seq(output@), 64);
    let n: usize = if all.len() < 64 { all.len() } else { 64 };
    assert(char_vec_seqs(all@).take(n as int) =~= lines);
    let mut i: usize = 0;
    while i < n
        invariant
            i <= n <= all.len(),
            lines == char_vec_seqs(all@).take(n as int),
            lines == first_n(lines_seq(output@), 64),
            forall|j: int| 0 <= j < i ==> lspci_line_cleanable(#[trigger] lines[j]),
        decreases n - i,
    {
        assert(lines[i as int] == all@[i as int]@);
        if !line_cleanable(&all[i]) {
            assert(!lspci_line_cleanable(lines[i as int]));
            return false;
        }
        i = i + 1;
    }
    true
}

/// The display adapters that `lspci` lists in `output`: among its first 64
/// lines, those that name a VGA, 3D or display controller, each with its
/// cleaned name and vendor, once per name.
pub fn parse_lspci_gpus(output: &str) -> (res: Vec<(String, GpuVendor)>)
    requires
        lspci_lines_cleanable(first_n(lines_seq(output@), 64)),
    ensures
        candidate_views(res@) == lspci_candidates(first_n(lines_seq(output@), 64)),
{
    let text = chars_of(output);
    let all = split_lines(&text);
    let ghost lines = first_n(lines_seq(output@), 64);
    let n: usize = if all.len() < 64 { all.len() } else { 64 };
    assert(char_vec_seqs(all@).take(n as int) =~= lines);
    let mut found: Vec<(String, GpuVendor)> = Vec::new();
    let mut i: usize = 0;
    while i < n
        invariant
            i <= n <= all.len(),
            lines == char_vec_seqs(all@).take(n as int),
            lspci_lines_cleanable(lines),
            candidate_views(found@) == lspci_candidates(lines.take(i as int)),
        decreases n - i,
    {
        let line = &all[i];
        let ghost l = line@;
        assert(lines[i as int] == l);
        assert(lines.take(i + 1).drop_last() =~= lines.take(i as int));
        assert(lines.take(i + 1).last() == l);
        let lower = lower_of(line);
        if has_text(&lower, "vga") || has_text(&lower, "3d controller") || has_text(&lower, "display controller") {
            let first = after_separator_chars(line, ':');
            let raw = trim(&first);
            let desc = after_separator_chars(&raw, ' ');
            let cleaned = clean_gpu_chars(&desc);
            match cleaned {
                None => {},
                Some(name) => {
                    if !known_candidate(&found, &name) {
                        let vendor = vendor_of_name(&lower_of(&name));
                        let ghost before = found@;
                        found.push((string_of_chars(&name), vendor));
                        assert(candidate_views(found@) =~= candidate_views(before).push((name@, vendor)));
                    }
                },
            }
        }
        i = i + 1;
    }
    assert(lines.take(n as int) =~= lines);
    found
}

// ---------------------------------------------------------------------------
// Sensors
// ---------------------------------------------------------------------------

/// A lower-cased sensor label names a graphics adapter; `warm` tells that
/// the sensor reads a temperature above zero.
pub open spec fn gpu_sensor(l: Seq<char>, warm: bool) -> bool {
    let named = has_sub(l, "gpu"@) || has_sub(l, "vga"@) || has_sub(l, "graphics"@) || has_sub(l, "display"@)
        || (has_sub(l, "intel"@) && (has_sub(l, "hd"@) || has_sub(l, "iris"@) || has_sub(l, "uhd"@)
        || has_sub(l, "xe"@) || has_sub(l, "intel"@))) || (has_sub(l, "amd"@) && !has_sub(l, "nvidia"@));
    let integrated = has_sub(l, "intel"@) && (has_sub(l, "core"@) || has_sub(l, "pentium"@) || has_sub(l, "celeron"@)
        || has_sub(l, "xeon"@) || has_sub(l, "arc"@)) && (has_sub(l, "graphics"@) || has_sub(l, "gpu"@) || warm);
    named || integrated
}

/// Whether a sensor with the lower-cased label `lower` belongs to a graphics adapter.
pub fn is_gpu_sensor(lower: &Vec<char>, warm: bool) -> (res: bool)
    ensures
        res == gpu_sensor(lower@, warm),
{
    let intel = has_text(lower, "intel");
    let named = has_text(lower, "gpu") || has_text(lower, "vga") || has_text(lower, "graphics") || has_text(lower, "display")
        || (intel && (has_text(lower, "hd") || has_text(lower, "iris") || has_text(lower, "uhd")
        || has_text(lower, "xe") || intel)) || (has_text(lower, "amd") && !has_text(lower, "nvidia"));
    let integrated = intel && (has_text(lower, "core") || has_text(lower, "pentium") || has_text(lower, "celeron")
        || has_text(lower, "xeon") || has_text(lower, "arc")) && (has_text(lower, "graphics") || has_text(lower, "gpu") || warm);
    named || integrated
}

// ---------------------------------------------------------------------------
// The adapter list
// ---------------------------------------------------------------------------

/// Where an adapter of the list was found.
#[derive(Clone, Copy, Debug, PartialEq, Eq, Structural)]
pub enum GpuSource {
    /// The driver's device with this index among those given.
    Driver(usize),
    /// The sensor with this index.
    Sensor(usize),
    /// The `lspci` candidate with this index.
    Lspci(usize),
    /// No entry named the integrated Intel adapter, but its device node exists.
    IntelCard,
}

/// An adapter the driver reports.
#[derive(Debug)]
pub struct DriverGpu {
    pub name: String,
    /// The driver reports the adapter's memory size.
    pub has_memory_total: bool,
}

/// A temperature sensor, as the adapter list reads it.
#[derive(Debug)]
pub struct GpuSensor {
    pub label: String,
    /// The sensor reads a temperature above zero.
    pub warm: bool,
}

/// One line of the adapter list.
#[derive(Debug)]
pub struct GpuPick {
    pub name: String,
    pub vendor: GpuVendor,
    /// The line shows a memory size.
    pub has_memory_total: bool,
    pub source: GpuSource,
}

/// What a line of the adapter list holds, as values.
pub struct GpuPickView {
    pub name: Seq<char>,
    pub vendor: GpuVendor,
    pub has_memory_total: bool,
    pub source: GpuSource,
}

impl View for GpuPick {
    type V = GpuPickView;

    open spec fn view(&self) -> GpuPickView {
        GpuPickView { name: self.name@, vendor: self.vendor, has_memory_total: self.has_memory_total, source: self.source }
    }
}

/// The views of an adapter list.
pub open spec fn pick_views(s: Seq<GpuPick>) -> Seq<GpuPickView> {
    s.map_values(|p: GpuPick| p@)
}

/// The adapters the driver reports, first in the list.
pub open spec fn driver_picks(d: Seq<DriverGpu>) -> Seq<GpuPickView> {
    Seq::new(d.len(), |i: int| GpuPickView {
        name: d[i].name@,
        vendor: GpuVendor::Nvidia,
        has_memory_total: d[i].has_memory_total,
        source: GpuSource::Driver(i as usize),
    })
}

/// Some line of `g` is an NVIDIA adapter with a memory size (one the driver reported).
pub open spec fn has_driver_nvidia(g: Seq<GpuPickView>) -> bool {
    exists|j: int| 0 <= j < g.len() && (#[trigger] g[j]).vendor == GpuVendor::Nvidia && g[j].has_memory_total
}

/// Some line of `g` is an adapter of vendor `v`.
pub open spec fn has_vendor(g: Seq<GpuPickView>, v: GpuVendor) -> bool {
    exists|j: int| 0 <= j < g.len() && (#[trigger] g[j]).vendor == v
}

/// The list after looking at sensor `i`, labelled `label`: a graphics
/// sensor is added, unless it names NVIDIA while an NVIDIA adapter is
/// listed, or is NVIDIA while the driver reported one.
pub open spec fn sensor_step(g: Seq<GpuPickView>, label: Seq<char>, warm: bool, i: int, intel_memory: bool) -> Seq<GpuPickView> {
    let l = lowercase(label);
    let v = label_vendor(l);
    if !gpu_sensor(l, warm) {
        g
    } else if has_vendor(g, GpuVendor::Nvidia) && has_sub(l, "nvidia"@) {
        g
    } else if v == GpuVendor::Nvidia && has_driver_nvidia(g) {
        g
    } else {
        g.push(GpuPickView {
            name: label,
            vendor: v,
            has_memory_total: v == GpuVendor::Intel && intel_memory,
            source: GpuSource::Sensor(i as usize),
        })
    }
}

/// The list after looking at the first `n` sensors.
pub open spec fn sensor_picks(g: Seq<GpuPickView>, sensors: Seq<GpuSensor>, n: int, intel_memory: bool) -> Seq<GpuPickView>
    decreases n,
{
    if n <= 0 {
        g
    } else {
        sensor_step(sensor_picks(g, sensors, n - 1, intel_memory), sensors[n - 1].label@, sensors[n - 1].warm, n - 1, intel_memory)
    }
}

/// Some line of `g` has the name `name`, ignoring ASCII case, or a name
/// whose lower-cased form contains the lower-cased `name`.
pub open spec fn already_listed(g: Seq<GpuPickView>, name: Seq<char>) -> bool {
    exists|j: int| 0 <= j < g.len() && (ascii_lower((#[trigger] g[j]).name) == ascii_lower(name)
        || has_sub(lowercase(g[j].name), lowercase(name)))
}

/// The list after looking at `lspci` candidate `i`: added unless the list
/// has eight lines, or it is NVIDIA while the driver reported one, or it is
/// already listed.
pub open spec fn lspci_step(g: Seq<GpuPickView>, name: Seq<char>, vendor: GpuVendor, i: int, intel_memory: bool) -> Seq<GpuPickView> {
    if g.len() >= 8 {
        g
    } else if vendor == GpuVendor::Nvidia && has_driver_nvidia(g) {
        g
    } else if already_listed(g, name) {
        g
    } else {
        g.push(GpuPickView {
            name,
            vendor,
            has_memory_total: vendor == GpuVendor::Intel && intel_memory,
            source: GpuSource::Lspci(i as usize),
        })
    }
}

/// The list after looking at the first `n` `lspci` candidates.
pub open spec fn lspci_picks(g: Seq<GpuPickView>, c: Seq<(Seq<char>, GpuVendor)>, n: int, intel_memory: bool) -> Seq<GpuPickView>
    decreases n,
{
    if n <= 0 {
        g
    } else {
        lspci_step(lspci_picks(g, c, n - 1, intel_memory), c[n - 1].0, c[n - 1].1, n - 1, intel_memory)
    }
}

/// The full adapter list: the driver's adapters; the graphics sensors among
/// the first four; the `lspci` candidates not yet listed; and, when no
/// Intel adapter is listed but its device node exists, the integrated one.
pub open spec fn gpu_list(
    driver: Seq<DriverGpu>,
    sensors: Seq<GpuSensor>,
    candidates: Seq<(Seq<char>, GpuVendor)>,
    intel_memory: bool,
    intel_card: bool,
) -> Seq<GpuPickView> {
    let a = sensor_picks(driver_picks(driver), sensors, if sensors.len() < 4 { sensors.len() as int } else { 4 }, intel_memory);
    let b = lspci_picks(a, candidates, candidates.len() as int, intel_memory);
    if !has_vendor(b, GpuVendor::Intel) && intel_card {
        b.push(GpuPickView {
            name: "Intel Integrated Graphics"@,
            vendor: GpuVendor::Intel,
            has_memory_total: intel_memory,
            source: GpuSource::IntelCard,
        })
    } else {
        b
    }
}

fn listed_vendor(g: &Vec<GpuPick>, v: GpuVendor) -> (res: bool)
    ensures
        res == has_vendor(pick_views(g@), v),
{
    let mut j: usize = 0;
    while j < g.len()
        invariant
            j <= g.len(),
            forall|k: int| 0 <= k < j ==> (#[trigger] pick_views(g@)[k]).vendor != v,
        decreases g.len() - j,
    {
        if g[j].vendor == v {
            assert(pick_views(g@)[j as int].vendor == v);
            return true;
        }
        j = j + 1;
    }
    false
}

fn listed_driver_nvidia(g: &Vec<GpuPick>) -> (res: bool)
    ensures
        res == has_driver_nvidia(pick_views(g@)),
{
    let mut j: usize = 0;
    while j < g.len()
        invariant
            j <= g.len(),
            forall|k: int| 0 <= k < j ==> !((#[trigger] pick_views(g@)[k]).vendor == GpuVendor::Nvidia && pick_views(g@)[k].has_memory_total),
        decreases g.len() - j,
    {
        if g[j].vendor == GpuVendor::Nvidia && g[j].has_memory_total {
            assert(pick_views(g@)[j as int].vendor == GpuVendor::Nvidia);
            return true;
        }
        j = j + 1;
    }
    false
}

fn listed_name(g: &Vec<GpuPick>, name: &Vec<char>) -> (res: bool)
    ensures
        res == already_listed(pick_views(g@), name@),
{
    let key = to_ascii_lowercase(name);
    let lower = lower_of(name);
    let mut j: usize = 0;
    while j < g.len()
        invariant
            j <= g.len(),
            key@ == ascii_lower(name@),
            lower@ == lowercase(name@),
            forall|k: int| 0 <= k < j ==> !(ascii_lower((#[trigger] pick_views(g@)[k]).name) == ascii_lower(name@)
                || has_sub(lowercase(pick_views(g@)[k].name), lowercase(name@))),
        decreases g.len() - j,
    {
        let other = chars_of(g[j].name.as_str());
        let same = chars_equal(&to_ascii_lowercase(&other), &key);
        let inside = contains_sub(&lower_of(&other), &lower);
        if same || inside {
            assert(pick_views(g@)[j as int].name == other@);
            return true;
        }
        j = j + 1;
    }
    false
}

fn push_pick(g: &mut Vec<GpuPick>, pick: GpuPick)
    ensures
        pick_views(final(g)@) == pick_views(old(g)@).push(pick@),
{
    g.push(pick);
    assert(pick_views(final(g)@) =~= pick_views(old(g)@).push(pick@));
}

/// Puts the adapter list together (see `gpu_list`): `driver` holds the
/// adapters the driver reports, `sensors` the temperature sensors,
/// `candidates` what `lspci` lists; `intel_memory` tells that the size of
/// the memory the integrated Intel adapter shares is known, and
/// `intel_card` that its device node exists.
pub fn plan_gpus(
    driver: &Vec<DriverGpu>,
    sensors: &Vec<GpuSensor>,
    candidates: &Vec<(String, GpuVendor)>,
    intel_memory: bool,
    intel_card: bool,
) -> (res: Vec<GpuPick>)
    ensures
        pick_views(res@) == gpu_list(driver@, sensors@, candidate_views(candidates@), intel_memory, intel_card),
{
    let mut g: Vec<GpuPick> = Vec::new();
    let mut i: usize = 0;
    while i < driver.len()
        invariant
            i <= driver.len(),
            pick_views(g@) == driver_picks(driver@.take(i as int)),
        decreases driver.len() - i,
    {
        let pick = GpuPick {
            name: driver[i].name.clone(),
            vendor: GpuVendor::Nvidia,
            has_memory_total: driver[i].has_memory_total,
            source: GpuSource::Driver(i),
        };
        push_pick(&mut g, pick);
        assert(pick_views(g@) =~= driver_picks(driver@.take(i + 1)));
        i = i + 1;
    }
    assert(driver@.take(driver.len() as int) =~= driver@);
    let ghost base = pick_views(g@);
    let n: usize = if sensors.len() < 4 { sensors.len() } else { 4 };
    let mut k: usize = 0;
    while k < n
        invariant
            k <= n <= sensors.len(),
            pick_views(g@) == sensor_picks(base, sensors@, k as int, intel_memory),
        decreases n - k,
    {
        let label = chars_of(sensors[k].label.as_str());
        let lower = lower_of(&label);
        if is_gpu_sensor(&lower, sensors[k].warm) {
            let vendor = vendor_of_label(&lower);
            let duplicate = listed_vendor(&g, GpuVendor::Nvidia) && has_text(&lower, "nvidia");
            if !duplicate && !(vendor == GpuVendor::Nvidia && listed_driver_nvidia(&g)) {
                let pick = GpuPick {
                    name: sensors[k].label.clone(),
                    vendor,
                    has_memory_total: vendor == GpuVendor::Intel && intel_memory,
                    source: GpuSource::Sensor(k),
                };
                push_pick(&mut g, pick);
            }
        }
        k = k + 1;
    }
    let ghost mid = pick_views(g@);
    let ghost cv = candidate_views(candidates@);
    let mut c: usize = 0;
    while c < candidates.len()
        invariant
            c <= candidates.len(),
            cv == candidate_views(candidates@),
            pick_views(g@) == lspci_picks(mid, cv, c as int, intel_memory),
        decreases candidates.len() - c,
    {
        let name = chars_of(candidates[c].0.as_str());
        let vendor = candidates[c].1;
        assert(cv[c as int] == (name@, vendor));
        if g.len() < 8 && !(vendor == GpuVendor::Nvidia && listed_driver_nvidia(&g)) && !listed_name(&g, &name) {
            let pick = GpuPick {
                name: candidates[c].0.clone(),
                vendor,
                has_memory_total: vendor == GpuVendor::Intel && intel_memory,
                source: GpuSource::Lspci(c),
            };
            push_pick(&mut g, pick);
        }
        c = c + 1;
    }
    if !listed_vendor(&g, GpuVendor::Intel) && intel_card {
        let pick = GpuPick {
            name: String::from_str("Intel Integrated Graphics"),
            vendor: GpuVendor::Intel,
            has_memory_total: intel_memory,
            source: GpuSource::IntelCard,
        };
        push_pick(&mut g, pick);
    }
    g
}

/// The adapters that `lspci` lists are named once each: no two candidates
/// have names that differ only in ASCII case.
pub proof fn lemma_lspci_names_distinct(lines: Seq<Seq<char>>)
    ensures
        forall|i: int, j: int|
            0 <= i < j < lspci_candidates(lines).len() ==> ascii_lower((#[trigger] lspci_candidates(lines)[i]).0)
                != ascii_lower((#[trigger] lspci_candidates(lines)[j]).0),
    decreases lines.len(),
{
    if lines.len() > 0 {
        lemma_lspci_names_distinct(lines.drop_last());
        let prev = lspci_candidates(lines.drop_last());
        let cur = lspci_candidates(lines);
        assert forall|i: int, j: int| 0 <= i < j < cur.len() implies ascii_lower((#[trigger] cur[i]).0) != ascii_lower((#[trigger] cur[j]).0) by {
            if j < prev.len() {
                assert(cur[i] == prev[i]);
                assert(cur[j] == prev[j]);
            } else {
                assert(cur[i] == prev[i]);
            }
        }
    }
}

/// The adapters found in fewer lines stay, in place, when more lines follow.
proof fn lemma_candidates_grow(lines: Seq<Seq<char>>, k: int)
    requires
        0 <= k <= lines.len(),
    ensures
        lspci_candidates(lines.take(k)).len() <= lspci_candidates(lines).len(),
        forall|j: int| 0 <= j < lspci_candidates(lines.take(k)).len()
            ==> #[trigger] lspci_candidates(lines)[j] == lspci_candidates(lines.take(k))[j],
    decreases lines.len() - k,
{
    if k == lines.len() {
        assert(lines.take(k) =~= lines);
    } else {
        lemma_candidates_grow(lines, k + 1);
        let t = lines.take(k + 1);
        assert(t.drop_last() =~= lines.take(k));
    }
}

/// The candidates that the last line adds to those of the earlier lines.
proof fn lemma_candidates_last(lines: Seq<Seq<char>>)
    requires
        lines.len() > 0,
    ensures
        ({
            let prev = lspci_candidates(lines.drop_last());
            let cur = lspci_candidates(lines);
            let line = lines.last();
            let name = clean_gpu_name(lspci_description(line));
            &&& !gpu_line(lowercase(line)) || name is None ==> cur == prev
            &&& gpu_line(lowercase(line)) && name is Some ==> (
                if exists|j: int| 0 <= j < prev.len() && ascii_lower((#[trigger] prev[j]).0) == ascii_lower(name->0) {
                    cur == prev
                } else {
                    cur == prev.push((name->0, name_vendor(lowercase(name->0))))
                })
        }),
{
}

#[verifier::rlimit(60)]
proof fn lemma_line_found(lines: Seq<Seq<char>>, k: int)
    requires
        0 <= k < lines.len(),
        gpu_line(lowercase(lines[k])),
        clean_gpu_name(lspci_description(lines[k])) is Some,
    ensures
        exists|j: int| 0 <= j < lspci_candidates(lines).len()
            && ascii_lower((#[trigger] lspci_candidates(lines)[j]).0) == ascii_lower(clean_gpu_name(lspci_description(lines[k]))->0),
    decreases lines.len(),
{
    let init = lines.drop_last();
    let prev = lspci_candidates(init);
    let cur = lspci_candidates(lines);
    let name = clean_gpu_name(lspci_description(lines[k]))->0;
    lemma_candidates_last(lines);
    if k < lines.len() - 1 {
        assert(init[k] == lines[k]);
        lemma_line_found(init, k);
        let j = choose|j: int| 0 <= j < prev.len() && ascii_lower((#[trigger] prev[j]).0) == ascii_lower(name);
        assert(cur[j] == prev[j]);
    } else {
        assert(lines[k] == lines.last());
        if exists|j: int| 0 <= j < prev.len() && ascii_lower((#[trigger] prev[j]).0) == ascii_lower(name) {
            let j = choose|j: int| 0 <= j < prev.len() && ascii_lower((#[trigger] prev[j]).0) == ascii_lower(name);
            assert(cur[j] == prev[j]);
        } else {
            assert(cur[prev.len() as int].0 == name);
        }
    }
}

/// Every adapter line is found: when a line, lower-cased, mentions a VGA, 3D
/// or display controller and its description cleans to a name, some adapter
/// of the list has that name up to ASCII case (the line's own entry, when no
/// earlier line gave the name).
pub proof fn lemma_adapter_lines_found(lines: Seq<Seq<char>>, k: int)
    requires
        0 <= k < lines.len(),
        has_sub(lowercase(lines[k]), "vga"@) || has_sub(lowercase(lines[k]), "3d controller"@)
            || has_sub(lowercase(lines[k]), "display controller"@),
        clean_gpu_name(lspci_description(lines[k])) is Some,
    ensures
        exists|j: int| 0 <= j < lspci_candidates(lines).len()
            && ascii_lower((#[trigger] lspci_candidates(lines)[j]).0) == ascii_lower(clean_gpu_name(lspci_description(lines[k]))->0),
{
    lemma_line_found(lines, k);
}

/// Every adapter of the list comes from an adapter line: its name is the
/// cleaned description of a line that mentions a VGA, 3D or display
/// controller, and its vendor is the one that name points to.
pub proof fn lemma_adapters_come_from_lines(lines: Seq<Seq<char>>)
    ensures
        forall|j: int| 0 <= j < lspci_candidates(lines).len() ==> exists|k: int| 0 <= k < lines.len()
            && gpu_line(lowercase(#[trigger] lines[k]))
            && clean_gpu_name(lspci_description(lines[k])) == Some((#[trigger] lspci_candidates(lines)[j]).0)
            && lspci_candidates(lines)[j].1 == name_vendor(lowercase(lspci_candidates(lines)[j].0)),
    decreases lines.len(),
{
    if lines.len() > 0 {
        let init = lines.drop_last();
        lemma_adapters_come_from_lines(init);
        lemma_candidates_last(lines);
        let prev = lspci_candidates(init);
        let cur = lspci_candidates(lines);
        assert forall|j: int| 0 <= j < cur.len() implies exists|k: int| 0 <= k < lines.len()
            && gpu_line(lowercase(#[trigger] lines[k]))
            && clean_gpu_name(lspci_description(lines[k])) == Some((#[trigger] cur[j]).0)
            && cur[j].1 == name_vendor(lowercase(cur[j].0)) by {
            if j < prev.len() {
                assert(cur[j] == prev[j]);
                let k = choose|k: int| 0 <= k < init.len()
                    && gpu_line(lowercase(#[trigger] init[k]))
                    && clean_gpu_name(lspci_description(init[k])) == Some((#[trigger] prev[j]).0)
                    && prev[j].1 == name_vendor(lowercase(prev[j].0));
                assert(init[k] == lines[k]);
            } else {
                let k = lines.len() - 1;
                assert(lines[k] == lines.last());
            }
        }
    }
}
/// The vendor of an adapter name: NVIDIA wherever the name mentions
/// `nvidia`; otherwise Intel where it mentions `intel` or `arc`; otherwise
/// AMD where it mentions `amd`, `ati` or `radeon`; a name that mentions
/// none of these has no known vendor. Sensor labels go the same way, except
/// that `arc` alone does not point to Intel.
pub proof fn lemma_vendor_names(lower: Seq<char>)
    ensures
        has_sub(lower, "nvidia"@) ==> name_vendor(lower) == GpuVendor::Nvidia && label_vendor(lower) == GpuVendor::Nvidia,
        !has_sub(lower, "nvidia"@) && has_sub(lower, "intel"@) ==> name_vendor(lower) == GpuVendor::Intel
            && label_vendor(lower) == GpuVendor::Intel,
        !has_sub(lower, "nvidia"@) && has_sub(lower, "arc"@) ==> name_vendor(lower) == GpuVendor::Intel,
        !has_sub(lower, "nvidia"@) && !has_sub(lower, "intel"@) && !has_sub(lower, "arc"@)
            && (has_sub(lower, "amd"@) || has_sub(lower, "ati"@) || has_sub(lower, "radeon"@))
            ==> name_vendor(lower) == GpuVendor::Amd && label_vendor(lower) == GpuVendor::Amd,
        !has_sub(lower, "nvidia"@) && !has_sub(lower, "intel"@) && !has_sub(lower, "arc"@) && !has_sub(lower, "amd"@)
            && !has_sub(lower, "ati"@) && !has_sub(lower, "radeon"@)
            ==> name_vendor(lower) == GpuVendor::Unknown && label_vendor(lower) == GpuVendor::Unknown,
{
}

} // verus!
