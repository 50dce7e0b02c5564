//! Readers for the text that the kernel exports under `/proc` and `/sys`:
//! numbers, memory counters, graphics memory, paths and the uptime.

use vstd::prelude::*;
use vstd::string::StringExecFns;
use crate::text::{
    chars_equal, chars_of, contains_sub, dec, find_sub, first_index, has_prefix, has_sub, is_whitespace,
    is_ws, lemma_first_index, lines_seq, lowercase, lowercase_chars, occurs_at, push_dec, push_str,
    replace_all, replace_seq, digit_char, slice_chars, split_lines, starts_with, string_of_chars, char_pos,
    find_char_from, char_vec_seqs, to_ascii_lowercase, ascii_lower, trim, trim_seq,
};

verus! {

// ---------------------------------------------------------------------------
// Words and numbers
// ---------------------------------------------------------------------------

/// The position of the first white space in `s`, or its length.
pub open spec fn ws_pos(s: Seq<char>) -> nat
    decreases s.len(),
{
    if s.len() == 0 || is_ws(s[0]) {
        0
    } else {
        1 + ws_pos(s.drop_first())
    }
}

proof fn lemma_ws_pos(s: Seq<char>)
    ensures
        ws_pos(s) <= s.len(),
    decreases s.len(),
{
    if s.len() > 0 && !is_ws(s[0]) {
        lemma_ws_pos(s.drop_first());
    }
}

/// The words of `s`, as `str::split_whitespace` gives them.
pub open spec fn words(s: Seq<char>) -> Seq<Seq<char>>
    decreases s.len(),
{
    if s.len() == 0 {
        seq![]
    } else if is_ws(s[0]) {
        words(s.drop_first())
    } else {
        let e = ws_pos(s);
        if 0 < e <= s.len() {
            seq![s.take(e as int)] + words(s.skip(e as int))
        } else {
            seq![]
        }
    }
}

/// Splits `s` into its words.
pub fn split_words(s: &Vec<char>) -> (res: Vec<Vec<char>>)
    ensures
        char_vec_seqs(res@) == words(s@),
{
    let mut res: Vec<Vec<char>> = Vec::new();
    let mut i: usize = 0;
    assert(s@.skip(0) =~= s@);
    while i < s.len()
        invariant
            i <= s.len(),
            char_vec_seqs(res@) + words(s@.skip(i as int)) == words(s@),
        decreases s.len() - i,
    {
        let ghost rest = s@.skip(i as int);
        if is_whitespace(s[i]) {
            assert(rest.drop_first() =~= s@.skip(i + 1));
            i = i + 1;
        } else {
            let mut e: usize = i;
            assert(rest =~= s@.skip(e as int));
            while e < s.len() && !is_whitespace(s[e])
                invariant
                    i <= e <= s.len(),
                    ws_pos(rest) == (e - i) + ws_pos(s@.skip(e as int)),
                decreases s.len() - e,
            {
                assert(s@.skip(e as int).drop_first() =~= s@.skip(e + 1));
                e = e + 1;
            }
            proof {
                lemma_ws_pos(rest);
                if e < s.len() {
                    assert(s@.skip(e as int)[0] == s@[e as int]);
                }
            }
            let word = slice_chars(s, i, e);
            let ghost before = res@;
            res.push(word);
            proof {
                assert(rest.take((e - i) as int) =~= s@.subrange(i as int, e as int));
                assert(rest.skip((e - i) as int) =~= s@.skip(e as int));
                assert(char_vec_seqs(res@) =~= char_vec_seqs(before).push(word@));
                assert(char_vec_seqs(before) + words(rest) =~= char_vec_seqs(res@) + words(s@.skip(e as int)));
            }
            i = e;
        }
    }
    assert(s@.skip(i as int).len() == 0);
    assert(char_vec_seqs(res@) + words(s@.skip(i as int)) =~= char_vec_seqs(res@));
    res
}

/// `c` is an ASCII decimal digit.
pub open spec fn is_digit(c: char) -> bool {
    '0' <= c <= '9'
}

/// The value of the decimal digits `d`.
pub open spec fn digits_value(d: Seq<char>) -> nat
    decreases d.len(),
{
    if d.len() == 0 {
        0
    } else {
        digits_value(d.drop_last()) * 10 + ((d.last() as u32) - 48) as nat
    }
}

/// `s` without one leading `+`.
pub open spec fn unsigned_digits(s: Seq<char>) -> Seq<char> {
    if s.len() > 0 && s[0] == '+' {
        s.drop_first()
    } else {
        s
    }
}

/// What `str::parse` gives for an unsigned integer of at most `max`: an
/// optional `+` followed by at least one decimal digit and nothing else,
/// whose value is at most `max`.
pub open spec fn parsed_nat(s: Seq<char>, max: nat) -> Option<nat> {
    let d = unsigned_digits(s);
    if d.len() > 0 && (forall|i: int| 0 <= i < d.len() ==> is_digit(#[trigger] d[i])) && digits_value(d) <= max {
        Some(digits_value(d))
    } else {
        None
    }
}

proof fn lemma_digits_grow(d: Seq<char>, i: int)
    requires
        0 <= i <= d.len(),
        forall|j: int| 0 <= j < d.len() ==> is_digit(#[trigger] d[j]),
    ensures
        digits_value(d.take(i)) <= digits_value(d),
    decreases d.len() - i,
{
    if i < d.len() {
        lemma_digits_grow(d, i + 1);
        assert(d.take(i + 1).drop_last() =~= d.take(i));
    } else {
        assert(d.take(i) =~= d);
    }
}

/// Parses an unsigned decimal number of at most `max`, as `str::parse` does
/// for `u64` (with `max` `u64::MAX`) or `u32` (with `max` `u32::MAX`).
pub fn parse_unsigned(s: &Vec<char>, max: u64) -> (res: Option<u64>)
    ensures
        match parsed_nat(s@, max as nat) {
            Some(v) => res == Some(v as u64),
            None => res is None,
        },
{
    let start: usize = if s.len() > 0 && s[0] == '+' { 1 } else { 0 };
    let ghost d = unsigned_digits(s@);
    assert(d =~= s@.skip(start as int));
    if start >= s.len() {
        return None;
    }
    let mut v: u64 = 0;
    let mut i: usize = start;
    while i < s.len()
        invariant
            start <= i <= s.len(),
            start < s.len(),
            d == s@.skip(start as int),
            d == unsigned_digits(s@),
            forall|j: int| 0 <= j < i - start ==> is_digit(#[trigger] d[j]),
            v == digits_value(d.take(i - start)),
            v <= max,
        decreases s.len() - i,
    {
        let c = s[i];
        if c < '0' || c > '9' {
            assert(!is_digit(d[i - start]));
            assert(!(forall|j: int| 0 <= j < d.len() ==> is_digit(#[trigger] d[j])));
            return None;
        }
        let digit: u64 = ((c as u32) - 48) as u64;
        assert(d.take(i - start + 1).drop_last() =~= d.take(i - start));
        assert(d.take(i - start + 1).last() == c);
        let next = match v.checked_mul(10) {
            None => None,
            Some(t) => t.checked_add(digit),
        };
        match next {
            Some(n) if n <= max => {
                v = n;
            },
            _ => {
                proof {
                    if forall|j: int| 0 <= j < d.len() ==> is_digit(#[trigger] d[j]) {
                        lemma_digits_grow(d, i - start + 1);
                        assert(digits_value(d.take(i - start + 1)) == v * 10 + digit);
                        assert(digits_value(d) > max);
                    }
                }
                return None;
            },
        }
        i = i + 1;
    }
    assert(d.take(i - start) =~= d);
    Some(v)
}

// ---------------------------------------------------------------------------
// /proc/meminfo
// ---------------------------------------------------------------------------

/// The value of a `/proc/meminfo` line: the second word, in bytes where the
/// unit (the third word, `kB` when there is none) is `kB` or `KB`, saturated.
pub open spec fn meminfo_line_value(w: Seq<Seq<char>>) -> Option<u64> {
    if w.len() < 2 {
        None
    } else {
        match parsed_nat(w[1], u64::MAX as nat) {
            None => None,
            Some(v) => Some(
                if w.len() < 3 || w[2] == "kB"@ || w[2] == "KB"@ {
                    if v * 1024 > u64::MAX { u64::MAX } else { (v * 1024) as u64 }
                } else {
                    v as u64
                },
            ),
        }
    }
}

/// The value of the first line of `lines` that starts with `key`.
pub open spec fn meminfo_value(lines: Seq<Seq<char>>, key: Seq<char>) -> Option<u64>
    decreases lines.len(),
{
    if lines.len() == 0 {
        None
    } else if has_prefix(lines[0], key) {
        meminfo_line_value(words(lines[0]))
    } else {
        meminfo_value(lines.drop_first(), key)
    }
}

fn word_is(w: &Vec<char>, lit: &str) -> (res: bool)
    ensures
        res == (w@ == lit@),
{
    chars_equal(w, &chars_of(lit))
}

/// The value, in bytes, that `/proc/meminfo` (given as `content`) reports
/// under `key`: read from the first line that starts with `key`; `None`
/// where that line has no number or no line starts with `key`.
pub fn meminfo_key_bytes(content: &str, key: &str) -> (res: Option<u64>)
    ensures
        res == meminfo_value(lines_seq(content@), key@),
{
    let lines = split_lines(&chars_of(content));
    let k = chars_of(key);
    let ghost ls = char_vec_seqs(lines@);
    let mut i: usize = 0;
    assert(ls.skip(0) =~= ls);
    while i < lines.len()
        invariant
            i <= lines.len(),
            ls == char_vec_seqs(lines@),
            ls == lines_seq(content@),
            k@ == key@,
            meminfo_value(ls, key@) == meminfo_value(ls.skip(i as int), key@),
        decreases lines.len() - i,
    {
        assert(ls.skip(i as int)[0] == lines@[i as int]@);
        if starts_with(&lines[i], &k) {
            let w = split_words(&lines[i]);
            if w.len() < 2 {
                return None;
            }
            let v = match parse_unsigned(&w[1], u64::MAX) {
                None => {
                    return None;
                },
                Some(v) => v,
            };
            assert(char_vec_seqs(w@)[1] == w@[1]@);
            let kb = w.len() < 3 || word_is(&w[2], "kB") || word_is(&w[2], "KB");
            proof {
                if w.len() >= 3 {
                    assert(char_vec_seqs(w@)[2] == w@[2]@);
                }
            }
            let bytes = if kb {
                match v.checked_mul(1024) {
                    Some(x) => x,
                    None => u64::MAX,
                }
            } else {
                v
            };
            return Some(bytes);
        }
        assert(ls.skip(i as int).drop_first() =~= ls.skip(i + 1));
        i = i + 1;
    }
    None
}

/// The number after `Cached:` in the first line that starts with `Cached:`
/// and has a number as its second word.
pub open spec fn cached_kb(lines: Seq<Seq<char>>) -> Option<u64>
    decreases lines.len(),
{
    if lines.len() == 0 {
        None
    } else {
        let w = words(lines[0]);
        if has_prefix(lines[0], "Cached:"@) && w.len() >= 2 && parsed_nat(w[1], u64::MAX as nat) is Some {
            Some(parsed_nat(w[1], u64::MAX as nat)->0 as u64)
        } else {
            cached_kb(lines.drop_first())
        }
    }
}

/// The page cache size in kibibytes that `/proc/meminfo` (given as
/// `content`) reports.
pub fn cached_memory_kb(content: &str) -> (res: Option<u64>)
    ensures
        res == cached_kb(lines_seq(content@)),
{
    let lines = split_lines(&chars_of(content));
    let k = chars_of("Cached:");
    let ghost ls = char_vec_seqs(lines@);
    let mut i: usize = 0;
    assert(ls.skip(0) =~= ls);
    while i < lines.len()
        invariant
            i <= lines.len(),
            k@ == "Cached:"@,
            ls == char_vec_seqs(lines@),
            ls == lines_seq(content@),
            cached_kb(ls) == cached_kb(ls.skip(i as int)),
        decreases lines.len() - i,
    {
        assert(ls.skip(i as int)[0] == lines@[i as int]@);
        if starts_with(&lines[i], &k) {
            let w = split_words(&lines[i]);
            if w.len() >= 2 {
                assert(char_vec_seqs(w@)[1] == w@[1]@);
                match parse_unsigned(&w[1], u64::MAX) {
                    Some(v) => {
                        return Some(v);
                    },
                    None => {},
                }
            }
        }
        assert(ls.skip(i as int).drop_first() =~= ls.skip(i + 1));
        i = i + 1;
    }
    None
}

/// The page cache size in bytes that `/proc/meminfo` (given as `content`)
/// reports, or 0 where it reports none.
pub fn cached_memory_bytes(content: &str) -> (res: u64)
    requires
        cached_kb(lines_seq(content@)) matches Some(v) ==> v * 1024 <= u64::MAX,
    ensures
        res == match cached_kb(lines_seq(content@)) {
            Some(v) => v * 1024,
            None => 0,
        },
{
    match cached_memory_kb(content) {
        Some(v) => v * 1024,
        None => 0,
    }
}

// ---------------------------------------------------------------------------
// Graphics memory and paths
// ---------------------------------------------------------------------------

/// The larger of two optional numbers; a number where only one is given.
pub open spec fn opt_max(a: Option<u64>, b: Option<u64>) -> Option<u64> {
    match (a, b) {
        (Some(x), Some(y)) => Some(if x >= y { x } else { y }),
        (Some(x), None) => Some(x),
        (None, _) => b,
    }
}

/// The largest number among the words of `t` (first `n` of them) that stand
/// just before a word containing `bytes`, once commas are removed.
pub open spec fn byte_counts(t: Seq<Seq<char>>, n: int) -> Option<u64>
    decreases n,
{
    if n <= 1 {
        None
    } else {
        let i = n - 1;
        let here = if has_sub(lowercase(t[i]), "bytes"@) {
            match parsed_nat(replace_seq(t[i - 1], ","@, Seq::<char>::empty()), u64::MAX as nat) {
                Some(v) => Some(v as u64),
                None => None,
            }
        } else {
            None
        };
        opt_max(byte_counts(t, n - 1), here)
    }
}

/// The largest byte count in the i915 `gem_objects` text `lines` (first `n`
/// lines): a number just before a word with `bytes`, on lines that mention `bytes`.
pub open spec fn gem_bytes(lines: Seq<Seq<char>>, n: int) -> Option<u64>
    decreases n,
{
    if n <= 0 {
        None
    } else {
        let l = lines[n - 1];
        let here = if has_sub(lowercase(l), "bytes"@) {
            let t = words(l);
            byte_counts(t, t.len() as int)
        } else {
            None
        };
        opt_max(gem_bytes(lines, n - 1), here)
    }
}

fn opt_max_exec(a: Option<u64>, b: Option<u64>) -> (res: Option<u64>)
    ensures
        res == opt_max(a, b),
{
    match (a, b) {
        (Some(x), Some(y)) => Some(if x >= y { x } else { y }),
        (Some(x), None) => Some(x),
        (None, _) => b,
    }
}

fn lower_of(v: &Vec<char>) -> (res: Vec<char>)
    ensures
        res@ == lowercase(v@),
{
    let s = string_of_chars(v);
    lowercase_chars(s.as_str())
}

fn line_byte_count(t: &Vec<Vec<char>>) -> (res: Option<u64>)
    ensures
        res == byte_counts(char_vec_seqs(t@), t.len() as int),
{
    proof {
        reveal_strlit(",");
    }
    let ghost ts = char_vec_seqs(t@);
    let comma = chars_of(",");
    let bytes = chars_of("bytes");
    let empty: Vec<char> = Vec::new();
    let mut best: Option<u64> = None;
    if t.len() < 2 {
        return None;
    }
    let mut i: usize = 1;
    while i < t.len()
        invariant
            1 <= i <= t.len(),
            ts == char_vec_seqs(t@),
            comma@ == ","@,
            comma@.len() == 1,
            bytes@ == "bytes"@,
            empty@ == Seq::<char>::empty(),
            best == byte_counts(ts, i as int),
        decreases t.len() - i,
    {
        assert(ts[i as int] == t@[i as int]@);
        assert(ts[i - 1] == t@[i - 1]@);
        let here = if contains_sub(&lower_of(&t[i]), &bytes) {
            let n = replace_all(&t[i - 1], &comma, &empty);
            parse_unsigned(&n, u64::MAX)
        } else {
            None
        };
        best = opt_max_exec(best, here);
        i = i + 1;
    }
    best
}

/// The largest byte count that the i915 `gem_objects` text `content` shows:
/// on each line that mentions `bytes`, the numbers (commas removed) that
/// stand just before a word containing `bytes`.
pub fn parse_i915_gem_objects_bytes(content: &str) -> (res: Option<u64>)
    ensures
        res == gem_bytes(lines_seq(content@), lines_seq(content@).len() as int),
{
    let lines = split_lines(&chars_of(content));
    let ghost ls = char_vec_seqs(lines@);
    let bytes = chars_of("bytes");
    let mut best: Option<u64> = None;
    let mut i: usize = 0;
    while i < lines.len()
        invariant
            i <= lines.len(),
            ls == char_vec_seqs(lines@),
            ls == lines_seq(content@),
            bytes@ == "bytes"@,
            best == gem_bytes(ls, i as int),
        decreases lines.len() - i,
    {
        assert(ls[i as int] == lines@[i as int]@);
        let here = if contains_sub(&lower_of(&lines[i]), &bytes) {
            let t = split_words(&lines[i]);
            line_byte_count(&t)
        } else {
            None
        };
        best = opt_max_exec(best, here);
        i = i + 1;
    }
    best
}

/// The tile key of a GPU sysfs path: the part after `/gt/` up to the next
/// `/` when it begins with `gt`, else `card`.
pub open spec fn gt_key(path: Seq<char>) -> Seq<char> {
    if has_sub(path, "/gt/"@) {
        let suffix = path.skip(first_index(path, "/gt/"@) + 4);
        let key = suffix.take(char_pos(suffix, '/') as int);
        if has_prefix(key, "gt"@) {
            key
        } else {
            "card"@
        }
    } else {
        "card"@
    }
}

/// The tile key of a GPU sysfs path (see `gt_key`).
pub fn intel_gt_key_from_path(path: &str) -> (res: String)
    ensures
        res@ == gt_key(path@),
{
    proof {
        reveal_strlit("/gt/");
    }
    let p = chars_of(path);
    let marker = chars_of("/gt/");
    match find_sub(&p, &marker) {
        None => String::from_str("card"),
        Some(idx) => {
            proof {
                lemma_first_index(p@, marker@, idx as int);
                assert(occurs_at(p@, marker@, idx as int));
                assert(marker@.len() == 4);
                assert(idx + 4 <= p.len());
            }
            let suffix = slice_chars(&p, idx + 4, p.len());
            assert(suffix@ =~= p@.skip(idx + 4));
            let end = find_char_from(&suffix, '/', 0);
            assert(suffix@.skip(0) =~= suffix@);
            let key = slice_chars(&suffix, 0, end);
            assert(key@ =~= suffix@.take(end as int));
            if starts_with(&key, &chars_of("gt")) {
                string_of_chars(&key)
            } else {
                String::from_str("card")
            }
        },
    }
}

/// The memory that the integrated Intel adapter can use: with the available
/// and total memory known, the available memory plus what the adapter
/// holds, at most the total and at least what it holds; with fewer numbers
/// known, the best bound they give; the system total as a last resort.
pub open spec fn shared_memory(available: Option<u64>, total: Option<u64>, used: Option<u64>, system_total: u64) -> Option<u64> {
    match (available, total, used) {
        (Some(a), Some(t), Some(u)) => {
            let dynamic: int = if a + u > u64::MAX { u64::MAX as int } else { a + u };
            let capped: int = if dynamic < t { dynamic } else { t as int };
            Some((if capped > u { capped } else { u as int }) as u64)
        },
        (Some(a), Some(t), None) => Some(if a < t { a } else { t }),
        (Some(a), None, Some(u)) => Some(if a + u > u64::MAX { u64::MAX } else { (a + u) as u64 }),
        (Some(a), None, None) => Some(a),
        (None, Some(t), _) => Some(t),
        (None, None, _) => if system_total > 0 { Some(system_total) } else { None },
    }
}

/// The memory that the integrated Intel adapter can use (see `shared_memory`).
pub fn intel_shared_memory_total(available: Option<u64>, total: Option<u64>, used: Option<u64>, system_total: u64) -> (res: Option<u64>)
    ensures
        res == shared_memory(available, total, used, system_total),
{
    match (available, total, used) {
        (Some(a), Some(t), Some(u)) => {
            let dynamic = a.saturating_add(u);
            let capped = if dynamic < t { dynamic } else { t };
            Some(if capped > u { capped } else { u })
        },
        (Some(a), Some(t), None) => Some(if a < t { a } else { t }),
        (Some(a), None, Some(u)) => Some(a.saturating_add(u)),
        (Some(a), None, None) => Some(a),
        (None, Some(t), _) => Some(t),
        (None, None, _) => if system_total > 0 { Some(system_total) } else { None },
    }
}

// ---------------------------------------------------------------------------
// Frequencies, uptime, sensors and batteries
// ---------------------------------------------------------------------------

/// A frequency read from cpufreq, in MHz: the trimmed text as a number,
/// taken as kHz (divided by 1000) from 100000 up; `None` for text that is no
/// number, or for zero.
pub open spec fn sysfs_frequency(raw: Seq<char>) -> Option<u64> {
    match parsed_nat(trim_seq(raw), u64::MAX as nat) {
        None => None,
        Some(v) => if v == 0 {
            None
        } else if v >= 100_000 {
            Some((v / 1000) as u64)
        } else {
            Some(v as u64)
        },
    }
}

/// Reads a frequency from the text of a cpufreq file (see `sysfs_frequency`).
pub fn frequency_from_sysfs(raw: &str) -> (res: Option<u64>)
    ensures
        res == sysfs_frequency(raw@),
{
    let t = trim(&chars_of(raw));
    match parse_unsigned(&t, u64::MAX) {
        None => None,
        Some(v) => if v == 0 {
            None
        } else if v >= 100_000 {
            Some(v / 1000)
        } else {
            Some(v)
        },
    }
}

/// Per-processor frequencies: the reported ones, padded with zeros to
/// `cpu_count`; where one is zero, the cpufreq reading if there is one, else
/// the `/proc/cpuinfo` reading if there is one.
pub open spec fn filled_frequency(reported: Seq<u64>, sysfs: Seq<Option<u64>>, cpuinfo: Seq<Option<u64>>, i: int) -> u64 {
    let r = if i < reported.len() { reported[i] } else { 0 };
    if r != 0 {
        r
    } else if i < sysfs.len() && sysfs[i] is Some {
        sysfs[i]->0
    } else if i < cpuinfo.len() && cpuinfo[i] is Some {
        cpuinfo[i]->0
    } else {
        0
    }
}

/// Fills in the processor frequencies (see `filled_frequency`).
pub fn fill_cpu_frequencies(reported: &Vec<u64>, cpu_count: usize, sysfs: &Vec<Option<u64>>, cpuinfo: &Vec<Option<u64>>) -> (res: Vec<u64>)
    ensures
        res.len() == if reported.len() < cpu_count { cpu_count as int } else { reported.len() as int },
        forall|i: int| 0 <= i < cpu_count ==> #[trigger] res@[i] == filled_frequency(reported@, sysfs@, cpuinfo@, i),
        forall|i: int| cpu_count <= i < reported.len() ==> #[trigger] res@[i] == reported@[i],
{
    let n: usize = if reported.len() < cpu_count { cpu_count } else { reported.len() };
    let mut res: Vec<u64> = Vec::new();
    let mut i: usize = 0;
    while i < n
        invariant
            i <= n,
            n == if reported.len() < cpu_count { cpu_count as int } else { reported.len() as int },
            res.len() == i,
            forall|j: int| 0 <= j < i && j < cpu_count ==> #[trigger] res@[j] == filled_frequency(reported@, sysfs@, cpuinfo@, j),
            forall|j: int| cpu_count <= j < i ==> #[trigger] res@[j] == reported@[j],
        decreases n - i,
    {
        let r: u64 = if i < reported.len() { reported[i] } else { 0 };
        let f: u64 = if r != 0 || i >= cpu_count {
            r
        } else if i < sysfs.len() && sysfs[i].is_some() {
            match sysfs[i] {
                Some(v) => v,
                None => 0,
            }
        } else if i < cpuinfo.len() && cpuinfo[i].is_some() {
            match cpuinfo[i] {
                Some(v) => v,
                None => 0,
            }
        } else {
            0
        };
        res.push(f);
        i = i + 1;
    }
    res
}

/// The key of a `key: value` line: what stands before the first colon,
/// trimmed; `None` where the line has no colon.
pub open spec fn line_key(l: Seq<char>) -> Option<Seq<char>> {
    let p = char_pos(l, ':');
    if p < l.len() { Some(trim_seq(l.take(p as int))) } else { None }
}

/// The value of a `key: value` line: what follows the first colon, trimmed.
pub open spec fn line_value(l: Seq<char>) -> Seq<char> {
    trim_seq(l.skip(char_pos(l, ':') as int + 1))
}

/// The `cpu MHz` values of `/proc/cpuinfo` (given as its lines), each with
/// the number of the last `processor` line before it. A `processor` line
/// whose value is not a number leaves the values after it unnumbered, and
/// those are left out, as are values before any `processor` line.
pub open spec fn cpu_mhz_entries(lines: Seq<Seq<char>>, current: Option<u64>) -> Seq<(usize, Seq<char>)>
    decreases lines.len(),
{
    if lines.len() == 0 {
        seq![]
    } else {
        let l = lines[0];
        let rest = lines.drop_first();
        match line_key(l) {
            Some(key) => if key == "processor"@ {
                cpu_mhz_entries(rest, match parsed_nat(line_value(l), usize::MAX as nat) {
                    Some(v) => Some(v as u64),
                    None => None,
                })
            } else if key == "cpu MHz"@ && current is Some {
                seq![(current->0 as usize, line_value(l))] + cpu_mhz_entries(rest, current)
            } else {
                cpu_mhz_entries(rest, current)
            },
            None => cpu_mhz_entries(rest, current),
        }
    }
}

/// The views of a list of numbered values.
pub open spec fn numbered_views(v: Seq<(usize, String)>) -> Seq<(usize, Seq<char>)> {
    v.map_values(|e: (usize, String)| (e.0, e.1@))
}

/// Reads the `cpu MHz` values of `/proc/cpuinfo` (given as `content`), each
/// with the number of its processor (see `cpu_mhz_entries`).
pub fn cpu_mhz_fields(content: &str) -> (res: Vec<(usize, String)>)
    ensures
        numbered_views(res@) == cpu_mhz_entries(lines_seq(content@), None::<u64>),
{
    let lines = split_lines(&chars_of(content));
    let processor = chars_of("processor");
    let mhz = chars_of("cpu MHz");
    let ghost ls = char_vec_seqs(lines@);
    let mut res: Vec<(usize, String)> = Vec::new();
    let mut current: Option<u64> = None;
    let mut i: usize = 0;
    assert(ls.skip(0) =~= ls);
    while i < lines.len()
        invariant
            i <= lines.len(),
            ls == char_vec_seqs(lines@),
            ls == lines_seq(content@),
            processor@ == "processor"@,
            mhz@ == "cpu MHz"@,
            numbered_views(res@) + cpu_mhz_entries(ls.skip(i as int), current) == cpu_mhz_entries(ls, None::<u64>),
        decreases lines.len() - i,
    {
        let line = &lines[i];
        let ghost l = line@;
        assert(ls.skip(i as int)[0] == l);
        assert(ls.skip(i as int).drop_first() =~= ls.skip(i + 1));
        assert(line@.skip(0) =~= line@);
        let p = find_char_from(line, ':', 0);
        if p < line.len() {
            let key = trim(&slice_chars(line, 0, p));
            let value = trim(&slice_chars(line, p + 1, line.len()));
            assert(l.take(p as int) =~= l.subrange(0, p as int));
            assert(l.skip(p + 1) =~= l.subrange(p + 1, l.len() as int));
            if chars_equal(&key, &processor) {
                current = parse_unsigned(&value, usize::MAX as u64);
            } else if chars_equal(&key, &mhz) && current.is_some() {
                let n: u64 = match current {
                    Some(n) => n,
                    None => 0,
                };
                let ghost before = numbered_views(res@);
                res.push((n as usize, string_of_chars(&value)));
                assert(numbered_views(res@) =~= before.push((n as usize, value@)));
                assert(numbered_views(res@) + cpu_mhz_entries(ls.skip(i + 1), current)
                    =~= before + (seq![(n as usize, value@)] + cpu_mhz_entries(ls.skip(i + 1), current)));
            }
        }
        i = i + 1;
    }
    assert(numbered_views(res@) + cpu_mhz_entries(ls.skip(i as int), current) =~= numbered_views(res@));
    res
}

/// The uptime text: whole days, hours and minutes of `seconds`.
pub open spec fn uptime_text(seconds: nat) -> Seq<char> {
    dec(seconds / 86400) + "d "@ + dec((seconds % 86400) / 3600) + "h "@ + dec((seconds % 3600) / 60) + "m"@
}

/// Renders an uptime given in seconds as `{days}d {hours}h {minutes}m`.
pub fn format_uptime(seconds: u64) -> (res: String)
    ensures
        res@ == uptime_text(seconds as nat),
{
    let mut out: Vec<char> = Vec::new();
    push_dec(&mut out, seconds / 86400);
    push_str(&mut out, "d ");
    push_dec(&mut out, (seconds % 86400) / 3600);
    push_str(&mut out, "h ");
    push_dec(&mut out, (seconds % 3600) / 60);
    push_str(&mut out, "m");
    string_of_chars(&out)
}

/// A lower-cased sensor label that names a processor sensor.
pub open spec fn cpu_sensor_label(l: Seq<char>) -> bool {
    has_sub(l, "cpu"@) || has_sub(l, "package"@) || has_sub(l, "x86_pkg_temp"@) || has_sub(l, "tdie"@)
        || has_sub(l, "tctl"@) || has_sub(l, "tcpu"@)
}

/// Whether one of the sensor `labels` (compared without regard to ASCII
/// case) is a processor sensor.
pub fn has_cpu_sensor(labels: &Vec<String>) -> (res: bool)
    ensures
        res == exists|i: int| 0 <= i < labels.len() && cpu_sensor_label(ascii_lower((#[trigger] labels@[i])@)),
{
    let mut i: usize = 0;
    while i < labels.len()
        invariant
            i <= labels.len(),
            forall|j: int| 0 <= j < i ==> !cpu_sensor_label(ascii_lower((#[trigger] labels@[j])@)),
        decreases labels.len() - i,
    {
        let l = to_ascii_lowercase(&chars_of(labels[i].as_str()));
        if contains_sub(&l, &chars_of("cpu")) || contains_sub(&l, &chars_of("package"))
            || contains_sub(&l, &chars_of("x86_pkg_temp")) || contains_sub(&l, &chars_of("tdie"))
            || contains_sub(&l, &chars_of("tctl")) || contains_sub(&l, &chars_of("tcpu")) {
            return true;
        }
        i = i + 1;
    }
    false
}

/// The machine has no battery, by its DMI chassis type (the number in
/// `chassis`, 0 when there is none): it is not a desktop (3) nor a portable,
/// laptop or notebook (8, 9, 10).
pub open spec fn chassis_without_battery(chassis: Seq<char>) -> bool {
    let n: nat = match parsed_nat(trim_seq(chassis), u32::MAX as nat) {
        Some(v) => v,
        None => 0,
    };
    n != 3 && n != 8 && n != 9 && n != 10
}

/// Whether the DMI chassis type text says that the machine has no battery.
pub fn no_battery_chassis(chassis: &str) -> (res: bool)
    ensures
        res == chassis_without_battery(chassis@),
{
    let t = trim(&chars_of(chassis));
    let n: u64 = match parse_unsigned(&t, 0xffff_ffff) {
        Some(v) => v,
        None => 0,
    };
    n != 3 && n != 8 && n != 9 && n != 10
}

/// The battery state that a Windows status code names.
pub open spec fn battery_status_of(code: Seq<char>) -> Seq<char> {
    if code == "1"@ {
        "Discharging"@
    } else if code == "2"@ {
        "AC attached"@
    } else if code == "3"@ {
        "Fully charged"@
    } else if code == "4"@ {
        "Low"@
    } else if code == "5"@ {
        "Critical"@
    } else if code == "6"@ {
        "Charging"@
    } else {
        "Unknown"@
    }
}

/// Names the battery state that a Windows status code (trimmed) stands for.
pub fn battery_status_name(output: &str) -> (res: &'static str)
    ensures
        res@ == battery_status_of(trim_seq(output@)),
{
    let t = trim(&chars_of(output));
    if chars_equal(&t, &chars_of("1")) {
        "Discharging"
    } else if chars_equal(&t, &chars_of("2")) {
        "AC attached"
    } else if chars_equal(&t, &chars_of("3")) {
        "Fully charged"
    } else if chars_equal(&t, &chars_of("4")) {
        "Low"
    } else if chars_equal(&t, &chars_of("5")) {
        "Critical"
    } else if chars_equal(&t, &chars_of("6")) {
        "Charging"
    } else {
        "Unknown"
    }
}

/// The first of `lines` that contains `needle`.
pub open spec fn first_line_with(lines: Seq<Seq<char>>, needle: Seq<char>) -> Option<Seq<char>>
    decreases lines.len(),
{
    if lines.len() == 0 {
        None
    } else if has_sub(lines[0], needle) {
        Some(lines[0])
    } else {
        first_line_with(lines.drop_first(), needle)
    }
}

/// The line of `pmset -g batt` output (given as `output`) that describes the
/// internal battery: the first line that mentions `InternalBattery`.
pub fn pmset_battery_line(output: &str) -> (res: Option<String>)
    ensures
        match first_line_with(lines_seq(output@), "InternalBattery"@) {
            Some(l) => res matches Some(r) && r@ == l,
            None => res is None,
        },
{
    let lines = split_lines(&chars_of(output));
    let needle = chars_of("InternalBattery");
    let ghost ls = char_vec_seqs(lines@);
    let mut i: usize = 0;
    assert(ls.skip(0) =~= ls);
    while i < lines.len()
        invariant
            i <= lines.len(),
            ls == char_vec_seqs(lines@),
            ls == lines_seq(output@),
            needle@ == "InternalBattery"@,
            first_line_with(ls, "InternalBattery"@) == first_line_with(ls.skip(i as int), "InternalBattery"@),
        decreases lines.len() - i,
    {
        assert(ls.skip(i as int)[0] == lines@[i as int]@);
        if contains_sub(&lines[i], &needle) {
            return Some(string_of_chars(&lines[i]));
        }
        assert(ls.skip(i as int).drop_first() =~= ls.skip(i + 1));
        i = i + 1;
    }
    None
}

/// In a `pmset` battery line that has both an opening parenthesis and a
/// percent sign, the parenthesis comes first.
pub open spec fn percent_in_order(l: Seq<char>) -> bool {
    char_pos(l, '(') < l.len() && char_pos(l, '%') < l.len() ==> char_pos(l, '(') < char_pos(l, '%')
}

/// Whether the charge level of a `pmset` battery line can be cut out (see
/// `percent_in_order`).
pub fn pmset_percent_in_order(line: &str) -> (res: bool)
    ensures
        res == percent_in_order(line@),
{
    let l = chars_of(line);
    assert(l@.skip(0) =~= l@);
    let open = find_char_from(&l, '(', 0);
    let percent = find_char_from(&l, '%', 0);
    !(open < l.len() && percent < l.len()) || open < percent
}

/// The charge level text of a `pmset` battery line: what stands between
/// the first opening parenthesis and the first percent sign.
pub open spec fn percent_text(l: Seq<char>) -> Option<Seq<char>> {
    let open = char_pos(l, '(');
    let percent = char_pos(l, '%');
    if open < l.len() && percent < l.len() {
        Some(l.subrange(open as int + 1, percent as int))
    } else {
        None
    }
}

/// Cuts the charge level text out of a `pmset` battery line.
pub fn pmset_percent_text(line: &str) -> (res: Option<String>)
    requires
        percent_in_order(line@),
    ensures
        match percent_text(line@) {
            Some(t) => res matches Some(r) && r@ == t,
            None => res is None,
        },
{
    let l = chars_of(line);
    assert(l@.skip(0) =~= l@);
    let open = find_char_from(&l, '(', 0);
    let percent = find_char_from(&l, '%', 0);
    if open < l.len() && percent < l.len() {
        Some(string_of_chars(&slice_chars(&l, open + 1, percent)))
    } else {
        None
    }
}

/// The charging state in a `pmset` battery line: from the first `Battery`
/// up to the next semicolon, trimmed; `None` where either is missing.
pub open spec fn pmset_status_text(l: Seq<char>) -> Option<Seq<char>> {
    if has_sub(l, "Battery"@) {
        let rest = l.skip(first_index(l, "Battery"@));
        let end = char_pos(rest, ';');
        if end < rest.len() {
            Some(trim_seq(rest.take(end as int)))
        } else {
            None
        }
    } else {
        None
    }
}

/// Reads the charging state of a `pmset` battery line (see `pmset_status_text`).
pub fn pmset_status(line: &str) -> (res: Option<String>)
    ensures
        match pmset_status_text(line@) {
            Some(t) => res matches Some(r) && r@ == t,
            None => res is None,
        },
{
    let l = chars_of(line);
    match find_sub(&l, &chars_of("Battery")) {
        None => None,
        Some(start) => {
            proof {
                lemma_first_index(l@, "Battery"@, start as int);
            }
            let rest = slice_chars(&l, start, l.len());
            assert(rest@ =~= l@.skip(start as int));
            assert(rest@.skip(0) =~= rest@);
            let end = find_char_from(&rest, ';', 0);
            if end < rest.len() {
                let status = trim(&slice_chars(&rest, 0, end));
                assert(rest@.subrange(0, end as int) =~= rest@.take(end as int));
                Some(string_of_chars(&status))
            } else {
                None
            }
        },
    }
}

proof fn lemma_dec_digits(n: nat)
    ensures
        dec(n).len() > 0,
        forall|i: int| 0 <= i < dec(n).len() ==> is_digit(#[trigger] dec(n)[i]),
        digits_value(dec(n)) == n,
    decreases n,
{
    let last = digit_char(n % 10);
    assert(last as u32 == 48 + n % 10);
    assert(n == (n / 10) * 10 + n % 10) by (nonlinear_arith);
    if n < 10 {
        assert(n % 10 == n) by (nonlinear_arith)
            requires
                n < 10,
        ;
        assert(dec(n).drop_last() =~= Seq::<char>::empty());
        assert(dec(n).last() == last);
        assert(digits_value(dec(n)) == digits_value(dec(n).drop_last()) * 10 + ((dec(n).last() as u32) - 48) as nat);
    }
    if n >= 10 {
        lemma_dec_digits(n / 10);
        let d = dec(n);
        assert(d.last() == last);
        assert(d.drop_last() =~= dec(n / 10));
        assert(digits_value(d) == digits_value(d.drop_last()) * 10 + ((d.last() as u32) - 48) as nat);
        assert(digits_value(d.drop_last()) == n / 10);
        assert forall|i: int| 0 <= i < d.len() implies is_digit(#[trigger] d[i]) by {
            if i < d.len() - 1 {
                assert(d[i] == dec(n / 10)[i]);
            }
        }
    }
}

/// A number written in decimal, as the kernel writes its counters, reads
/// back as the same number.
pub proof fn lemma_decimal_reads_back(n: nat, max: nat)
    requires
        n <= max,
    ensures
        parsed_nat(dec(n), max) == Some(n),
{
    lemma_dec_digits(n);
    assert(is_digit(dec(n)[0]));
    assert(unsigned_digits(dec(n)) == dec(n));
}

} // verus!
