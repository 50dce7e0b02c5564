//! The stored setting: the colour scheme, written as one TOML line,
//! `color_scheme = "Name"`, and read back from such a file.

use vstd::prelude::*;
use crate::snapshot::ColorScheme;
use crate::text::{
    char_pos, char_vec_seqs, lemma_char_pos, strip_cr, trim_end_seq, trim_start_seq, chars_equal, chars_of, find_char_from, lines_seq, push_str, slice_chars,
    split_lines, string_of_chars, trim, trim_seq,
};

verus! {

/// The name a scheme is stored under.
pub open spec fn scheme_name(s: ColorScheme) -> Seq<char> {
    match s {
        ColorScheme::Default => "Default"@,
        ColorScheme::Dark => "Dark"@,
        ColorScheme::Light => "Light"@,
        ColorScheme::Monochrome => "Monochrome"@,
        ColorScheme::Nord => "Nord"@,
        ColorScheme::SolarizedDark => "SolarizedDark"@,
        ColorScheme::SolarizedLight => "SolarizedLight"@,
        ColorScheme::Gruvbox => "Gruvbox"@,
        ColorScheme::Rtop => "Rtop"@,
    }
}

/// The name a scheme is stored under.
pub fn scheme_config_name(s: ColorScheme) -> (res: &'static str)
    ensures
        res@ == scheme_name(s),
{
    match s {
        ColorScheme::Default => "Default",
        ColorScheme::Dark => "Dark",
        ColorScheme::Light => "Light",
        ColorScheme::Monochrome => "Monochrome",
        ColorScheme::Nord => "Nord",
        ColorScheme::SolarizedDark => "SolarizedDark",
        ColorScheme::SolarizedLight => "SolarizedLight",
        ColorScheme::Gruvbox => "Gruvbox",
        ColorScheme::Rtop => "Rtop",
    }
}

/// The scheme stored under `name`, if any.
pub open spec fn scheme_named(name: Seq<char>) -> Option<ColorScheme> {
    if name == "Default"@ {
        Some(ColorScheme::Default)
    } else if name == "Dark"@ {
        Some(ColorScheme::Dark)
    } else if name == "Light"@ {
        Some(ColorScheme::Light)
    } else if name == "Monochrome"@ {
        Some(ColorScheme::Monochrome)
    } else if name == "Nord"@ {
        Some(ColorScheme::Nord)
    } else if name == "SolarizedDark"@ {
        Some(ColorScheme::SolarizedDark)
    } else if name == "SolarizedLight"@ {
        Some(ColorScheme::SolarizedLight)
    } else if name == "Gruvbox"@ {
        Some(ColorScheme::Gruvbox)
    } else if name == "Rtop"@ {
        Some(ColorScheme::Rtop)
    } else {
        None
    }
}

fn scheme_of_name(name: &Vec<char>) -> (res: Option<ColorScheme>)
    ensures
        res == scheme_named(name@),
{
    if chars_equal(name, &chars_of("Default")) {
        Some(ColorScheme::Default)
    } else if chars_equal(name, &chars_of("Dark")) {
        Some(ColorScheme::Dark)
    } else if chars_equal(name, &chars_of("Light")) {
        Some(ColorScheme::Light)
    } else if chars_equal(name, &chars_of("Monochrome")) {
        Some(ColorScheme::Monochrome)
    } else if chars_equal(name, &chars_of("Nord")) {
        Some(ColorScheme::Nord)
    } else if chars_equal(name, &chars_of("SolarizedDark")) {
        Some(ColorScheme::SolarizedDark)
    } else if chars_equal(name, &chars_of("SolarizedLight")) {
        Some(ColorScheme::SolarizedLight)
    } else if chars_equal(name, &chars_of("Gruvbox")) {
        Some(ColorScheme::Gruvbox)
    } else if chars_equal(name, &chars_of("Rtop")) {
        Some(ColorScheme::Rtop)
    } else {
        None
    }
}

/// The text of the settings file for a scheme.
pub open spec fn config_text_of(s: ColorScheme) -> Seq<char> {
    "color_scheme = \""@ + scheme_name(s) + "\"\n"@
}

/// The text of the settings file that stores `s`.
pub fn config_text(s: ColorScheme) -> (res: String)
    ensures
        res@ == config_text_of(s),
{
    let mut out = chars_of("color_scheme = \"");
    push_str(&mut out, scheme_config_name(s));
    push_str(&mut out, "\"\n");
    string_of_chars(&out)
}

/// `s` without the double quotes at either end.
pub open spec fn strip_quotes(s: Seq<char>) -> Seq<char>
    decreases s.len(),
{
    if s.len() > 0 && s[0] == '"' {
        strip_quotes(s.drop_first())
    } else if s.len() > 0 && s.last() == '"' {
        strip_quotes(s.drop_last())
    } else {
        s
    }
}

fn strip_quotes_exec(s: &Vec<char>) -> (res: Vec<char>)
    ensures
        res@ == strip_quotes(s@),
{
    let mut a: usize = 0;
    let mut b: usize = s.len();
    assert(s@.subrange(0, s.len() as int) =~= s@);
    while a < b && (s[a] == '"' || s[b - 1] == '"')
        invariant
            a <= b <= s.len(),
            strip_quotes(s@) == strip_quotes(s@.subrange(a as int, b as int)),
        decreases b - a,
    {
        let ghost cur = s@.subrange(a as int, b as int);
        if s[a] == '"' {
            assert(cur[0] == '"');
            assert(cur.drop_first() =~= s@.subrange(a + 1, b as int));
            a = a + 1;
        } else {
            assert(cur[0] != '"');
            assert(cur.last() == '"');
            assert(cur.drop_last() =~= s@.subrange(a as int, b - 1));
            b = b - 1;
        }
    }
    proof {
        let cur = s@.subrange(a as int, b as int);
        if a < b {
            assert(cur[0] == s@[a as int]);
            assert(cur.last() == s@[b - 1]);
        }
    }
    slice_chars(s, a, b)
}

/// The scheme that the settings text `lines` (from the first line on) stores:
/// the first line with a `=` whose key, trimmed, is `color_scheme` gives it,
/// by its value trimmed and without quotes; `None` when that value names no
/// scheme or no line gives one.
pub open spec fn stored_scheme(lines: Seq<Seq<char>>) -> Option<ColorScheme>
    decreases lines.len(),
{
    if lines.len() == 0 {
        None
    } else {
        let l = lines[0];
        let p = char_pos(l, '=');
        if p < l.len() && trim_seq(l.take(p as int)) == "color_scheme"@ {
            scheme_named(strip_quotes(trim_seq(l.skip(p as int + 1))))
        } else {
            stored_scheme(lines.drop_first())
        }
    }
}

/// Reads the scheme from the text of the settings file (see `stored_scheme`).
pub fn parse_config(text: &str) -> (res: Option<ColorScheme>)
    ensures
        res == stored_scheme(lines_seq(text@)),
{
    let lines = split_lines(&chars_of(text));
    let ghost ls = char_vec_seqs(lines@);
    let key = chars_of("color_scheme");
    let mut i: usize = 0;
    assert(ls.skip(0) =~= ls);
    while i < lines.len()
        invariant
            i <= lines.len(),
            ls == char_vec_seqs(lines@),
            ls == lines_seq(text@),
            key@ == "color_scheme"@,
            stored_scheme(ls) == stored_scheme(ls.skip(i as int)),
        decreases lines.len() - i,
    {
        let line = &lines[i];
        assert(ls.skip(i as int)[0] == line@);
        let p = find_char_from(line, '=', 0);
        assert(line@.skip(0) =~= line@);
        if p < line.len() {
            let k = slice_chars(line, 0, p);
            assert(k@ =~= line@.take(p as int));
            if chars_equal(&trim(&k), &key) {
                let v = slice_chars(line, p + 1, line.len());
                assert(v@ =~= line@.skip(p + 1));
                let value = strip_quotes_exec(&trim(&v));
                return scheme_of_name(&value);
            }
        }
        assert(ls.skip(i as int).drop_first() =~= ls.skip(i + 1));
        i = i + 1;
    }
    None
}

proof fn lemma_char_pos_at(s: Seq<char>, c: char, k: int)
    requires
        0 <= k <= s.len(),
        k < s.len() ==> s[k] == c,
        forall|j: int| 0 <= j < k ==> s[j] != c,
    ensures
        char_pos(s, c) == k,
{
    lemma_char_pos(s, c);
    let p = char_pos(s, c) as int;
    if p < k {
        assert(s[p] == c);
    }
    if p > k {
        assert(s[k] != c);
    }
}

/// The facts about a stored name that reading it back relies on.
proof fn lemma_scheme_name_plain(s: ColorScheme)
    ensures
        scheme_name(s).len() > 0,
        scheme_name(s)[0] != '"',
        scheme_name(s).last() != '"',
        forall|i: int| 0 <= i < scheme_name(s).len() ==> (#[trigger] scheme_name(s)[i]) != '\n' && scheme_name(s)[i] != '=',
        scheme_named(scheme_name(s)) == Some(s),
{
    reveal_strlit("Default");
    reveal_strlit("Dark");
    reveal_strlit("Light");
    reveal_strlit("Monochrome");
    reveal_strlit("Nord");
    reveal_strlit("SolarizedDark");
    reveal_strlit("SolarizedLight");
    reveal_strlit("Gruvbox");
    reveal_strlit("Rtop");
    assert("Default"@.len() == 7 && "Default"@[0] == 'D');
    assert("Dark"@.len() == 4 && "Dark"@[0] == 'D');
    assert("Light"@.len() == 5);
    assert("Monochrome"@.len() == 10);
    assert("Nord"@.len() == 4 && "Nord"@[0] == 'N');
    assert("SolarizedDark"@.len() == 13);
    assert("SolarizedLight"@.len() == 14);
    assert("Gruvbox"@.len() == 7 && "Gruvbox"@[0] == 'G');
    assert("Rtop"@.len() == 4 && "Rtop"@[0] == 'R');
}

/// What is written is read back: the settings text for a scheme stores
/// that scheme.
pub proof fn lemma_config_round_trip(s: ColorScheme)
    ensures
        stored_scheme(lines_seq(config_text_of(s))) == Some(s),
{
    reveal_strlit("color_scheme = \"");
    reveal_strlit("\"\n");
    reveal_strlit("\"");
    reveal_strlit("color_scheme");
    lemma_scheme_name_plain(s);
    let name = scheme_name(s);
    let head = "color_scheme = \""@;
    let line = head + name + "\""@;
    let t = config_text_of(s);
    assert(t =~= line.push('\n'));
    // The text is one line.
    assert forall|j: int| 0 <= j < line.len() implies t[j] != '\n' by {
        if j >= head.len() && j < head.len() + name.len() {
            assert(line[j] == name[j - head.len()]);
        }
    }
    lemma_char_pos_at(t, '\n', line.len() as int);
    assert(t.take(line.len() as int) =~= line);
    assert(t.skip(line.len() as int + 1) =~= Seq::<char>::empty());
    assert(lines_seq(t.skip(line.len() as int + 1)) =~= Seq::<Seq<char>>::empty());
    assert(strip_cr(line) == line);
    assert(lines_seq(t) =~= seq![line]);
    // The key.
    lemma_char_pos_at(line, '=', 13);
    let key = line.take(13);
    assert(key =~= "color_scheme"@.push(' '));
    assert(trim_start_seq(key) == key);
    assert(key.drop_last() =~= "color_scheme"@);
    assert(trim_end_seq(key.drop_last()) == key.drop_last());
    assert(trim_seq(key) == "color_scheme"@);
    // The value.
    let y = line.skip(14);
    let z = "\""@ + name + "\""@;
    assert(y =~= seq![' '] + z);
    assert(y.drop_first() =~= z);
    assert(trim_start_seq(z) == z);
    assert(trim_start_seq(y) == z);
    assert(trim_end_seq(z) == z);
    let w = name + "\""@;
    assert(z.drop_first() =~= w);
    assert(w[0] == name[0]);
    assert(w.drop_last() =~= name);
    assert(strip_quotes(name) == name);
    assert(strip_quotes(w) == name);
    assert(strip_quotes(z) == name);
    assert(stored_scheme(seq![line]) == Some(s));
}

} // verus!
