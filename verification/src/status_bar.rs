//! The two bars around the panels: the status line at the top and the key
//! bindings at the bottom, as styled segments of text.

use vstd::prelude::*;
use crate::app_state::{theme_name, theme_name_of};
use crate::snapshot::ColorScheme;
use crate::text::{chars_of, push_str, string_of_chars};
use crate::theme::{themed_color, Color, Theme};

verus! {

/// A run of text with its colours.
#[derive(Debug)]
pub struct Segment {
    pub text: String,
    pub fg: Color,
    pub bg: Option<Color>,
    pub bold: bool,
}

/// What a segment holds, as values.
pub struct SegmentView {
    pub text: Seq<char>,
    pub fg: Color,
    pub bg: Option<Color>,
    pub bold: bool,
}

impl View for Segment {
    type V = SegmentView;

    open spec fn view(&self) -> SegmentView {
        SegmentView { text: self.text@, fg: self.fg, bg: self.bg, bold: self.bold }
    }
}

/// The views of a list of segments.
pub open spec fn segment_views(s: Seq<Segment>) -> Seq<SegmentView> {
    s.map_values(|x: Segment| x@)
}

/// The status line: the program's name, then the host, uptime, load, time
/// and theme, on the dark bar, each in the theme's colours.
pub open spec fn status_line_spec(
    scheme: ColorScheme,
    hostname: Seq<char>,
    uptime: Seq<char>,
    load: Seq<char>,
    time: Seq<char>,
    active: ColorScheme,
) -> Seq<SegmentView> {
    let bar = Some(themed_color(scheme, Color::DarkGray));
    seq![
        SegmentView { text: " RTOP "@, fg: themed_color(scheme, Color::Black), bg: Some(themed_color(scheme, Color::Cyan)), bold: true },
        SegmentView { text: "  host:"@ + hostname + "  "@, fg: themed_color(scheme, Color::White), bg: bar, bold: false },
        SegmentView { text: "uptime:"@ + uptime + "  "@, fg: themed_color(scheme, Color::White), bg: bar, bold: false },
        SegmentView { text: "load:"@ + load + "  "@, fg: themed_color(scheme, Color::Yellow), bg: bar, bold: false },
        SegmentView { text: "time:"@ + time + " "@, fg: themed_color(scheme, Color::Green), bg: bar, bold: false },
        SegmentView { text: " theme:"@ + theme_name_of(active) + " "@, fg: themed_color(scheme, Color::LightMagenta), bg: bar, bold: true },
    ]
}

fn segment(text: Vec<char>, fg: Color, bg: Option<Color>, bold: bool) -> (s: Segment)
    ensures
        s@ == (SegmentView { text: text@, fg, bg, bold }),
{
    Segment { text: string_of_chars(&text), fg, bg, bold }
}

fn framed(prefix: &str, middle: &str, suffix: &str) -> (res: Vec<char>)
    ensures
        res@ == prefix@ + middle@ + suffix@,
{
    let mut out = chars_of(prefix);
    push_str(&mut out, middle);
    push_str(&mut out, suffix);
    out
}

fn push_segment(out: &mut Vec<Segment>, s: Segment)
    ensures
        segment_views(final(out)@) == segment_views(old(out)@).push(s@),
{
    out.push(s);
    assert(segment_views(final(out)@) =~= segment_views(old(out)@).push(s@));
}

/// The segments of the status line (see `status_line_spec`); `active` is
/// the scheme whose name is shown.
pub fn status_line(theme: &Theme, hostname: &str, uptime: &str, load: &str, time: &str, active: ColorScheme) -> (res: Vec<Segment>)
    ensures
        segment_views(res@) == status_line_spec(theme.color_scheme, hostname@, uptime@, load@, time@, active),
{
    let bar = Some(theme.get_color(Color::DarkGray));
    let mut out: Vec<Segment> = Vec::new();
    push_segment(&mut out, segment(chars_of(" RTOP "), theme.get_color(Color::Black), Some(theme.get_color(Color::Cyan)), true));
    push_segment(&mut out, segment(framed("  host:", hostname, "  "), theme.get_color(Color::White), bar, false));
    push_segment(&mut out, segment(framed("uptime:", uptime, "  "), theme.get_color(Color::White), bar, false));
    push_segment(&mut out, segment(framed("load:", load, "  "), theme.get_color(Color::Yellow), bar, false));
    push_segment(&mut out, segment(framed("time:", time, " "), theme.get_color(Color::Green), bar, false));
    push_segment(&mut out, segment(framed(" theme:", theme_name(active), " "), theme.get_color(Color::LightMagenta), bar, true));
    assert(segment_views(out@) =~= status_line_spec(theme.color_scheme, hostname@, uptime@, load@, time@, active));
    out
}

/// The key bindings line: each binding in its colour, then the active theme.
pub open spec fn keybinds_spec(scheme: ColorScheme, active: ColorScheme) -> Seq<SegmentView> {
    seq![
        SegmentView { text: " [q] quit "@, fg: themed_color(scheme, Color::Red), bg: None, bold: false },
        SegmentView { text: " [↑/↓] move "@, fg: themed_color(scheme, Color::Green), bg: None, bold: false },
        SegmentView { text: " [s] sort "@, fg: themed_color(scheme, Color::Cyan), bg: None, bold: false },
        SegmentView { text: " [S] search "@, fg: themed_color(scheme, Color::LightCyan), bg: None, bold: false },
        SegmentView { text: " [k] kill "@, fg: themed_color(scheme, Color::LightRed), bg: None, bold: false },
        SegmentView { text: " [T] tree "@, fg: themed_color(scheme, Color::Magenta), bg: None, bold: false },
        SegmentView { text: " [i] interface "@, fg: themed_color(scheme, Color::LightBlue), bg: None, bold: false },
        SegmentView { text: " [t] theme "@, fg: themed_color(scheme, Color::Yellow), bg: None, bold: false },
        SegmentView { text: " [w] save "@, fg: themed_color(scheme, Color::LightGreen), bg: None, bold: false },
        SegmentView { text: "  active:"@ + theme_name_of(active) + " "@, fg: themed_color(scheme, Color::LightMagenta), bg: None, bold: true },
    ]
}

/// The segments of the key bindings line (see `keybinds_spec`).
pub fn keybinds_line(theme: &Theme, active: ColorScheme) -> (res: Vec<Segment>)
    ensures
        segment_views(res@) == keybinds_spec(theme.color_scheme, active),
{
    let mut out: Vec<Segment> = Vec::new();
    push_segment(&mut out, segment(chars_of(" [q] quit "), theme.get_color(Color::Red), None, false));
    push_segment(&mut out, segment(chars_of(" [↑/↓] move "), theme.get_color(Color::Green), None, false));
    push_segment(&mut out, segment(chars_of(" [s] sort "), theme.get_color(Color::Cyan), None, false));
    push_segment(&mut out, segment(chars_of(" [S] search "), theme.get_color(Color::LightCyan), None, false));
    push_segment(&mut out, segment(chars_of(" [k] kill "), theme.get_color(Color::LightRed), None, false));
    push_segment(&mut out, segment(chars_of(" [T] tree "), theme.get_color(Color::Magenta), None, false));
    push_segment(&mut out, segment(chars_of(" [i] interface "), theme.get_color(Color::LightBlue), None, false));
    push_segment(&mut out, segment(chars_of(" [t] theme "), theme.get_color(Color::Yellow), None, false));
    push_segment(&mut out, segment(chars_of(" [w] save "), theme.get_color(Color::LightGreen), None, false));
    push_segment(&mut out, segment(framed("  active:", theme_name(active), " "), theme.get_color(Color::LightMagenta), None, true));
    assert(segment_views(out@) =~= keybinds_spec(theme.color_scheme, active));
    out
}

} // verus!
