//! Colour themes: every panel asks the active theme for the concrete colour
//! that stands for one of the sixteen named terminal colours.

use vstd::prelude::*;
use crate::snapshot::ColorScheme;

verus! {

/// A terminal colour: the sixteen named colours, the terminal's default
/// (`Reset`), a 24-bit colour, or an entry of the 256-colour palette.
#[derive(Clone, Copy, Debug, PartialEq, Eq, Structural)]
pub enum Color {
    Reset,
    Black,
    Red,
    Green,
    Yellow,
    Blue,
    Magenta,
    Cyan,
    Gray,
    DarkGray,
    LightRed,
    LightGreen,
    LightYellow,
    LightBlue,
    LightMagenta,
    LightCyan,
    White,
    Rgb(u8, u8, u8),
    Indexed(u8),
}

/// The active colour scheme.
#[derive(Clone, Copy, Debug)]
pub struct Theme {
    pub color_scheme: ColorScheme,
}

/// Legacy and low-contrast schemes are shown as their readable counterpart.
pub open spec fn canonical_scheme(scheme: ColorScheme) -> ColorScheme {
    match scheme {
        ColorScheme::Light => ColorScheme::Default,
        ColorScheme::Monochrome => ColorScheme::Dark,
        ColorScheme::SolarizedLight => ColorScheme::SolarizedDark,
        _ => scheme,
    }
}

/// A scheme that the theme switcher can select.
pub open spec fn is_canonical_scheme(scheme: ColorScheme) -> bool {
    canonical_scheme(scheme) == scheme
}

/// The order in which the theme switcher visits the schemes.
pub open spec fn theme_cycle_seq() -> Seq<ColorScheme> {
    seq![
        ColorScheme::Default,
        ColorScheme::Dark,
        ColorScheme::Nord,
        ColorScheme::SolarizedDark,
        ColorScheme::Gruvbox,
        ColorScheme::Rtop,
    ]
}

/// The graphite palette.
pub open spec fn graphite_palette(c: Color) -> Color {
    match c {
        Color::White => Color::Rgb(228, 236, 245),
        Color::Black => Color::Rgb(11, 17, 23),
        Color::DarkGray => Color::Rgb(29, 41, 58),
        Color::Gray => Color::Rgb(140, 158, 182),
        Color::Cyan => Color::Rgb(94, 213, 221),
        Color::Blue => Color::Rgb(126, 170, 255),
        Color::Green => Color::Rgb(108, 212, 149),
        Color::Yellow => Color::Rgb(243, 197, 109),
        Color::Red => Color::Rgb(241, 126, 126),
        Color::Magenta => Color::Rgb(198, 157, 255),
        Color::LightRed => Color::Rgb(255, 150, 150),
        Color::LightGreen => Color::Rgb(137, 230, 170),
        Color::LightYellow => Color::Rgb(255, 216, 133),
        Color::LightBlue => Color::Rgb(157, 194, 255),
        Color::LightMagenta => Color::Rgb(217, 182, 255),
        Color::LightCyan => Color::Rgb(124, 227, 234),
        _ => c,
    }
}

/// The midnight palette.
pub open spec fn midnight_palette(c: Color) -> Color {
    match c {
        Color::White => Color::Rgb(230, 237, 247),
        Color::Black => Color::Rgb(9, 12, 20),
        Color::DarkGray => Color::Rgb(20, 28, 45),
        Color::Gray => Color::Rgb(124, 143, 171),
        Color::Cyan => Color::Rgb(93, 204, 226),
        Color::Blue => Color::Rgb(106, 158, 255),
        Color::Green => Color::Rgb(116, 215, 155),
        Color::Yellow => Color::Rgb(247, 204, 117),
        Color::Red => Color::Rgb(244, 130, 130),
        Color::Magenta => Color::Rgb(200, 151, 255),
        Color::LightRed => Color::Rgb(255, 154, 154),
        Color::LightGreen => Color::Rgb(143, 233, 175),
        Color::LightYellow => Color::Rgb(255, 224, 140),
        Color::LightBlue => Color::Rgb(159, 199, 255),
        Color::LightMagenta => Color::Rgb(222, 189, 255),
        Color::LightCyan => Color::Rgb(123, 222, 239),
        _ => c,
    }
}

/// The nord palette.
pub open spec fn nord_palette(c: Color) -> Color {
    match c {
        Color::White => Color::Rgb(229, 233, 240),
        Color::Black => Color::Rgb(46, 52, 64),
        Color::DarkGray => Color::Rgb(59, 66, 82),
        Color::Gray => Color::Rgb(129, 161, 193),
        Color::Cyan => Color::Rgb(136, 192, 208),
        Color::Blue => Color::Rgb(129, 161, 193),
        Color::Green => Color::Rgb(163, 190, 140),
        Color::Yellow => Color::Rgb(235, 203, 139),
        Color::Red => Color::Rgb(191, 97, 106),
        Color::Magenta => Color::Rgb(180, 142, 173),
        Color::LightRed => Color::Rgb(219, 129, 139),
        Color::LightGreen => Color::Rgb(186, 214, 164),
        Color::LightYellow => Color::Rgb(245, 219, 161),
        Color::LightBlue => Color::Rgb(159, 189, 217),
        Color::LightMagenta => Color::Rgb(200, 165, 195),
        Color::LightCyan => Color::Rgb(164, 208, 221),
        _ => c,
    }
}

/// The solarized palette.
pub open spec fn solarized_palette(c: Color) -> Color {
    match c {
        Color::White => Color::Rgb(238, 232, 213),
        Color::Black => Color::Rgb(0, 43, 54),
        Color::DarkGray => Color::Rgb(7, 54, 66),
        Color::Gray => Color::Rgb(88, 110, 117),
        Color::Cyan => Color::Rgb(42, 161, 152),
        Color::Blue => Color::Rgb(38, 139, 210),
        Color::Green => Color::Rgb(133, 153, 0),
        Color::Yellow => Color::Rgb(181, 137, 0),
        Color::Red => Color::Rgb(220, 50, 47),
        Color::Magenta => Color::Rgb(211, 54, 130),
        Color::LightRed => Color::Rgb(234, 98, 93),
        Color::LightGreen => Color::Rgb(152, 174, 15),
        Color::LightYellow => Color::Rgb(201, 159, 23),
        Color::LightBlue => Color::Rgb(73, 155, 218),
        Color::LightMagenta => Color::Rgb(220, 87, 148),
        Color::LightCyan => Color::Rgb(74, 182, 173),
        _ => c,
    }
}

/// The gruvbox palette.
pub open spec fn gruvbox_palette(c: Color) -> Color {
    match c {
        Color::White => Color::Rgb(235, 219, 178),
        Color::Black => Color::Rgb(29, 32, 33),
        Color::DarkGray => Color::Rgb(60, 56, 54),
        Color::Gray => Color::Rgb(168, 153, 132),
        Color::Cyan => Color::Rgb(142, 192, 124),
        Color::Blue => Color::Rgb(131, 165, 152),
        Color::Green => Color::Rgb(184, 187, 38),
        Color::Yellow => Color::Rgb(250, 189, 47),
        Color::Red => Color::Rgb(251, 73, 52),
        Color::Magenta => Color::Rgb(211, 134, 155),
        Color::LightRed => Color::Rgb(255, 122, 102),
        Color::LightGreen => Color::Rgb(204, 207, 67),
        Color::LightYellow => Color::Rgb(255, 211, 90),
        Color::LightBlue => Color::Rgb(158, 193, 179),
        Color::LightMagenta => Color::Rgb(227, 160, 178),
        Color::LightCyan => Color::Rgb(165, 209, 146),
        _ => c,
    }
}

/// The neon palette.
pub open spec fn neon_palette(c: Color) -> Color {
    match c {
        Color::White => Color::Rgb(235, 242, 255),
        Color::Black => Color::Rgb(10, 14, 24),
        Color::DarkGray => Color::Rgb(29, 37, 58),
        Color::Gray => Color::Rgb(122, 141, 173),
        Color::Cyan => Color::Rgb(74, 235, 220),
        Color::Blue => Color::Rgb(94, 164, 255),
        Color::Green => Color::Rgb(122, 241, 156),
        Color::Yellow => Color::Rgb(255, 212, 92),
        Color::Red => Color::Rgb(255, 124, 124),
        Color::Magenta => Color::Rgb(214, 149, 255),
        Color::LightRed => Color::Rgb(255, 155, 155),
        Color::LightGreen => Color::Rgb(154, 255, 184),
        Color::LightYellow => Color::Rgb(255, 228, 134),
        Color::LightBlue => Color::Rgb(131, 187, 255),
        Color::LightMagenta => Color::Rgb(229, 177, 255),
        Color::LightCyan => Color::Rgb(112, 247, 234),
        _ => c,
    }
}

/// The concrete colour that `scheme` shows for the named colour `c`; any other
/// colour is shown as it is.
pub open spec fn themed_color(scheme: ColorScheme, c: Color) -> Color {
    match scheme {
        ColorScheme::Default | ColorScheme::Light => graphite_palette(c),
        ColorScheme::Dark | ColorScheme::Monochrome => midnight_palette(c),
        ColorScheme::Nord => nord_palette(c),
        ColorScheme::SolarizedDark | ColorScheme::SolarizedLight => solarized_palette(c),
        ColorScheme::Gruvbox => gruvbox_palette(c),
        ColorScheme::Rtop => neon_palette(c),
    }
}

/// One of the sixteen named terminal colours.
pub open spec fn is_named_color(c: Color) -> bool {
    !(c is Reset || c is Rgb || c is Indexed)
}

/// The colour picked from a default/dark/light/monochrome quadruple.
pub open spec fn default_color_choice(default_color: Color, dark_color: Color, light_color: Color, mono_color: Color) -> Color {
    if default_color == Color::Cyan {
        Color::Cyan
    } else if dark_color == Color::Blue {
        Color::Blue
    } else if light_color == Color::White {
        Color::White
    } else if default_color is Green || default_color is Yellow || default_color is Red
        || default_color is Magenta || default_color is Blue || default_color is LightRed
        || default_color is LightGreen || default_color is LightYellow || default_color is LightBlue
        || default_color is LightMagenta || default_color is LightCyan || default_color is Gray
        || default_color is DarkGray {
        default_color
    } else {
        Color::White
    }
}

impl Theme {
    pub fn new(color_scheme: ColorScheme) -> (theme: Self)
        ensures
            theme.color_scheme == canonical_scheme(color_scheme),
    {
        Self { color_scheme: Self::canonicalize_color_scheme(color_scheme) }
    }

    pub fn canonicalize_color_scheme(color_scheme: ColorScheme) -> (res: ColorScheme)
        ensures
            res == canonical_scheme(color_scheme),
    {
        match color_scheme {
            ColorScheme::Light => ColorScheme::Default,
            ColorScheme::Monochrome => ColorScheme::Dark,
            ColorScheme::SolarizedLight => ColorScheme::SolarizedDark,
            _ => color_scheme,
        }
    }

    pub fn cycle() -> (schemes: &'static [ColorScheme])
        ensures
            schemes@ == theme_cycle_seq(),
    {
        &[
            ColorScheme::Default,
            ColorScheme::Dark,
            ColorScheme::Nord,
            ColorScheme::SolarizedDark,
            ColorScheme::Gruvbox,
            ColorScheme::Rtop,
        ]
    }

    pub fn get_color(&self, default_color: Color) -> (res: Color)
        ensures
            res == themed_color(self.color_scheme, default_color),
    {
        match self.color_scheme {
            ColorScheme::Default => self.get_graphite_color(default_color),
            ColorScheme::Dark => self.get_midnight_color(default_color),
            ColorScheme::Light => self.get_graphite_color(default_color),
            ColorScheme::Monochrome => self.get_midnight_color(default_color),
            ColorScheme::Nord => self.get_nord_color(default_color),
            ColorScheme::SolarizedDark => self.get_solarized_dark_color(default_color),
            ColorScheme::SolarizedLight => self.get_solarized_dark_color(default_color),
            ColorScheme::Gruvbox => self.get_gruvbox_color(default_color),
            ColorScheme::Rtop => self.get_rtop_color(default_color),
        }
    }

    fn get_graphite_color(&self, default_color: Color) -> (res: Color)
        ensures
            res == graphite_palette(default_color),
    {
        match default_color {
            Color::White => Color::Rgb(228, 236, 245),
            Color::Black => Color::Rgb(11, 17, 23),
            Color::DarkGray => Color::Rgb(29, 41, 58),
            Color::Gray => Color::Rgb(140, 158, 182),
            Color::Cyan => Color::Rgb(94, 213, 221),
            Color::Blue => Color::Rgb(126, 170, 255),
            Color::Green => Color::Rgb(108, 212, 149),
            Color::Yellow => Color::Rgb(243, 197, 109),
            Color::Red => Color::Rgb(241, 126, 126),
            Color::Magenta => Color::Rgb(198, 157, 255),
            Color::LightRed => Color::Rgb(255, 150, 150),
            Color::LightGreen => Color::Rgb(137, 230, 170),
            Color::LightYellow => Color::Rgb(255, 216, 133),
            Color::LightBlue => Color::Rgb(157, 194, 255),
            Color::LightMagenta => Color::Rgb(217, 182, 255),
            Color::LightCyan => Color::Rgb(124, 227, 234),
            _ => default_color,
        }
    }

    fn get_midnight_color(&self, default_color: Color) -> (res: Color)
        ensures
            res == midnight_palette(default_color),
    {
        match default_color {
            Color::White => Color::Rgb(230, 237, 247),
            Color::Black => Color::Rgb(9, 12, 20),
            Color::DarkGray => Color::Rgb(20, 28, 45),
            Color::Gray => Color::Rgb(124, 143, 171),
            Color::Cyan => Color::Rgb(93, 204, 226),
            Color::Blue => Color::Rgb(106, 158, 255),
            Color::Green => Color::Rgb(116, 215, 155),
            Color::Yellow => Color::Rgb(247, 204, 117),
            Color::Red => Color::Rgb(244, 130, 130),
            Color::Magenta => Color::Rgb(200, 151, 255),
            Color::LightRed => Color::Rgb(255, 154, 154),
            Color::LightGreen => Color::Rgb(143, 233, 175),
            Color::LightYellow => Color::Rgb(255, 224, 140),
            Color::LightBlue => Color::Rgb(159, 199, 255),
            Color::LightMagenta => Color::Rgb(222, 189, 255),
            Color::LightCyan => Color::Rgb(123, 222, 239),
            _ => default_color,
        }
    }

    fn get_nord_color(&self, default_color: Color) -> (res: Color)
        ensures
            res == nord_palette(default_color),
    {
        match default_color {
            Color::White => Color::Rgb(229, 233, 240),
            Color::Black => Color::Rgb(46, 52, 64),
            Color::DarkGray => Color::Rgb(59, 66, 82),
            Color::Gray => Color::Rgb(129, 161, 193),
            Color::Cyan => Color::Rgb(136, 192, 208),
            Color::Blue => Color::Rgb(129, 161, 193),
            Color::Green => Color::Rgb(163, 190, 140),
            Color::Yellow => Color::Rgb(235, 203, 139),
            Color::Red => Color::Rgb(191, 97, 106),
            Color::Magenta => Color::Rgb(180, 142, 173),
            Color::LightRed => Color::Rgb(219, 129, 139),
            Color::LightGreen => Color::Rgb(186, 214, 164),
            Color::LightYellow => Color::Rgb(245, 219, 161),
            Color::LightBlue => Color::Rgb(159, 189, 217),
            Color::LightMagenta => Color::Rgb(200, 165, 195),
            Color::LightCyan => Color::Rgb(164, 208, 221),
            _ => default_color,
        }
    }

    fn get_solarized_dark_color(&self, default_color: Color) -> (res: Color)
        ensures
            res == solarized_palette(default_color),
    {
        match default_color {
            Color::White => Color::Rgb(238, 232, 213),
            Color::Black => Color::Rgb(0, 43, 54),
            Color::DarkGray => Color::Rgb(7, 54, 66),
            Color::Gray => Color::Rgb(88, 110, 117),
            Color::Cyan => Color::Rgb(42, 161, 152),
            Color::Blue => Color::Rgb(38, 139, 210),
            Color::Green => Color::Rgb(133, 153, 0),
            Color::Yellow => Color::Rgb(181, 137, 0),
            Color::Red => Color::Rgb(220, 50, 47),
            Color::Magenta => Color::Rgb(211, 54, 130),
            Color::LightRed => Color::Rgb(234, 98, 93),
            Color::LightGreen => Color::Rgb(152, 174, 15),
            Color::LightYellow => Color::Rgb(201, 159, 23),
            Color::LightBlue => Color::Rgb(73, 155, 218),
            Color::LightMagenta => Color::Rgb(220, 87, 148),
            Color::LightCyan => Color::Rgb(74, 182, 173),
            _ => default_color,
        }
    }

    fn get_gruvbox_color(&self, default_color: Color) -> (res: Color)
        ensures
            res == gruvbox_palette(default_color),
    {
        match default_color {
            Color::White => Color::Rgb(235, 219, 178),
            Color::Black => Color::Rgb(29, 32, 33),
            Color::DarkGray => Color::Rgb(60, 56, 54),
            Color::Gray => Color::Rgb(168, 153, 132),
            Color::Cyan => Color::Rgb(142, 192, 124),
            Color::Blue => Color::Rgb(131, 165, 152),
            Color::Green => Color::Rgb(184, 187, 38),
            Color::Yellow => Color::Rgb(250, 189, 47),
            Color::Red => Color::Rgb(251, 73, 52),
            Color::Magenta => Color::Rgb(211, 134, 155),
            Color::LightRed => Color::Rgb(255, 122, 102),
            Color::LightGreen => Color::Rgb(204, 207, 67),
            Color::LightYellow => Color::Rgb(255, 211, 90),
            Color::LightBlue => Color::Rgb(158, 193, 179),
            Color::LightMagenta => Color::Rgb(227, 160, 178),
            Color::LightCyan => Color::Rgb(165, 209, 146),
            _ => default_color,
        }
    }

    fn get_rtop_color(&self, default_color: Color) -> (res: Color)
        ensures
            res == neon_palette(default_color),
    {
        match default_color {
            Color::White => Color::Rgb(235, 242, 255),
            Color::Black => Color::Rgb(10, 14, 24),
            Color::DarkGray => Color::Rgb(29, 37, 58),
            Color::Gray => Color::Rgb(122, 141, 173),
            Color::Cyan => Color::Rgb(74, 235, 220),
            Color::Blue => Color::Rgb(94, 164, 255),
            Color::Green => Color::Rgb(122, 241, 156),
            Color::Yellow => Color::Rgb(255, 212, 92),
            Color::Red => Color::Rgb(255, 124, 124),
            Color::Magenta => Color::Rgb(214, 149, 255),
            Color::LightRed => Color::Rgb(255, 155, 155),
            Color::LightGreen => Color::Rgb(154, 255, 184),
            Color::LightYellow => Color::Rgb(255, 228, 134),
            Color::LightBlue => Color::Rgb(131, 187, 255),
            Color::LightMagenta => Color::Rgb(229, 177, 255),
            Color::LightCyan => Color::Rgb(112, 247, 234),
            _ => default_color,
        }
    }
}

/// Picks the colour for a default/dark/light/monochrome quadruple.
pub fn get_default_color(default_color: Color, dark_color: Color, light_color: Color, mono_color: Color) -> (res: Color)
    ensures
        res == default_color_choice(default_color, dark_color, light_color, mono_color),
{
    match (default_color, dark_color, light_color, mono_color) {
        (Color::Cyan, _, _, _) => Color::Cyan,
        (_, Color::Blue, _, _) => Color::Blue,
        (_, _, Color::White, _) => Color::White,
        (Color::Green, _, _, _) => Color::Green,
        (Color::Yellow, _, _, _) => Color::Yellow,
        (Color::Red, _, _, _) => Color::Red,
        (Color::Magenta, _, _, _) => Color::Magenta,
        (Color::Blue, _, _, _) => Color::Blue,
        (Color::LightRed, _, _, _) => Color::LightRed,
        (Color::LightGreen, _, _, _) => Color::LightGreen,
        (Color::LightYellow, _, _, _) => Color::LightYellow,
        (Color::LightBlue, _, _, _) => Color::LightBlue,
        (Color::LightMagenta, _, _, _) => Color::LightMagenta,
        (Color::LightCyan, _, _, _) => Color::LightCyan,
        (Color::Gray, _, _, _) => Color::Gray,
        (Color::DarkGray, _, _, _) => Color::DarkGray,
        _ => Color::White,
    }
}

/// Canonicalising a scheme twice changes nothing more than doing it once.
pub proof fn lemma_canonical_idempotent(scheme: ColorScheme)
    ensures
        canonical_scheme(canonical_scheme(scheme)) == canonical_scheme(scheme),
        is_canonical_scheme(canonical_scheme(scheme)),
{
}

/// A legacy scheme shows every colour exactly as its canonical counterpart does.
pub proof fn lemma_colors_follow_canonical_scheme(scheme: ColorScheme, c: Color)
    ensures
        themed_color(scheme, c) == themed_color(canonical_scheme(scheme), c),
{
}

/// Every theme maps the sixteen named colours to 24-bit colours and leaves
/// every other colour unchanged.
pub proof fn lemma_theme_maps_named_colors_to_rgb(scheme: ColorScheme, c: Color)
    ensures
        is_named_color(c) ==> themed_color(scheme, c) is Rgb,
        !is_named_color(c) ==> themed_color(scheme, c) == c,
{
}

/// The theme switcher visits each canonical scheme exactly once and no other.
pub proof fn lemma_cycle_is_the_canonical_schemes(scheme: ColorScheme)
    ensures
        forall|i: int| 0 <= i < theme_cycle_seq().len() ==> is_canonical_scheme(#[trigger] theme_cycle_seq()[i]),
        is_canonical_scheme(scheme) <==> theme_cycle_seq().contains(scheme),
        forall|i: int, j: int| 0 <= i < j < theme_cycle_seq().len() ==> theme_cycle_seq()[i] != theme_cycle_seq()[j],
{
    if is_canonical_scheme(scheme) {
        let i: int = match scheme {
            ColorScheme::Default => 0,
            ColorScheme::Dark => 1,
            ColorScheme::Nord => 2,
            ColorScheme::SolarizedDark => 3,
            ColorScheme::Gruvbox => 4,
            _ => 5,
        };
        assert(theme_cycle_seq()[i] == scheme);
    }
}

} // verus!
