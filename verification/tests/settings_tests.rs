use rtop::settings::{config_text, parse_config, scheme_config_name};
use rtop::snapshot::ColorScheme;

const ALL: [ColorScheme; 9] = [
    ColorScheme::Default,
    ColorScheme::Dark,
    ColorScheme::Light,
    ColorScheme::Monochrome,
    ColorScheme::Nord,
    ColorScheme::SolarizedDark,
    ColorScheme::SolarizedLight,
    ColorScheme::Gruvbox,
    ColorScheme::Rtop,
];

#[test]
fn settings_text_is_one_toml_line() {
    assert_eq!(config_text(ColorScheme::Nord), "color_scheme = \"Nord\"\n");
    assert_eq!(scheme_config_name(ColorScheme::SolarizedDark), "SolarizedDark");
}

#[test]
fn what_is_saved_is_loaded() {
    for s in ALL {
        assert_eq!(parse_config(&config_text(s)), Some(s));
    }
}

#[test]
fn loading_tolerates_layout_and_rejects_unknown_names() {
    assert_eq!(parse_config("# theme\ncolor_scheme=Gruvbox\r\n"), Some(ColorScheme::Gruvbox));
    assert_eq!(parse_config("  color_scheme  =   \"Dark\"  \n"), Some(ColorScheme::Dark));
    assert_eq!(parse_config("color_scheme = \"Pink\"\ncolor_scheme = \"Nord\"\n"), None);
    assert_eq!(parse_config("other = 1\n"), None);
    assert_eq!(parse_config(""), None);
}
