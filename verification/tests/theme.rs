use catacomb::theme::{accents_for, hex, themes, Rgb};

const BLACK: Rgb = Rgb { r: 0, g: 0, b: 0 };

#[test]
fn accents_for_known_theme_returns_nonzero() {
    let a = accents_for("dark");
    assert_ne!(a.accent, BLACK);
    assert_ne!(a.success, BLACK);
    assert_ne!(a.warning, BLACK);
}

#[test]
fn accents_for_unknown_theme_falls_back() {
    let a = accents_for("this-theme-does-not-exist");
    let dark = accents_for("dark");
    assert_eq!(a.accent, dark.accent);
}

#[test]
fn accents_differ_across_themes() {
    let dark = accents_for("dark");
    let light = accents_for("light");
    assert_ne!(dark.accent, light.accent);
}

#[test]
fn hex_splits_channels_and_theme_list() {
    assert_eq!(hex(0x7aa2f7), Rgb { r: 0x7a, g: 0xa2, b: 0xf7 });
    assert_eq!(accents_for("nord").warning, Rgb { r: 0xeb, g: 0xcb, b: 0x8b });
    let t = themes();
    assert_eq!(t.len(), 19);
    assert_eq!(t[0], ("dark", "Dark"));
    assert_eq!(t[11], ("synthwave", "Synthwave '84"));
    for (name, _) in &t {
        // Every listed theme has accents (tokyo-night shares dark's).
        let _ = accents_for(name);
    }
}
