//! The selectable colour themes and their semantic accent colours (the
//! colours egui's visuals have no slot for).

use vstd::prelude::*;
use crate::text::{chars_of, eq_lit};

verus! {

/// An opaque RGB colour.
#[derive(Clone, Copy, PartialEq, Eq, Debug, Structural)]
pub struct Rgb {
    pub r: u8,
    pub g: u8,
    pub b: u8,
}

/// The colour written `0xRRGGBB`.
pub open spec fn rgb_of(v: u32) -> Rgb {
    Rgb { r: ((v / 65536) % 256) as u8, g: ((v / 256) % 256) as u8, b: (v % 256) as u8 }
}

/// The colour written `0xRRGGBB`.
pub fn hex(v: u32) -> (c: Rgb)
    ensures
        c == rgb_of(v),
{
    let r = (v / 65536) % 256;
    let g = (v / 256) % 256;
    let b = v % 256;
    Rgb { r: r as u8, g: g as u8, b: b as u8 }
}

/// The accent colours of a theme.
#[derive(Clone, Copy, PartialEq, Eq, Debug, Structural)]
pub struct ThemeAccents {
    /// Selection and focus ring.
    pub accent: Rgb,
    /// Playing and watched indicators.
    pub success: Rgb,
    /// Bulk-selection highlight.
    pub warning: Rgb,
}

/// The themes in picker order: `(config name, display name)`.
pub open spec fn themes_spec() -> Seq<(Seq<char>, Seq<char>)> {
    seq![
        ("dark"@, "Dark"@),
        ("light"@, "Light"@),
        ("dracula"@, "Dracula"@),
        ("trans"@, "Trans"@),
        ("emo-nocturnal"@, "Emo: Nocturnal"@),
        ("emo-coffin"@, "Emo: Coffin"@),
        ("emo-scene-queen"@, "Emo: Scene Queen"@),
        ("cemetery-moss"@, "Cemetery Moss"@),
        ("vampire"@, "Vampire"@),
        ("witching-hour"@, "Witching Hour"@),
        ("cyberpunk"@, "Cyberpunk"@),
        ("synthwave"@, "Synthwave '84"@),
        ("vaporwave"@, "Vaporwave"@),
        ("nord"@, "Nord"@),
        ("gruvbox"@, "Gruvbox"@),
        ("tokyo-night"@, "Tokyo Night"@),
        ("paper"@, "Paper"@),
        ("honey"@, "Honey"@),
        ("candlelight"@, "Candlelight"@),
    ]
}

/// The selectable themes ([`themes_spec`]).
pub fn themes() -> (r: Vec<(&'static str, &'static str)>)
    ensures
        r@.map_values(|p: (&'static str, &'static str)| (p.0@, p.1@)) == themes_spec(),
{
    let mut v: Vec<(&'static str, &'static str)> = Vec::new();
    v.push(("dark", "Dark"));
    v.push(("light", "Light"));
    v.push(("dracula", "Dracula"));
    v.push(("trans", "Trans"));
    v.push(("emo-nocturnal", "Emo: Nocturnal"));
    v.push(("emo-coffin", "Emo: Coffin"));
    v.push(("emo-scene-queen", "Emo: Scene Queen"));
    v.push(("cemetery-moss", "Cemetery Moss"));
    v.push(("vampire", "Vampire"));
    v.push(("witching-hour", "Witching Hour"));
    v.push(("cyberpunk", "Cyberpunk"));
    v.push(("synthwave", "Synthwave '84"));
    v.push(("vaporwave", "Vaporwave"));
    v.push(("nord", "Nord"));
    v.push(("gruvbox", "Gruvbox"));
    v.push(("tokyo-night", "Tokyo Night"));
    v.push(("paper", "Paper"));
    v.push(("honey", "Honey"));
    v.push(("candlelight", "Candlelight"));
    assert(v@.map_values(|p: (&'static str, &'static str)| (p.0@, p.1@)) =~= themes_spec());
    v
}

/// The `(accent, success, warning)` colours of a theme name; unknown
/// names get the dark theme's.
pub open spec fn accents_spec(name: Seq<char>) -> (u32, u32, u32) {
    if name == "light"@ {
        (0x2a5db0, 0x2e7d32, 0x8e44ad)
    } else if name == "dracula"@ {
        (0xbd93f9, 0x50fa7b, 0xff79c6)
    } else if name == "trans"@ {
        (0x55cdfc, 0x2e7d32, 0xf7a8b8)
    } else if name == "emo-nocturnal"@ {
        (0xff0090, 0x39ff14, 0x00f5ff)
    } else if name == "emo-coffin"@ {
        (0x8b0000, 0x39ff14, 0xcc2222)
    } else if name == "emo-scene-queen"@ {
        (0x39ff14, 0xff00ff, 0x00f5ff)
    } else if name == "cyberpunk"@ {
        (0x00fff5, 0x39ff14, 0xff003c)
    } else if name == "synthwave"@ {
        (0xff2a6d, 0x05d9e8, 0xd136a6)
    } else if name == "vaporwave"@ {
        (0x01cdfe, 0x05ffa1, 0xff71ce)
    } else if name == "cemetery-moss"@ {
        (0x7a8a6a, 0x4a5d3a, 0x9a9a8a)
    } else if name == "vampire"@ {
        (0xc9a227, 0x8b1a2b, 0x5c0a1e)
    } else if name == "witching-hour"@ {
        (0x6a4a8b, 0xb0b8d0, 0x1a1a4a)
    } else if name == "nord"@ {
        (0x88c0d0, 0xa3be8c, 0xebcb8b)
    } else if name == "gruvbox"@ {
        (0xfe8019, 0xb8bb26, 0xd3869b)
    } else if name == "paper"@ {
        (0x8b6f3a, 0x4a6b3a, 0xc4a86a)
    } else if name == "honey"@ {
        (0xe8a838, 0xb87420, 0xc97b4a)
    } else if name == "candlelight"@ {
        (0xa8703a, 0x6b3f1e, 0xd9b382)
    } else {
        // dark, tokyo-night and any unknown name
        (0x7aa2f7, 0x9ece6a, 0xbb9af7)
    }
}

/// The semantic accents of a theme; unknown names fall back to the dark
/// theme's.
pub fn accents_for(name: &str) -> (a: ThemeAccents)
    ensures
        ({
            let (x, y, z) = accents_spec(name@);
            a == ThemeAccents { accent: rgb_of(x), success: rgb_of(y), warning: rgb_of(z) }
        }),
{
    let n = chars_of(name);
    let (x, y, z): (u32, u32, u32) = if eq_lit(&n, "light") {
        (0x2a5db0, 0x2e7d32, 0x8e44ad)
    } else if eq_lit(&n, "dracula") {
        (0xbd93f9, 0x50fa7b, 0xff79c6)
    } else if eq_lit(&n, "trans") {
        (0x55cdfc, 0x2e7d32, 0xf7a8b8)
    } else if eq_lit(&n, "emo-nocturnal") {
        (0xff0090, 0x39ff14, 0x00f5ff)
    } else if eq_lit(&n, "emo-coffin") {
        (0x8b0000, 0x39ff14, 0xcc2222)
    } else if eq_lit(&n, "emo-scene-queen") {
        (0x39ff14, 0xff00ff, 0x00f5ff)
    } else if eq_lit(&n, "cyberpunk") {
        (0x00fff5, 0x39ff14, 0xff003c)
    } else if eq_lit(&n, "synthwave") {
        (0xff2a6d, 0x05d9e8, 0xd136a6)
    } else if eq_lit(&n, "vaporwave") {
        (0x01cdfe, 0x05ffa1, 0xff71ce)
    } else if eq_lit(&n, "cemetery-moss") {
        (0x7a8a6a, 0x4a5d3a, 0x9a9a8a)
    } else if eq_lit(&n, "vampire") {
        (0xc9a227, 0x8b1a2b, 0x5c0a1e)
    } else if eq_lit(&n, "witching-hour") {
        (0x6a4a8b, 0xb0b8d0, 0x1a1a4a)
    } else if eq_lit(&n, "nord") {
        (0x88c0d0, 0xa3be8c, 0xebcb8b)
    } else if eq_lit(&n, "gruvbox") {
        (0xfe8019, 0xb8bb26, 0xd3869b)
    } else if eq_lit(&n, "paper") {
        (0x8b6f3a, 0x4a6b3a, 0xc4a86a)
    } else if eq_lit(&n, "honey") {
        (0xe8a838, 0xb87420, 0xc97b4a)
    } else if eq_lit(&n, "candlelight") {
        (0xa8703a, 0x6b3f1e, 0xd9b382)
    } else {
        (0x7aa2f7, 0x9ece6a, 0xbb9af7)
    };
    ThemeAccents { accent: hex(x), success: hex(y), warning: hex(z) }
}

} // verus!
