//! Layout of the bundled yt-dlp + deno install:
//!
//! ```text
//! ~/.local/share/yt-offline/
//!   bin/                 ← prepended to PATH so yt-dlp finds deno
//!     deno
//!   venv/
//!     bin/yt-dlp         ← the real entry point (Scripts\yt-dlp.exe on Windows)
//! ```
//!
//! The home directory and the host OS come from the environment; the paths
//! built from them are here.

use vstd::prelude::*;
use crate::paths::{join, path_join};
use crate::text::{chars_of, eq_lit};

verus! {

/// `~/.local/share/yt-offline` for a home directory (`.` when unknown).
pub open spec fn bundled_root_spec(home: Option<Seq<char>>) -> Seq<char> {
    let h = match home {
        Some(h) => h,
        None => "."@,
    };
    path_join(path_join(path_join(h, ".local"@), "share"@), "yt-offline"@)
}

/// Root directory holding everything bundled — venv and bin.
pub fn bundled_root(home: Option<&str>) -> (r: String)
    ensures
        r@ == bundled_root_spec(
            match home {
                Some(h) => Some(h@),
                None => None,
            },
        ),
{
    let h = match home {
        Some(h) => h,
        None => ".",
    };
    let a = join(h, ".local");
    let b = join(a.as_str(), "share");
    join(b.as_str(), "yt-offline")
}

/// Directory holding non-Python binaries (deno, bgutil-pot); prepended to
/// `PATH` when spawning yt-dlp.
pub fn bundled_dir(root: &str) -> (r: String)
    ensures
        r@ == path_join(root@, "bin"@),
{
    join(root, "bin")
}

/// Root of the Python virtualenv that hosts the bundled yt-dlp.
pub fn bundled_venv(root: &str) -> (r: String)
    ensures
        r@ == path_join(root@, "venv"@),
{
    join(root, "venv")
}

/// Full path to the bundled yt-dlp entry point: `venv/bin/yt-dlp`, or
/// `venv\Scripts\yt-dlp.exe` on Windows.
pub open spec fn bundled_ytdlp_path_spec(root: Seq<char>, windows: bool) -> Seq<char> {
    let venv = path_join(root, "venv"@);
    if windows {
        path_join(path_join(venv, "Scripts"@), "yt-dlp.exe"@)
    } else {
        path_join(path_join(venv, "bin"@), "yt-dlp"@)
    }
}

/// Full path to the bundled yt-dlp entry point.
pub fn bundled_ytdlp_path(root: &str, windows: bool) -> (r: String)
    ensures
        r@ == bundled_ytdlp_path_spec(root@, windows),
{
    let venv = bundled_venv(root);
    if windows {
        let s = join(venv.as_str(), "Scripts");
        join(s.as_str(), "yt-dlp.exe")
    } else {
        let s = join(venv.as_str(), "bin");
        join(s.as_str(), "yt-dlp")
    }
}

/// The yt-dlp to run: the bundled one (even before it is installed, so the
/// spawn error prompts an install) or the bare `yt-dlp` on `PATH`.
pub fn ytdlp_invocation(use_bundled: bool, root: &str, windows: bool) -> (r: String)
    ensures
        r@ == if use_bundled {
            bundled_ytdlp_path_spec(root@, windows)
        } else {
            "yt-dlp"@
        },
{
    if use_bundled {
        bundled_ytdlp_path(root, windows)
    } else {
        String::from_str("yt-dlp")
    }
}

/// GitHub release asset of deno for an OS / architecture pair; unknown
/// hosts fall back to Linux x86_64.
pub open spec fn deno_asset_spec(os: Seq<char>, arch: Seq<char>) -> Seq<char> {
    if os == "linux"@ && arch == "x86_64"@ {
        "deno-x86_64-unknown-linux-gnu.zip"@
    } else if os == "linux"@ && arch == "aarch64"@ {
        "deno-aarch64-unknown-linux-gnu.zip"@
    } else if os == "macos"@ && arch == "x86_64"@ {
        "deno-x86_64-apple-darwin.zip"@
    } else if os == "macos"@ && arch == "aarch64"@ {
        "deno-aarch64-apple-darwin.zip"@
    } else if os == "windows"@ {
        "deno-x86_64-pc-windows-msvc.zip"@
    } else {
        "deno-x86_64-unknown-linux-gnu.zip"@
    }
}

/// Deno release asset for `std::env::consts::{OS, ARCH}`.
pub fn deno_asset(os: &str, arch: &str) -> (r: &'static str)
    ensures
        r@ == deno_asset_spec(os@, arch@),
{
    let o = chars_of(os);
    let a = chars_of(arch);
    if eq_lit(&o, "linux") && eq_lit(&a, "x86_64") {
        "deno-x86_64-unknown-linux-gnu.zip"
    } else if eq_lit(&o, "linux") && eq_lit(&a, "aarch64") {
        "deno-aarch64-unknown-linux-gnu.zip"
    } else if eq_lit(&o, "macos") && eq_lit(&a, "x86_64") {
        "deno-x86_64-apple-darwin.zip"
    } else if eq_lit(&o, "macos") && eq_lit(&a, "aarch64") {
        "deno-aarch64-apple-darwin.zip"
    } else if eq_lit(&o, "windows") {
        "deno-x86_64-pc-windows-msvc.zip"
    } else {
        "deno-x86_64-unknown-linux-gnu.zip"
    }
}

} // verus!
