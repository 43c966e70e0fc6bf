//! YouTube Proof-of-Origin token provider: where the bgutil-pot server
//! listens, the extractor argument that points yt-dlp's plugin at it, and
//! which release binary fits a host. Spawning and installing it happen with
//! the rest of the process plumbing.

use vstd::prelude::*;
use crate::num::{dec, push_dec};
use crate::paths::{join, path_join};
use crate::text::{chars_of, eq_lit, extend_str, string_of};

verus! {

/// Port the bgutil-pot server listens on (the plugin's default).
pub const SERVER_PORT: u16 = 4416;

/// The server binds to loopback only.
pub open spec fn server_host() -> Seq<char> {
    "127.0.0.1"@
}

/// `http://127.0.0.1:4416`.
pub open spec fn server_url_spec() -> Seq<char> {
    "http://"@ + server_host() + ":"@ + dec(SERVER_PORT as nat)
}

/// Full URL the yt-dlp plugin uses to reach the provider.
pub fn server_url() -> (r: String)
    ensures
        r@ == server_url_spec(),
{
    let mut out: Vec<char> = Vec::new();
    extend_str(&mut out, "http://");
    extend_str(&mut out, "127.0.0.1");
    extend_str(&mut out, ":");
    push_dec(&mut out, SERVER_PORT as u64);
    string_of(&out)
}

/// The `--extractor-args` value that points the bgutil plugin at the local
/// server.
pub fn extractor_args() -> (r: String)
    ensures
        r@ == "youtubepot-bgutilhttp:base_url="@ + server_url_spec(),
{
    let mut out: Vec<char> = Vec::new();
    extend_str(&mut out, "youtubepot-bgutilhttp:base_url=");
    extend_str(&mut out, server_url().as_str());
    string_of(&out)
}

/// The bgutil-pot binary's name on a host.
pub open spec fn bin_name(windows: bool) -> Seq<char> {
    if windows {
        "bgutil-pot.exe"@
    } else {
        "bgutil-pot"@
    }
}

/// Path to the bgutil-pot binary inside the bundled bin directory.
pub fn bin_path(bundled_dir: &str, windows: bool) -> (r: String)
    ensures
        r@ == path_join(bundled_dir@, bin_name(windows)),
{
    if windows {
        join(bundled_dir, "bgutil-pot.exe")
    } else {
        join(bundled_dir, "bgutil-pot")
    }
}

/// GitHub release asset for an OS / architecture pair; unknown hosts fall
/// back to Linux x86_64.
pub open spec fn release_asset_spec(os: Seq<char>, arch: Seq<char>) -> Seq<char> {
    if os == "linux"@ && arch == "x86_64"@ {
        "bgutil-pot-linux-x86_64"@
    } else if os == "linux"@ && arch == "aarch64"@ {
        "bgutil-pot-linux-aarch64"@
    } else if os == "macos"@ && arch == "x86_64"@ {
        "bgutil-pot-macos-x86_64"@
    } else if os == "macos"@ && arch == "aarch64"@ {
        "bgutil-pot-macos-aarch64"@
    } else if os == "windows"@ {
        "bgutil-pot-windows-x86_64.exe"@
    } else {
        "bgutil-pot-linux-x86_64"@
    }
}

/// Release asset name for `std::env::consts::{OS, ARCH}`.
pub fn release_asset(os: &str, arch: &str) -> (r: &'static str)
    ensures
        r@ == release_asset_spec(os@, arch@),
{
    let o = chars_of(os);
    let a = chars_of(arch);
    if eq_lit(&o, "linux") && eq_lit(&a, "x86_64") {
        "bgutil-pot-linux-x86_64"
    } else if eq_lit(&o, "linux") && eq_lit(&a, "aarch64") {
        "bgutil-pot-linux-aarch64"
    } else if eq_lit(&o, "macos") && eq_lit(&a, "x86_64") {
        "bgutil-pot-macos-x86_64"
    } else if eq_lit(&o, "macos") && eq_lit(&a, "aarch64") {
        "bgutil-pot-macos-aarch64"
    } else if eq_lit(&o, "windows") {
        "bgutil-pot-windows-x86_64.exe"
    } else {
        "bgutil-pot-linux-x86_64"
    }
}

/// URL of the latest release's asset.
pub fn release_url(asset: &str) -> (r: String)
    ensures
        r@ == "https://github.com/jim60105/bgutil-ytdlp-pot-provider-rs/releases/latest/download/"@
            + asset@,
{
    let mut out: Vec<char> = Vec::new();
    extend_str(
        &mut out,
        "https://github.com/jim60105/bgutil-ytdlp-pot-provider-rs/releases/latest/download/",
    );
    extend_str(&mut out, asset);
    string_of(&out)
}

/// Arguments of the server subcommand: `server --host 127.0.0.1 --port 4416`.
pub fn server_args() -> (r: Vec<String>)
    ensures
        crate::text::strings(r@) == seq![
            "server"@,
            "--host"@,
            server_host(),
            "--port"@,
            dec(SERVER_PORT as nat),
        ],
{
    let mut args: Vec<String> = Vec::new();
    crate::text::push_arg(&mut args, "server");
    crate::text::push_arg(&mut args, "--host");
    crate::text::push_arg(&mut args, "127.0.0.1");
    crate::text::push_arg(&mut args, "--port");
    let mut p: Vec<char> = Vec::new();
    push_dec(&mut p, SERVER_PORT as u64);
    crate::text::push_string(&mut args, string_of(&p));
    args
}

} // verus!
