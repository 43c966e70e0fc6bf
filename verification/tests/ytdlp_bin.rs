use catacomb::ytdlp_bin::{bundled_dir, bundled_root, bundled_venv, bundled_ytdlp_path, deno_asset, ytdlp_invocation};

#[test]
fn bundled_layout_under_home() {
    let root = bundled_root(Some("/home/u"));
    assert_eq!(root, "/home/u/.local/share/yt-offline");
    assert_eq!(bundled_dir(&root), "/home/u/.local/share/yt-offline/bin");
    assert_eq!(bundled_venv(&root), "/home/u/.local/share/yt-offline/venv");
    assert_eq!(bundled_ytdlp_path(&root, false), "/home/u/.local/share/yt-offline/venv/bin/yt-dlp");
    assert_eq!(bundled_root(None), "./.local/share/yt-offline");
}

#[test]
fn invocation_prefers_path_when_not_bundled() {
    assert_eq!(ytdlp_invocation(false, "/r", false), "yt-dlp");
    assert_eq!(ytdlp_invocation(true, "/r", false), "/r/venv/bin/yt-dlp");
}

#[test]
fn deno_assets() {
    assert_eq!(deno_asset("linux", "x86_64"), "deno-x86_64-unknown-linux-gnu.zip");
    assert_eq!(deno_asset("macos", "x86_64"), "deno-x86_64-apple-darwin.zip");
    assert_eq!(deno_asset("windows", "aarch64"), "deno-x86_64-pc-windows-msvc.zip");
    assert_eq!(deno_asset("plan9", "mips"), "deno-x86_64-unknown-linux-gnu.zip");
}
