use catacomb::pot_provider::{bin_path, extractor_args, release_asset, release_url, server_args, server_url};

#[test]
fn server_url_uses_loopback_and_port() {
    assert_eq!(server_url(), "http://127.0.0.1:4416");
}

#[test]
fn extractor_args_format_matches_plugin() {
    assert_eq!(
        extractor_args(),
        "youtubepot-bgutilhttp:base_url=http://127.0.0.1:4416"
    );
}

#[test]
fn release_asset_covers_known_arches() {
    assert_eq!(release_asset("linux", "x86_64"), "bgutil-pot-linux-x86_64");
    assert_eq!(release_asset("linux", "aarch64"), "bgutil-pot-linux-aarch64");
    assert_eq!(release_asset("macos", "aarch64"), "bgutil-pot-macos-aarch64");
    assert_eq!(release_asset("windows", "x86"), "bgutil-pot-windows-x86_64.exe");
    assert_eq!(release_asset("freebsd", "riscv64"), "bgutil-pot-linux-x86_64");
}

#[test]
fn release_url_and_binary_path() {
    assert_eq!(
        release_url("bgutil-pot-linux-x86_64"),
        "https://github.com/jim60105/bgutil-ytdlp-pot-provider-rs/releases/latest/download/bgutil-pot-linux-x86_64"
    );
    assert_eq!(bin_path("/home/u/.local/share/yt-offline/bin", false), "/home/u/.local/share/yt-offline/bin/bgutil-pot");
    assert_eq!(server_args(), vec!["server", "--host", "127.0.0.1", "--port", "4416"]);
}
