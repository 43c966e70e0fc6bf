use catacomb::peertube::{parse_target, watch_url, Target};

fn target_str(t: &Target) -> String {
    match t {
        Target::Instance => "instance".into(),
        Target::Account(n) => format!("account:{n}"),
        Target::Channel(h) => format!("channel:{h}"),
    }
}

#[test]
fn parse_target_variants() {
    let cases = [
        ("https://framatube.org", "https://framatube.org", "instance"),
        ("https://framatube.org/", "https://framatube.org", "instance"),
        ("https://framatube.org/c/blender", "https://framatube.org", "channel:blender"),
        ("https://framatube.org/video-channels/blender", "https://framatube.org", "channel:blender"),
        ("https://framatube.org/a/framasoft", "https://framatube.org", "account:framasoft"),
        ("https://framatube.org/accounts/framasoft", "https://framatube.org", "account:framasoft"),
        ("https://framatube.org/c/foo@other.tld", "https://framatube.org", "channel:foo@other.tld"),
        ("http://peer:9000/c/x", "http://peer:9000", "channel:x"),
    ];
    for (url, base, tgt) in cases {
        let (b, t) = parse_target(url);
        assert_eq!(b, base, "base for {url}");
        assert_eq!(target_str(&t), tgt, "target for {url}");
    }
}

#[test]
fn watch_url_built_from_base() {
    let (base, _) = parse_target("https://framatube.org/c/blender");
    assert_eq!(watch_url(&base, "abc-123"), "https://framatube.org/w/abc-123");
}

#[test]
fn parse_target_edge_cases() {
    let (b, t) = parse_target("  https://host//c//chan/extra/ ");
    assert_eq!(b, "https://host");
    assert_eq!(target_str(&t), "channel:chan");
    let (b, t) = parse_target("host/c/x");
    assert_eq!(b, "host/c/x");
    assert_eq!(target_str(&t), "instance");
    let (_, t) = parse_target("https://host/c");
    assert_eq!(target_str(&t), "instance");
}
