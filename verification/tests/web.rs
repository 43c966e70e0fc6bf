use catacomb::web::{
    auth_decision, bind_mode_of, count_cookies, file_url, generate_session_token,
    get_available_binds, hash_password, hex_lower, is_https_proto, lang_label,
    percent_encode_segment, pick_ip, prepare_cookies, resolve_bind_mode, session_cookie,
    session_token_from_cookie, session_valid, srt_to_vtt, verify_password, AuthOutcome,
    LoginAttempt, LOGIN_LOCKOUT_AFTER,
};

#[test]
fn srt_to_vtt_replaces_comma_in_timestamps_only() {
    let srt = "1\n00:00:01,500 --> 00:00:03,000\nHello, world\n";
    let vtt = srt_to_vtt(srt);
    assert!(vtt.starts_with("WEBVTT\n\n"));
    // Comma in body preserved; comma in timestamp converted to dot.
    assert!(vtt.contains("00:00:01.500 --> 00:00:03.000"));
    assert!(vtt.contains("Hello, world"));
}

#[test]
fn count_cookies_only_counts_seven_field_lines() {
    let body = "# Netscape HTTP Cookie File\n\
                .youtube.com\tTRUE\t/\tFALSE\t0\tname\tvalue\n\
                not a cookie line\n\
                .example.com\tTRUE\t/\tFALSE\t0\tn2\tv2\n";
    assert_eq!(count_cookies(body), 2);
}

#[test]
fn percent_encode_segment_passes_safe_chars() {
    assert_eq!(percent_encode_segment("abcXYZ0-9._~"), "abcXYZ0-9._~");
}

#[test]
fn percent_encode_segment_escapes_space_and_slash() {
    assert_eq!(percent_encode_segment("a b/c"), "a%20b%2Fc");
}

#[test]
fn percent_encode_segment_escapes_non_ascii() {
    // 'é' in UTF-8 is 0xC3 0xA9.
    assert_eq!(percent_encode_segment("é"), "%C3%A9");
}

#[test]
fn bind_mode_of_recognizes_loopback_and_wildcard() {
    assert_eq!(bind_mode_of("127.0.0.1"), "localhost");
    assert_eq!(bind_mode_of("localhost"), "localhost");
    assert_eq!(bind_mode_of("0.0.0.0"), "all");
    assert_eq!(bind_mode_of("100.64.1.2"), "tailscale");
    assert_eq!(bind_mode_of("192.168.1.10"), "lan");
}

#[test]
fn hash_password_verify_roundtrip() {
    let h = hash_password("hunter2").unwrap();
    assert!(verify_password("hunter2", &h));
    assert!(!verify_password("wrong", &h));
}

#[test]
fn verify_password_refuses_garbage_hash() {
    assert!(!verify_password("hunter2", "not a phc string"));
}

#[test]
fn lang_label_known_codes() {
    assert_eq!(lang_label("en"), "English");
    assert_eq!(lang_label("ja"), "Japanese");
    assert_eq!(lang_label("en-orig"), "English (auto)");
    // Unknown: returned as-is.
    assert_eq!(lang_label("zz"), "zz");
}

#[test]
fn lang_label_auto_and_regional() {
    assert_eq!(lang_label("pt-BR"), "Portuguese");
    assert_eq!(lang_label("de-auto"), "German (auto)");
    assert_eq!(lang_label("zz-orig"), "zz-orig");
}

#[test]
fn file_urls_under_root() {
    assert_eq!(
        file_url("/lib", "/lib/channels/My Chan/v [x].mkv"),
        Some("/files/channels/My%20Chan/v%20%5Bx%5D.mkv".to_string())
    );
    assert_eq!(file_url("/lib", "/other/a.mkv"), None);
    assert_eq!(file_url("/lib", "/lib"), None);
}

#[test]
fn bind_choices_and_resolution() {
    let binds = get_available_binds(8080, Some("100.64.0.1"), Some("127.0.0.1"));
    let ids: Vec<&str> = binds.iter().map(|b| b.id.as_str()).collect();
    assert_eq!(ids, vec!["localhost", "tailscale", "all"]);
    assert_eq!(binds[1].label, "Tailscale (100.64.0.1)");
    assert_eq!(binds[1].address, "100.64.0.1:8080");
    assert_eq!(binds[2].address, "0.0.0.0:8080");
    let binds = get_available_binds(80, None, Some("192.168.1.5"));
    assert_eq!(binds[1].id, "lan");
    assert_eq!(binds[1].label, "LAN (192.168.1.5)");
    assert_eq!(resolve_bind_mode("tailscale", None, None), "127.0.0.1");
    assert_eq!(resolve_bind_mode("lan", None, Some("10.0.0.2")), "10.0.0.2");
    assert_eq!(resolve_bind_mode("all", None, None), "0.0.0.0");
    assert_eq!(resolve_bind_mode("bogus", None, None), "127.0.0.1");
}

#[test]
fn picks_addresses_from_hostname_output() {
    let out = "127.0.0.1 192.168.1.20 100.101.102.103 fe80::1\n";
    assert_eq!(pick_ip(out, true), Some("100.101.102.103".to_string()));
    assert_eq!(pick_ip(out, false), Some("192.168.1.20".to_string()));
    assert_eq!(pick_ip("127.0.0.1\n", false), None);
}

#[test]
fn cookie_jar_validation() {
    assert_eq!(prepare_cookies("   \n"), Err("no cookies provided".to_string()));
    assert!(prepare_cookies("just some text").is_err());
    assert_eq!(
        prepare_cookies("  # Netscape HTTP Cookie File"),
        Ok("  # Netscape HTTP Cookie File\n".to_string())
    );
    let jar = ".a.com\tTRUE\t/\tFALSE\t0\tn\tv\n";
    assert_eq!(prepare_cookies(jar), Ok(jar.to_string()));
}

#[test]
fn login_lockout_after_five_failures() {
    let mut a = LoginAttempt::new();
    for _ in 0..(LOGIN_LOCKOUT_AFTER - 1) {
        a.record_failure(1000);
        assert!(!a.is_locked(1000));
    }
    a.record_failure(1000);
    assert!(a.is_locked(1000));
    assert!(a.is_locked(1059));
    assert!(!a.is_locked(1060));
    assert_eq!(a.failures, 0);
    assert!(a.keep(1059));
    assert!(!a.keep(1060));
    assert!(LoginAttempt::new().keep(5));
}

#[test]
fn sessions_and_cookies() {
    assert!(session_valid(100, 100 + 30 * 24 * 3600 - 1));
    assert!(!session_valid(100, 100 + 30 * 24 * 3600));
    assert!(session_valid(100, 50));
    assert_eq!(
        session_token_from_cookie("theme=dark; session=abc123; other=1"),
        Some("abc123".to_string())
    );
    assert_eq!(session_token_from_cookie("theme=dark"), None);
    assert!(is_https_proto("HTTPS"));
    assert!(!is_https_proto("http"));
    assert_eq!(
        session_cookie("tok", true, 60),
        "session=tok; HttpOnly; SameSite=Strict; Path=/; Max-Age=60; Secure"
    );
    assert_eq!(
        session_cookie("tok", false, 60),
        "session=tok; HttpOnly; SameSite=Strict; Path=/; Max-Age=60"
    );
}

#[test]
fn session_tokens_are_hex() {
    let t = generate_session_token();
    assert_eq!(t.len(), 64);
    assert!(t.chars().all(|c| c.is_ascii_hexdigit() && !c.is_ascii_uppercase()));
    assert_eq!(hex_lower(&vec![0x00, 0xab, 0x0f]), "00ab0f");
}

#[test]
fn auth_gate() {
    assert_eq!(auth_decision(false, "/anything", false), AuthOutcome::Pass);
    assert_eq!(auth_decision(true, "/api/login", false), AuthOutcome::Pass);
    assert_eq!(auth_decision(true, "/api/library", true), AuthOutcome::Pass);
    assert_eq!(auth_decision(true, "/", false), AuthOutcome::LoginPage);
    assert_eq!(auth_decision(true, "/api/library", false), AuthOutcome::Unauthorized);
}
