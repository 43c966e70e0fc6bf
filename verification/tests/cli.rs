use catacomb::cli::{find_flag, renderer_from_args, renderer_from_name, web_mode_port, Renderer};

fn args(v: &[&str]) -> Vec<String> {
    v.iter().map(|s| s.to_string()).collect()
}

#[test]
fn renderer_name_accepts_default_and_aliases() {
    assert_eq!(renderer_from_name(None).0, Renderer::Wgpu);
    assert_eq!(renderer_from_name(Some("wgpu")).0, Renderer::Wgpu);
    assert_eq!(renderer_from_name(Some("vulkan")).0, Renderer::Wgpu);
    assert_eq!(renderer_from_name(Some("glow")).0, Renderer::Glow);
    assert_eq!(renderer_from_name(Some("opengl")).0, Renderer::Glow);
    assert_eq!(renderer_from_name(Some("unknown")).0, Renderer::Wgpu);
}

#[test]
fn renderer_arg_overrides_env_parser_path() {
    let a = args(&["yt-offline", "--renderer", "gl"]);
    assert_eq!(renderer_from_args(&a, Some("wgpu")).0, Renderer::Glow);
}

#[test]
fn renderer_names_are_trimmed_and_case_folded_and_unknowns_flagged() {
    assert_eq!(renderer_from_name(Some("  GLOW ")), (Renderer::Glow, false));
    assert_eq!(renderer_from_name(Some("VK")), (Renderer::Wgpu, false));
    assert_eq!(renderer_from_name(Some("metal")), (Renderer::Wgpu, true));
    assert_eq!(renderer_from_args(&args(&["x"]), Some("opengl")).0, Renderer::Glow);
    assert_eq!(renderer_from_args(&args(&["x", "--renderer"]), Some("gl")).0, Renderer::Glow);
    assert_eq!(renderer_from_args(&args(&["x"]), None), (Renderer::Wgpu, false));
}

#[test]
fn web_mode_port_from_args() {
    assert_eq!(web_mode_port(&args(&["x"]), 8080), None);
    assert_eq!(web_mode_port(&args(&["x", "--web"]), 8080), Some(8080));
    assert_eq!(web_mode_port(&args(&["x", "--web", "9000"]), 8080), Some(9000));
    assert_eq!(web_mode_port(&args(&["x", "--web", "+81"]), 8080), Some(81));
    assert_eq!(web_mode_port(&args(&["x", "--web", "70000"]), 8080), Some(8080));
    assert_eq!(web_mode_port(&args(&["x", "--web", "--renderer"]), 8080), Some(8080));
}

#[test]
fn find_flag_gives_first_exact_position() {
    let a = args(&["catacomb", "--web", "8080", "--web"]);
    assert_eq!(find_flag(&a, "--web"), Some(1));
    assert_eq!(find_flag(&a, "--we"), None);
    assert_eq!(find_flag(&Vec::new(), "--web"), None);
}
