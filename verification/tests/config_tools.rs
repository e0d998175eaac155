use base64::Engine;
use clawgotchi::config::{
    candidate_config_paths, combine_config, find_wsl_config_paths, first_identity_name,
    gateway_port_from, normalize_gateway_url, normalize_non_empty, parse_identity_name,
    parse_openclaw_config, parse_openclaw_workspace, push_env_path_list,
    push_identity_file_candidates, push_unique, push_workspace_identity_candidates,
    resolve_workspace_path, to_wsl_unc_path, wsl_distro_from_unc_path, wsl_user_from_unc_path,
};
use clawgotchi::discovery::cdp_port_from;
use clawgotchi::mime::{detect_image_mime, encode_fetched_image, encode_image_file};

#[test]
fn values_are_trimmed_and_empties_dropped() {
    assert_eq!(normalize_non_empty("  token \n"), Some("token".to_string()));
    assert_eq!(normalize_non_empty("   "), None);
    assert_eq!(normalize_non_empty(""), None);
}

#[test]
fn gateway_addresses_normalize_to_socket_schemes() {
    assert_eq!(normalize_gateway_url(" ws://h:1/x "), Some("ws://h:1/x".to_string()));
    assert_eq!(normalize_gateway_url("wss://h/x"), Some("wss://h/x".to_string()));
    assert_eq!(normalize_gateway_url("http://h:2/y"), Some("ws://h:2/y".to_string()));
    assert_eq!(normalize_gateway_url("https://h/y"), Some("wss://h/y".to_string()));
    assert_eq!(normalize_gateway_url("ftp://h"), None);
    assert_eq!(normalize_gateway_url("  "), None);
}

#[test]
fn duplicate_paths_are_pushed_once() {
    let mut paths: Vec<String> = Vec::new();
    push_unique(&mut paths, "/a".to_string());
    push_unique(&mut paths, "/b".to_string());
    push_unique(&mut paths, "/a".to_string());
    assert_eq!(paths, vec!["/a".to_string(), "/b".to_string()]);
}

#[test]
fn mounted_image_candidates_are_deduplicated() {
    let found = vec!["/m/u1".to_string(), "/m/u2".to_string(), "/m/u1".to_string()];
    assert_eq!(find_wsl_config_paths(found), vec!["/m/u1".to_string(), "/m/u2".to_string()]);
}

#[test]
fn distro_and_user_come_out_of_mounted_paths() {
    let p = "\\\\wsl$\\Ubuntu\\home\\ada\\.openclaw\\openclaw.json";
    assert_eq!(wsl_distro_from_unc_path(p), Some("Ubuntu".to_string()));
    assert_eq!(wsl_user_from_unc_path(p), Some("ada".to_string()));
    // forward slashes and case fold the same way
    let q = "//WSL$/Debian/home/bo/openclaw.json";
    assert_eq!(wsl_distro_from_unc_path(q), Some("Debian".to_string()));
    assert_eq!(wsl_user_from_unc_path(q), Some("bo".to_string()));
    assert_eq!(wsl_distro_from_unc_path("/home/ada/x"), None);
    assert_eq!(wsl_user_from_unc_path("\\\\wsl$\\Ubuntu\\tmp"), None);
}

#[test]
fn machine_paths_fold_into_the_mounted_form() {
    assert_eq!(to_wsl_unc_path("Ubuntu", "/home/ada/ws"), "\\\\wsl$\\Ubuntu\\home\\ada\\ws");
    assert_eq!(to_wsl_unc_path("Ubuntu", "///"), "\\\\wsl$\\Ubuntu");
}

#[test]
fn identity_names_come_from_name_lines() {
    assert_eq!(parse_identity_name("Name: Ada"), Some("Ada".to_string()));
    assert_eq!(parse_identity_name("# notes\n- **name**: `Ada`\nrole: x"), Some("Ada".to_string()));
    assert_eq!(parse_identity_name("- name: \"Bo\"\r\n"), Some("Bo".to_string()));
    assert_eq!(parse_identity_name("names: Ada"), None);
    assert_eq!(parse_identity_name("name:\nname: Later"), Some("Later".to_string()));
    assert_eq!(parse_identity_name(""), None);
}

#[test]
fn the_first_file_with_a_name_wins() {
    let contents = vec![
        "role: helper".to_string(),
        "name: Second".to_string(),
        "name: Third".to_string(),
    ];
    assert_eq!(first_identity_name(&contents), Some("Second".to_string()));
    assert_eq!(first_identity_name(&vec!["x".to_string()]), None);
}

#[test]
fn workspace_candidates_prefer_the_markdown_file_itself() {
    let mut paths: Vec<String> = Vec::new();
    push_workspace_identity_candidates(&mut paths, "/w/self.MD");
    assert_eq!(paths, vec!["/w/self.MD".to_string()]);
    let mut dir_paths: Vec<String> = Vec::new();
    push_workspace_identity_candidates(&mut dir_paths, "/w/dir");
    assert_eq!(
        dir_paths,
        vec!["/w/dir/IDENTITY.md".to_string(), "/w/dir/identity.md".to_string()]
    );
}

#[test]
fn identity_file_candidates_come_in_fixed_order() {
    let mut paths = vec!["/base/IDENTITY.md".to_string()];
    push_identity_file_candidates(&mut paths, "/base");
    assert_eq!(
        paths,
        vec!["/base/IDENTITY.md".to_string(), "/base/identity.md".to_string()]
    );
}

#[test]
fn environment_path_lists_split_and_fall_back() {
    let mut paths: Vec<String> = Vec::new();
    push_env_path_list(&mut paths, Some("/a:/b::/a".to_string()), ':');
    assert_eq!(paths, vec!["/a".to_string(), "/b".to_string()]);
    let mut lone: Vec<String> = Vec::new();
    push_env_path_list(&mut lone, Some(" ::: ".to_string()), ':');
    assert_eq!(lone, vec![":::".to_string()]);
    let mut untouched: Vec<String> = Vec::new();
    push_env_path_list(&mut untouched, None, ':');
    assert!(untouched.is_empty());
}

#[test]
fn config_candidates_assemble_in_search_order() {
    let paths = candidate_config_paths(
        Some("/env/one".to_string()),
        None,
        ':',
        Some("/home/ada".to_string()),
        Some("/home/ada/.config".to_string()),
        false,
        &vec!["/mnt/img/openclaw.json".to_string()],
    );
    assert_eq!(
        paths,
        vec![
            "/env/one".to_string(),
            "/home/ada/.openclaw/openclaw.json".to_string(),
            "/home/ada/.config/openclaw/openclaw.json".to_string(),
            "/home/ada/.config/OpenClaw/openclaw.json".to_string(),
            "/mnt/img/openclaw.json".to_string(),
        ]
    );
}

#[test]
fn gateway_settings_parse_with_fallback_paths() {
    let text = "{\"gateway\":{\"auth\":{\"token\":\" tk \"},\"port\":1890,\
                 \"host\":\"hx\",\"wsUrl\":\"https://gw/ws\"}}";
    let parsed = parse_openclaw_config(text).unwrap();
    assert_eq!(parsed.token, Some("tk".to_string()));
    assert_eq!(parsed.port, Some(1890));
    assert_eq!(parsed.host, Some("hx".to_string()));
    assert_eq!(parsed.url, Some("wss://gw/ws".to_string()));
    assert!(parse_openclaw_config("{").unwrap_err().starts_with("failed to parse config: "));
}

#[test]
fn workspace_settings_parse_with_the_default_agent_fallback() {
    let direct = "{\"agents\":{\"defaults\":{\"workspace\":\" /w \"}}}";
    assert_eq!(parse_openclaw_workspace(direct).unwrap(), Some("/w".to_string()));
    let via_list = "{\"agents\":{\"list\":[{\"default\":false,\"workspace\":\"/no\"},\
                    {\"default\":true,\"workspace\":\"/yes\"}]}}";
    assert_eq!(parse_openclaw_workspace(via_list).unwrap(), Some("/yes".to_string()));
    assert_eq!(parse_openclaw_workspace("{}").unwrap(), None);
}

#[test]
fn environment_overrides_win_over_file_and_defaults() {
    let file = parse_openclaw_config(
        "{\"gateway\":{\"token\":\"ft\",\"port\":1111,\"host\":\"fh\"}}",
    )
    .unwrap();
    let merged = combine_config(
        Some("et".to_string()),
        None,
        None,
        Some("ws://env".to_string()),
        Some(file),
    );
    assert_eq!(merged.token, Some("et".to_string()));
    assert_eq!(merged.port, 1111);
    assert_eq!(merged.host, "fh");
    assert_eq!(merged.url, Some("ws://env".to_string()));
    let bare = combine_config(None, None, None, None, None);
    assert_eq!(bare.port, 18789);
    assert_eq!(bare.host, "127.0.0.1");
    assert_eq!(bare.token, None);
}

#[test]
fn workspace_paths_resolve_against_their_config() {
    let unc = "\\\\wsl$\\Ubuntu\\home\\ada\\.openclaw\\openclaw.json";
    assert_eq!(
        resolve_workspace_path(unc, "~/ws", None),
        "\\\\wsl$\\Ubuntu\\home\\ada\\ws"
    );
    assert_eq!(
        resolve_workspace_path("/home/ada/.openclaw/openclaw.json", "~/ws",
            Some("/home/ada".to_string())),
        "/home/ada/ws"
    );
    assert_eq!(resolve_workspace_path(unc, "/srv/ws", None), "\\\\wsl$\\Ubuntu\\srv\\ws");
    assert_eq!(
        resolve_workspace_path("/etc/openclaw/openclaw.json", "/srv/ws", None),
        "/srv/ws"
    );
    assert_eq!(
        resolve_workspace_path("/etc/openclaw/openclaw.json", "C:\\ws", None),
        "C:\\ws"
    );
    assert_eq!(
        resolve_workspace_path("/etc/openclaw/openclaw.json", "rel/ws", None),
        "/etc/openclaw/rel/ws"
    );
    assert_eq!(resolve_workspace_path("/openclaw.json", "rel/ws", None), "/rel/ws");
    assert_eq!(resolve_workspace_path("openclaw.json", "rel/ws", None), "rel/ws");
}

#[test]
fn ports_parse_exactly_as_integers() {
    assert_eq!(cdp_port_from(None), 9222);
    assert_eq!(cdp_port_from(Some("9333".to_string())), 9333);
    assert_eq!(cdp_port_from(Some("+80".to_string())), 80);
    assert_eq!(cdp_port_from(Some("65536".to_string())), 9222);
    assert_eq!(cdp_port_from(Some("12x".to_string())), 9222);
    assert_eq!(cdp_port_from(Some("-1".to_string())), 9222);
    assert_eq!(cdp_port_from(Some(" 80".to_string())), 9222);
    assert_eq!(cdp_port_from(Some("".to_string())), 9222);
    assert_eq!(gateway_port_from(Some("18790".to_string())), Some(18790));
    assert_eq!(gateway_port_from(Some("no".to_string())), None);
    assert_eq!(gateway_port_from(None), None);
}

#[test]
fn image_types_sniff_from_magic_bytes_first() {
    assert_eq!(
        detect_image_mime("x.gif", &[0x89, 0x50, 0x4E, 0x47, 0, 0]),
        Some("image/png".to_string())
    );
    assert_eq!(detect_image_mime("x", &[0xFF, 0xD8, 0xFF, 0xE0]), Some("image/jpeg".to_string()));
    assert_eq!(detect_image_mime("x", b"GIF89a"), Some("image/gif".to_string()));
    assert_eq!(
        detect_image_mime("x", b"RIFF\x00\x00\x00\x00WEBPVP8 "),
        Some("image/webp".to_string())
    );
}

#[test]
fn image_types_fall_back_to_the_extension() {
    assert_eq!(detect_image_mime("a/b.PNG?q=1#f", b"zz"), Some("image/png".to_string()));
    assert_eq!(detect_image_mime("a/b.jpeg", b""), Some("image/jpeg".to_string()));
    assert_eq!(detect_image_mime("a/b.bmp", b"zz"), Some("image/bmp".to_string()));
    assert_eq!(detect_image_mime("a/b.txt", b"zz"), None);
    assert_eq!(detect_image_mime("no extension", b"zz"), None);
}

#[test]
fn fetched_images_are_gated_and_encoded() {
    let bytes: Vec<u8> = vec![0x89, 0x50, 0x4E, 0x47, 1, 2, 3];
    let r = encode_fetched_image("u", None, &bytes).unwrap();
    assert_eq!(r.mime_type, "image/png");
    assert_eq!(r.base64, base64::engine::general_purpose::STANDARD.encode(&bytes));
    let hello = encode_fetched_image("u", Some("image/png".to_string()), &b"hello".to_vec())
        .unwrap();
    assert_eq!(hello.base64, "aGVsbG8=");
    let with_header = encode_fetched_image(
        "u",
        Some("image/webp".to_string()),
        &bytes,
    )
    .unwrap();
    assert_eq!(with_header.mime_type, "image/webp");
    let huge = vec![7u8; 10 * 1024 * 1024 + 1];
    assert_eq!(
        encode_fetched_image("u", None, &huge).unwrap_err(),
        "Image exceeds 10MB limit"
    );
    assert_eq!(
        encode_fetched_image("u.txt", None, &vec![1u8, 2, 3]).unwrap_err(),
        "URL is not a supported image"
    );
}

#[test]
fn file_images_are_gated_with_their_own_message() {
    let bytes: Vec<u8> = vec![0xFF, 0xD8, 0xFF, 0xE0, 9];
    let r = encode_image_file("shot.bin", &bytes).unwrap();
    assert_eq!(r.mime_type, "image/jpeg");
    assert_eq!(
        encode_image_file("notes.txt", &vec![1u8, 2, 3]).unwrap_err(),
        "Not a supported image file"
    );
    let huge = vec![7u8; 10 * 1024 * 1024 + 1];
    assert_eq!(encode_image_file("big.png", &huge).unwrap_err(), "Image exceeds 10MB limit");
}
