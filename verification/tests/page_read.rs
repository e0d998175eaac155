use base64::Engine;
use clawgotchi::discovery::{discover_from_body, CdpTarget, DiscoveryError};
use clawgotchi::page::{build_read_commands, extract_snapshot, socket_for_read, PageError};
use clawgotchi::screenshot::compress_screenshot_base64;

fn small_jpeg_base64() -> String {
    let img = image::RgbaImage::from_pixel(4, 4, image::Rgba([10, 20, 30, 255]));
    let mut bytes: Vec<u8> = Vec::new();
    let mut enc = image::codecs::jpeg::JpegEncoder::new_with_quality(&mut bytes, 80);
    enc.encode_image(&image::DynamicImage::ImageRgba8(img)).unwrap();
    base64::engine::general_purpose::STANDARD.encode(&bytes)
}

fn page_target(ws: Option<&str>) -> CdpTarget {
    CdpTarget {
        id: "t1".to_string(),
        target_type: "page".to_string(),
        title: "Example".to_string(),
        url: "https://example.com".to_string(),
        web_socket_debugger_url: ws.map(|s| s.to_string()),
    }
}

#[test]
fn no_page_target_fails_before_any_transport_work() {
    let targets = vec![CdpTarget {
        id: "bg".to_string(),
        target_type: "service_worker".to_string(),
        title: "w".to_string(),
        url: "u".to_string(),
        web_socket_debugger_url: Some("ws://x".to_string()),
    }];
    match socket_for_read(&targets) {
        Err(e) => assert_eq!(e.message(false), "No open tabs found in Chrome."),
        Ok(_) => panic!("a worker target must not be selected"),
    }
}

#[test]
fn page_without_socket_is_not_eligible() {
    let targets = vec![page_target(None)];
    match socket_for_read(&targets) {
        Err(PageError::Discovery(DiscoveryError::NoOpenTabs)) => {},
        _ => panic!("a page without a socket must yield the no-open-tabs error"),
    }
}

#[test]
fn first_eligible_page_supplies_the_socket() {
    let targets = vec![page_target(None), page_target(Some("ws://127.0.0.1:9222/devtools/1"))];
    assert_eq!(socket_for_read(&targets).unwrap(), "ws://127.0.0.1:9222/devtools/1");
}

#[test]
fn discovery_parses_the_endpoint_body() {
    let body = "[{\"id\":\"a\",\"type\":\"iframe\",\"title\":\"f\",\"url\":\"u\"},\
                {\"id\":\"b\",\"type\":\"page\",\"title\":\"T\",\"url\":\"U\",\
                 \"webSocketDebuggerUrl\":\"ws://h/devtools/b\"}]";
    let t = discover_from_body(body).unwrap();
    assert_eq!(t.id, "b");
    assert_eq!(t.web_socket_debugger_url.as_deref(), Some("ws://h/devtools/b"));
}

#[test]
fn discovery_rejects_a_malformed_body() {
    match discover_from_body("not json") {
        Err(DiscoveryError::ParseFailed(m)) => {
            assert!(m.starts_with("Failed to parse Chrome debug targets"));
        },
        _ => panic!("a malformed body must fail discovery"),
    }
}

#[test]
fn discovery_with_no_match_reports_no_open_tabs() {
    match discover_from_body("[]") {
        Err(e) => assert_eq!(e.message(true),
            "No open tabs found in Chrome."),
        Ok(_) => panic!("an empty list holds no tab"),
    }
}

#[test]
fn the_batch_holds_exactly_three_fixed_commands() {
    let cmds = build_read_commands();
    assert_eq!(cmds.len(), 3);
    assert_eq!(cmds[0].method, "Runtime.evaluate");
    assert_eq!(
        cmds[0].params,
        "{\"expression\":\"document.documentElement.outerHTML\",\"returnByValue\":true}"
    );
    assert_eq!(cmds[1].method, "Page.captureScreenshot");
    assert_eq!(cmds[1].params, "{\"format\":\"jpeg\",\"quality\":80}");
    assert_eq!(cmds[2].method, "Runtime.evaluate");
    assert_eq!(
        cmds[2].params,
        "{\"expression\":\"JSON.stringify({url:location.href,title:document.title})\",\"returnByValue\":true}"
    );
}

#[test]
fn full_responses_yield_the_snapshot() {
    let shot = small_jpeg_base64();
    let r0 = "{\"id\":1,\"result\":{\"result\":{\"type\":\"string\",\
               \"value\":\"<html><body>Hi</body></html>\"}}}"
        .to_string();
    let r1 = format!("{{\"id\":2,\"result\":{{\"data\":\"{shot}\"}}}}");
    let r2 = "{\"id\":3,\"result\":{\"result\":{\"type\":\"string\",\"value\":\
               \"{\\\"url\\\":\\\"https://example.com\\\",\\\"title\\\":\\\"Example\\\"}\"}}}"
        .to_string();
    let responses = vec![r0, r1, r2];
    let snap = extract_snapshot(&responses).unwrap();
    assert_eq!(snap.html, "<html><body>Hi</body></html>");
    assert_eq!(snap.screenshot, shot);
    assert_eq!(snap.url, "https://example.com");
    assert_eq!(snap.title, "Example");
}

#[test]
fn empty_html_and_screenshot_fail_the_read() {
    let r0 = "{\"id\":1,\"result\":{\"result\":{\"type\":\"string\",\"value\":\"\"}}}".to_string();
    let r1 = "{\"id\":2,\"error\":{\"message\":\"capture failed\"}}".to_string();
    let r2 = "{\"id\":3,\"result\":{\"result\":{\"type\":\"string\",\"value\":\"{}\"}}}"
        .to_string();
    let responses = vec![r0, r1, r2];
    match extract_snapshot(&responses) {
        Err(e) => assert_eq!(e.message(false), "Failed to read the page. Please try again."),
        Ok(_) => panic!("an empty read must fail"),
    }
}

#[test]
fn partial_success_keeps_the_snapshot() {
    // markup present, screenshot missing: still a success
    let r0 = "{\"id\":1,\"result\":{\"result\":{\"value\":\"<p>x</p>\"}}}".to_string();
    let r1 = "{\"id\":2,\"error\":{\"message\":\"no capture\"}}".to_string();
    let r2 = "{\"id\":3}".to_string();
    let responses = vec![r0, r1, r2];
    let snap = extract_snapshot(&responses).unwrap();
    assert_eq!(snap.html, "<p>x</p>");
    assert_eq!(snap.screenshot, "");
    assert_eq!(snap.url, "");
    assert_eq!(snap.title, "");
}

#[test]
fn a_small_capture_passes_through_untouched() {
    let shot = small_jpeg_base64();
    assert_eq!(compress_screenshot_base64(&shot).unwrap(), shot);
}

#[test]
fn an_empty_capture_stays_empty() {
    assert_eq!(compress_screenshot_base64("").unwrap(), "");
}
