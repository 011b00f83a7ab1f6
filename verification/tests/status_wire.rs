use true_cyber::status::{parse_cybermark, parse_legacy_json, parse_status, probe, status_url, Status};

const PARTICLE: &str = "---\nchain: spacepussy-test\nmoniker: cyberproxy-spt\nengine: soft3 0.8\nheight: 42\nbbg-root: abcd\nsignals: 7\nparticles: 12\naxons: 3\ncatching-up: true\n---\nbody text: ignored\n";

#[test]
fn cybermark_reads_every_known_field() {
    let s = parse_cybermark(PARTICLE).expect("status");
    assert_eq!(s.chain_id, "spacepussy-test");
    assert_eq!(s.moniker, "cyberproxy-spt");
    assert_eq!(s.engine, "soft3 0.8");
    assert_eq!(s.latest_height, 42);
    assert_eq!(s.bbg_root, "abcd");
    assert_eq!(s.signals, 7);
    assert_eq!(s.particles, 12);
    assert_eq!(s.axons, 3);
    assert!(s.catching_up);
}

#[test]
fn cybermark_ignores_lines_outside_the_fences() {
    let body = "moniker: before\n---\nmoniker: inside\n---\nmoniker: after\n";
    let s = parse_cybermark(body).expect("status");
    assert_eq!(s.moniker, "inside");
}

#[test]
fn cybermark_later_key_wins_and_values_are_trimmed() {
    let body = "---\r\n  height :  5 \r\nheight: 9\r\n---";
    let s = parse_cybermark(body).expect("status");
    assert_eq!(s.latest_height, 9);
}

#[test]
fn cybermark_bad_numbers_read_as_zero() {
    let s = parse_cybermark("---\nheight: x12\nsignals: 18446744073709551616\nparticles: +4\n---").expect("status");
    assert_eq!(s.latest_height, 0);
    assert_eq!(s.signals, 0);
    assert_eq!(s.particles, 4);
}

#[test]
fn cybermark_without_known_keys_is_none() {
    assert!(parse_cybermark("---\nfoo: bar\nno colon here\n---").is_none());
    assert!(parse_cybermark("chain: x").is_none());
    assert!(parse_cybermark("").is_none());
}

#[test]
fn cybermark_value_split_at_first_colon() {
    let s = parse_cybermark("---\nengine: a:b\n").expect("status");
    assert_eq!(s.engine, "a:b");
    assert!(!s.catching_up);
}

#[test]
fn legacy_json_reads_known_fields() {
    let body = r#" {"network":"spacepussy-test","moniker": "old-node","protocol":"cyber 0.6","latest_block_height": 1234 ,"bbg_root":"ff00","signals":2,"particles":3,"axons":4,"catching_up":true}"#;
    let s = parse_legacy_json(body).expect("status");
    assert_eq!(s.chain_id, "spacepussy-test");
    assert_eq!(s.moniker, "old-node");
    assert_eq!(s.engine, "cyber 0.6");
    assert_eq!(s.latest_height, 1234);
    assert_eq!(s.bbg_root, "ff00");
    assert_eq!(s.signals, 2);
    assert_eq!(s.particles, 3);
    assert_eq!(s.axons, 4);
    assert!(s.catching_up);
}

#[test]
fn legacy_json_defaults() {
    let s = parse_legacy_json("{}").expect("status");
    assert_eq!(s.chain_id, "spacepussy-test");
    assert_eq!(s.moniker, "");
    assert_eq!(s.engine, "");
    assert_eq!(s.latest_height, 0);
    assert!(!s.catching_up);
}

#[test]
fn legacy_json_engine_preferred_over_protocol() {
    let s = parse_legacy_json(r#"{"protocol":"p","engine":"e"}"#).expect("status");
    assert_eq!(s.engine, "e");
}

#[test]
fn legacy_json_bare_value_stops_at_punctuation() {
    let s = parse_legacy_json(r#"{"moniker": node-1.2, "catching_up": "true"}"#).expect("status");
    assert_eq!(s.moniker, "node");
    assert!(s.catching_up);
}

#[test]
fn legacy_json_unterminated_string_is_missing() {
    let s = parse_legacy_json(r#"{"moniker":"abc"#).expect("status");
    assert_eq!(s.moniker, "");
}

#[test]
fn legacy_json_requires_brace() {
    assert!(parse_legacy_json("not json").is_none());
    assert!(parse_legacy_json("").is_none());
}

#[test]
fn parse_status_dispatches_on_fence() {
    let s = parse_status("  \n---\nchain: c\n---").expect("status");
    assert_eq!(s.chain_id, "c");
    let j = parse_status("{\"network\":\"n\"}").expect("status");
    assert_eq!(j.chain_id, "n");
    assert!(parse_status("hello").is_none());
}

#[test]
fn empty_status_is_blank() {
    let s = Status::empty();
    assert_eq!(s.chain_id, "");
    assert_eq!(s.signals, 0);
    assert!(!s.catching_up);
}

#[test]
fn status_url_appends_path() {
    assert_eq!(status_url("https://x"), "https://x/status");
}

#[test]
fn probe_passes_transport_errors_on() {
    match probe("https://x", Err("timeout".to_string())) {
        Err(e) => assert_eq!(e, "timeout"),
        Ok(_) => panic!("expected an error"),
    }
}

#[test]
fn probe_rejects_server_errors() {
    match probe("https://x", Ok((503, "---\nchain: c\n---".to_string()))) {
        Err(e) => assert_eq!(e, "http 503 from https://x/status"),
        Ok(_) => panic!("expected an error"),
    }
}

#[test]
fn probe_reports_unparsed_status() {
    match probe("https://x", Ok((200, "<html>".to_string()))) {
        Err(e) => assert_eq!(e, "unparsed status from https://x/status"),
        Ok(_) => panic!("expected an error"),
    }
}

#[test]
fn probe_reads_status_on_success_and_client_errors() {
    let s = probe("https://x", Ok((404, "---\nmoniker: m\n---".to_string()))).expect("status");
    assert_eq!(s.moniker, "m");
}
