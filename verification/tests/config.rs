use log_sender::config::{encode_runtime_config, parse_runtime_config, RuntimeConfig};

fn sample() -> RuntimeConfig {
    RuntimeConfig::with_init(
        "http://127.0.0.1:8787".to_string(),
        "PUBKEY".to_string(),
        "SECKEY".to_string(),
        "bla".to_string(),
        42,
        60,
        vec!["/var/log/reports".to_string(), "/tmp/more".to_string()],
        vec!["conductor-config.yaml".to_string()],
    )
}

fn assert_same(a: &RuntimeConfig, b: &RuntimeConfig) {
    assert_eq!(a.endpoint, b.endpoint);
    assert_eq!(a.drone_pub_key, b.drone_pub_key);
    assert_eq!(a.drone_sec_key, b.drone_sec_key);
    assert_eq!(a.unyt_pub_key, b.unyt_pub_key);
    assert_eq!(a.drone_id, b.drone_id);
    assert_eq!(a.report_interval_seconds, b.report_interval_seconds);
    assert_eq!(a.last_record_timestamp, b.last_record_timestamp);
    assert_eq!(a.report_path_list, b.report_path_list);
    assert_eq!(a.conductor_config_path_list, b.conductor_config_path_list);
}

#[test]
fn init_sets_zero_watermark() {
    let c = sample();
    assert_eq!(c.last_record_timestamp, "0");
    assert_eq!(c.drone_id, 42);
    assert_eq!(c.report_interval_seconds, 60);
}

#[test]
fn encode_then_parse_is_identity() {
    let c = sample();
    let text = encode_runtime_config(&c);
    let back = parse_runtime_config(&text).expect("canonical text must parse");
    assert_same(&c, &back);
}

#[test]
fn encode_is_canonical_json() {
    let mut c = sample();
    c.report_path_list = vec!["/a".to_string()];
    c.conductor_config_path_list = Vec::new();
    let text = encode_runtime_config(&c);
    assert_eq!(
        text,
        "{\"endpoint\":\"http://127.0.0.1:8787\",\"dronePubKey\":\"PUBKEY\",\
         \"droneSecKey\":\"SECKEY\",\"unytPubKey\":\"bla\",\"droneId\":42,\
         \"reportIntervalSeconds\":60,\"lastRecordTimestamp\":\"0\",\
         \"reportPathList\":[\"/a\"],\"conductorConfigPathList\":[]}"
    );
    // serde-compatible: a permissive JSON parser reads the same record back
    let v: serde_json::Value = serde_json::from_str(&text).unwrap();
    assert_eq!(v["endpoint"], "http://127.0.0.1:8787");
    assert_eq!(v["droneId"], 42);
    assert_eq!(v["reportPathList"][0], "/a");
}

#[test]
fn escaped_characters_round_trip() {
    let mut c = sample();
    c.endpoint = "quote \" backslash \\ newline \n tab \t done".to_string();
    c.unyt_pub_key = "unicode \u{00e9}\u{4e16} and control \u{0001}".to_string();
    c.report_path_list = vec!["dir with \"quotes\"".to_string(), String::new()];
    let text = encode_runtime_config(&c);
    let back = parse_runtime_config(&text).expect("escaped text must parse");
    assert_same(&c, &back);
    // still plain JSON for any other reader
    let v: serde_json::Value = serde_json::from_str(&text).unwrap();
    assert_eq!(v["endpoint"], c.endpoint.as_str());
    assert_eq!(v["unytPubKey"], c.unyt_pub_key.as_str());
}

#[test]
fn malformed_text_is_rejected() {
    assert!(parse_runtime_config("").is_none());
    assert!(parse_runtime_config("{}").is_none());
    let c = sample();
    let text = encode_runtime_config(&c);
    let truncated = &text[..text.len() - 1];
    assert!(parse_runtime_config(truncated).is_none());
    let mut with_junk = text.clone();
    with_junk.push(' ');
    assert!(parse_runtime_config(&with_junk).is_none());
}

#[test]
fn watermark_mutation_round_trips() {
    let mut c = sample();
    c.set_watermark("12345".to_string());
    c.set_drone_id(7);
    let back = parse_runtime_config(&encode_runtime_config(&c)).unwrap();
    assert_eq!(back.last_record_timestamp, "12345");
    assert_eq!(back.drone_id, 7);
    assert_eq!(back.endpoint, c.endpoint);
}

#[test]
fn escaping_matches_a_json_serializer_byte_for_byte() {
    let mut c = sample();
    c.endpoint =
        "q\" b\\ bs\u{8} tab\t nl\n ff\u{c} cr\r other\u{1}\u{1f} end".to_string();
    let text = encode_runtime_config(&c);
    // the signed wire bytes must match what a serde-style serializer emits
    let serde_form = serde_json::to_string(&c.endpoint).unwrap();
    assert!(text.contains(&serde_form), "crate: {text}\nserde: {serde_form}");
    let back = parse_runtime_config(&text).unwrap();
    assert_eq!(back.endpoint, c.endpoint);
}
