use log_sender::client::{
    build_metrics_request, build_metrics_sig_payload, build_registration_request,
    build_registration_sig_payload, check_health_status, check_metrics_response,
    check_registration_response,
};
use log_sender::error::Error;

#[test]
fn registration_sig_payload_is_canonical() {
    let payload = build_registration_sig_payload("PK", "UK", 123);
    assert_eq!(payload, "{\"dronePubKey\":\"PK\",\"unytPubKey\":\"UK\",\"timestamp\":123}");
}

#[test]
fn registration_request_is_canonical() {
    let body = build_registration_request("PK", "UK", "SIG", 9);
    assert_eq!(
        body,
        "{\"dronePubKey\":\"PK\",\"unytPubKey\":\"UK\",\"droneSignature\":\"SIG\",\
         \"signatureTimestamp\":9}"
    );
}

#[test]
fn metrics_sig_payload_is_canonical() {
    let proofs = vec!["{\"k\":\"fetchedOps\",\"t\":\"7\"}".to_string()];
    let payload = build_metrics_sig_payload("DPK", "UPK", "SPK", &proofs, 55);
    assert_eq!(
        payload,
        "{\"dronePubKey\":\"DPK\",\"metrics\":[{\"value\":0,\"timestamp\":55,\
         \"registered_unit_index\":0,\"proof\":\"{\\\"k\\\":\\\"fetchedOps\\\",\\\"t\\\":\\\"7\\\"}\"}],\
         \"signingPubKey\":\"SPK\",\"timestamp\":55,\"unytPubKey\":\"UPK\"}"
    );
}

#[test]
fn metrics_request_is_canonical() {
    let proofs = vec!["p1".to_string(), "p2".to_string()];
    let body = build_metrics_request("DPK", "UPK", "SPK", &proofs, "SIG", 5);
    assert_eq!(
        body,
        "{\"signingPubKey\":\"SPK\",\"dronePubKey\":\"DPK\",\"unytPubKey\":\"UPK\",\
         \"metrics\":[{\"value\":0,\"timestamp\":5,\"registered_unit_index\":0,\"proof\":\"p1\"},\
         {\"value\":0,\"timestamp\":5,\"registered_unit_index\":0,\"proof\":\"p2\"}],\
         \"signature\":\"SIG\",\"timestamp\":5}"
    );
    // the body stays plain JSON with the proofs carried verbatim
    let v: serde_json::Value = serde_json::from_str(&body).unwrap();
    assert_eq!(v["metrics"][1]["proof"], "p2");
    assert_eq!(v["metrics"][0]["value"], 0);
}

#[test]
fn empty_metrics_array() {
    let proofs: Vec<String> = Vec::new();
    let body = build_metrics_request("D", "U", "S", &proofs, "G", 1);
    assert_eq!(
        body,
        "{\"signingPubKey\":\"S\",\"dronePubKey\":\"D\",\"unytPubKey\":\"U\",\"metrics\":[],\
         \"signature\":\"G\",\"timestamp\":1}"
    );
}

#[test]
fn health_status_check() {
    assert!(check_health_status("healthy").is_ok());
    match check_health_status("sick") {
        Err(Error::Protocol(msg)) => assert!(msg.contains("sick")),
        _ => panic!("a bad status must be a protocol error"),
    }
}

#[test]
fn registration_response_check() {
    assert_eq!(check_registration_response(true, 17).unwrap(), 17);
    match check_registration_response(false, 17) {
        Err(Error::Protocol(_)) => {},
        _ => panic!("an unsuccessful registration must be a protocol error"),
    }
}

#[test]
fn metrics_response_check() {
    assert!(check_metrics_response(true).is_ok());
    match check_metrics_response(false) {
        Err(Error::Protocol(_)) => {},
        _ => panic!("an unsuccessful submission must be a protocol error"),
    }
}
