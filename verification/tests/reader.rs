use log_sender::error::Error;
use log_sender::reader::read_reports;

fn lines(v: &[&str]) -> Vec<String> {
    v.iter().map(|s| s.to_string()).collect()
}

#[test]
fn one_eligible_line_one_batch() {
    let input = lines(&[
        "{\"k\":\"fetchedOps\",\"t\":\"100\"}",
        "{\"k\":\"fetchedOps\",\"t\":\"50\"}",
        "{\"k\":\"other\",\"t\":\"999\"}",
    ]);
    let out = read_reports(&input, "60").unwrap();
    assert_eq!(out.batches.len(), 1);
    assert_eq!(out.batches[0], vec!["{\"k\":\"fetchedOps\",\"t\":\"100\"}".to_string()]);
    assert_eq!(out.new_watermark, "100");
}

#[test]
fn high_watermark_keeps_everything_out() {
    let input = lines(&[
        "{\"k\":\"fetchedOps\",\"t\":\"100\"}",
        "{\"k\":\"fetchedOps\",\"t\":\"50\"}",
        "{\"k\":\"other\",\"t\":\"999\"}",
    ]);
    let out = read_reports(&input, "200").unwrap();
    assert_eq!(out.batches.len(), 0);
    assert_eq!(out.new_watermark, "200");
}

#[test]
fn batches_of_one_hundred() {
    let mut input = Vec::new();
    for i in 0..250u64 {
        input.push(format!("{{\"k\":\"fetchedOps\",\"t\":\"{}\"}}", 1000 + i));
    }
    let out = read_reports(&input, "999").unwrap();
    assert_eq!(out.batches.len(), 3);
    assert_eq!(out.batches[0].len(), 100);
    assert_eq!(out.batches[1].len(), 100);
    assert_eq!(out.batches[2].len(), 50);
    let flattened: Vec<String> = out.batches.iter().flatten().cloned().collect();
    assert_eq!(flattened, input);
    assert_eq!(out.new_watermark, "1249");
}

#[test]
fn filtered_lines_reach_no_batch() {
    let input = lines(&[
        "{\"t\":\"500\"}",
        "{\"k\":\"other\",\"t\":\"500\"}",
        "{\"k\":\"fetchedOps\",\"t\":\"oops\"}",
        "{\"k\":\"fetchedOps\",\"t\":\"60\"}",
        "not json at all",
        "{\"k\":\"fetchedOps\",\"t\":\"61\"}",
    ]);
    let out = read_reports(&input, "60").unwrap();
    assert_eq!(out.batches.len(), 1);
    assert_eq!(out.batches[0], vec!["{\"k\":\"fetchedOps\",\"t\":\"61\"}".to_string()]);
    assert_eq!(out.new_watermark, "61");
}

#[test]
fn two_passes_agree() {
    let input = lines(&[
        "{\"k\":\"fetchedOps\",\"t\":\"70\"}",
        "{\"k\":\"fetchedOps\",\"t\":\"90\"}",
        "{\"k\":\"fetchedOps\",\"t\":\"80\"}",
    ]);
    let first = read_reports(&input, "60").unwrap();
    let second = read_reports(&input, "60").unwrap();
    assert_eq!(first.batches, second.batches);
    assert_eq!(first.new_watermark, second.new_watermark);
    assert_eq!(first.new_watermark, "90");
}

#[test]
fn watermark_never_regresses() {
    let input = lines(&["{\"k\":\"fetchedOps\",\"t\":\"5\"}"]);
    let out = read_reports(&input, "60").unwrap();
    let before: u64 = "60".parse().unwrap();
    let after: u64 = out.new_watermark.parse().unwrap();
    assert!(after >= before);
    let empty: Vec<String> = Vec::new();
    let out2 = read_reports(&empty, "60").unwrap();
    assert_eq!(out2.new_watermark, "60");
}

#[test]
fn bad_watermark_is_corrupt() {
    let input = lines(&["{\"k\":\"fetchedOps\",\"t\":\"100\"}"]);
    match read_reports(&input, "sixty") {
        Err(Error::Corrupt(_)) => {},
        other => panic!("expected a corrupt-watermark error, got {:?}", other.map(|o| o.new_watermark)),
    }
}

#[test]
fn plus_prefixed_timestamps_parse() {
    let input = lines(&["{\"k\":\"fetchedOps\",\"t\":\"+100\"}"]);
    let out = read_reports(&input, "60").unwrap();
    assert_eq!(out.batches.len(), 1);
    assert_eq!(out.new_watermark, "100");
}

#[test]
fn escaped_json_lines_are_carried_verbatim() {
    let line = "{\"k\":\"fetchedOps\",\"t\":\"100\",\"note\":\"quote \\\" and tab \\t\"}";
    let input = vec![line.to_string()];
    let out = read_reports(&input, "0").unwrap();
    assert_eq!(out.batches, vec![vec![line.to_string()]]);
    assert_eq!(out.new_watermark, "100");
}

#[test]
fn tag_must_match_exactly() {
    let input = lines(&[
        "{\"k\":\"fetchedops\",\"t\":\"100\"}",
        "{\"k\":\"fetchedOps \",\"t\":\"100\"}",
        "{\"k\":42,\"t\":\"100\"}",
    ]);
    let out = read_reports(&input, "0").unwrap();
    assert_eq!(out.batches.len(), 0);
    assert_eq!(out.new_watermark, "0");
}
