use log_sender::db_size::{aggregate_sizes, build_db_size_report, db_space_name_of};
use log_sender::service::{decide_cycle, CycleAction};
use log_sender::error::Error;

#[test]
fn journal_suffixes_are_trimmed() {
    assert_eq!(db_space_name_of("dht.sqlite3"), "dht.sqlite3");
    assert_eq!(db_space_name_of("dht.sqlite3-shm"), "dht.sqlite3");
    assert_eq!(db_space_name_of("dht.sqlite3-wal"), "dht.sqlite3");
    assert_eq!(db_space_name_of("x-wal-shm"), "x");
    assert_eq!(db_space_name_of("x-shm-shm"), "x");
    assert_eq!(db_space_name_of(""), "");
}

#[test]
fn sizes_aggregate_per_database() {
    let entries = vec![
        ("dht.sqlite3".to_string(), 100u64),
        ("dht.sqlite3-shm".to_string(), 10),
        ("other.sqlite3".to_string(), 7),
        ("dht.sqlite3-wal".to_string(), 5),
    ];
    let agg = aggregate_sizes(&entries);
    assert_eq!(
        agg,
        vec![("dht.sqlite3".to_string(), 115u64), ("other.sqlite3".to_string(), 7)]
    );
}

#[test]
fn oversized_totals_saturate() {
    let entries = vec![
        ("big".to_string(), u64::MAX - 1),
        ("big".to_string(), 5),
    ];
    let agg = aggregate_sizes(&entries);
    assert_eq!(agg, vec![("big".to_string(), u64::MAX)]);
}

#[test]
fn report_lines_have_the_wire_shape() {
    let entries = vec![("dht.sqlite3-wal".to_string(), 42u64)];
    let lines = build_db_size_report(&entries, 1700000000000000);
    assert_eq!(
        lines,
        vec![
            "{\"k\":\"dbSize\",\"t\":\"1700000000000000\",\"d\":\"dht.sqlite3\",\"b\":\"42\"}"
                .to_string()
        ]
    );
    let v: serde_json::Value = serde_json::from_str(&lines[0]).unwrap();
    assert_eq!(v["k"], "dbSize");
    assert_eq!(v["b"], "42");
}

#[test]
fn cycle_decisions_follow_the_outcome() {
    match decide_cycle(Ok("123".to_string())) {
        CycleAction::Persist(w) => assert_eq!(w, "123"),
        _ => panic!("a successful pass must persist its watermark"),
    }
    match decide_cycle(Err(Error::NothingToDo)) {
        CycleAction::Continue => {},
        _ => panic!("the empty outcome must stay silent"),
    }
    match decide_cycle(Err(Error::Io("disk gone".to_string()))) {
        CycleAction::Report(Error::Io(m)) => assert_eq!(m, "disk gone"),
        _ => panic!("a real failure must be surfaced"),
    }
}
