use lunch_poll::member::Member;
use lunch_poll::score::{Metric, ScoreLedger, ScoreRecord};

#[test]
fn ledger_round_trip() {
    let mut ledger = ScoreLedger::new();
    ledger.bump(1, &Member::new(10, "a".to_string()), Metric::CallsMade);
    ledger.bump(2, &Member::new(10, "a".to_string()), Metric::Slowest);
    ledger.bump(1, &Member::new(11, "b".to_string()), Metric::OutOfTime);
    let saved: Vec<ScoreRecord> = ledger.records().clone();
    assert_eq!(saved.len(), 3);
    let loaded = ScoreLedger::from_records(saved).unwrap();
    let rec = loaded.get(1, 10).unwrap();
    assert_eq!(rec.calls_made, 1);
    assert_eq!(rec.slowest_answering, 0);
    assert_eq!(loaded.get(2, 10).unwrap().slowest_answering, 1);
    assert_eq!(loaded.get(1, 11).unwrap().out_of_time, 1);
    assert!(loaded.get(2, 11).is_none());
}

#[test]
fn ledger_rejects_duplicate_keys() {
    let a = ScoreRecord::fresh(1, 10, "a".to_string());
    let b = ScoreRecord::fresh(1, 10, "b".to_string());
    let c = ScoreRecord::fresh(1, 11, "c".to_string());
    assert!(ScoreLedger::from_records(vec![a.clone(), c.clone(), b]).is_none());
    assert!(ScoreLedger::from_records(vec![a, c]).is_some());
}

#[test]
fn counter_saturates() {
    let mut rec = ScoreRecord::fresh(1, 10, "a".to_string());
    rec.xl_dishes = u64::MAX;
    let mut ledger = ScoreLedger::from_records(vec![rec]).unwrap();
    ledger.bump(1, &Member::new(10, "a".to_string()), Metric::XlDishes);
    assert_eq!(ledger.get(1, 10).unwrap().xl_dishes, u64::MAX);
}

#[test]
fn each_metric_reads_its_counter() {
    let metrics = [
        Metric::PollsMade,
        Metric::CallsMade,
        Metric::XlDishes,
        Metric::Fastest,
        Metric::Slowest,
        Metric::Retracts,
        Metric::OutOfTime,
        Metric::Tuppers,
    ];
    let m = Member::new(3, "c".to_string());
    let mut ledger = ScoreLedger::new();
    for (i, metric) in metrics.iter().enumerate() {
        for _ in 0..=i {
            ledger.bump(5, &m, *metric);
        }
    }
    let rec = ledger.get(5, 3).unwrap();
    for (i, metric) in metrics.iter().enumerate() {
        assert_eq!(rec.count(*metric), i as u64 + 1);
    }
}
