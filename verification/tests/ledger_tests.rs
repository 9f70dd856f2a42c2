use domain_health::ledger::{
    contains_text, domain_expired, get_domains_past_threshold, remove_domains_from_table,
    remove_good_domains_from_table, FailureLedger, FailureRecord,
};

fn row(url: &str, fails: i64, epoch: i64) -> FailureRecord {
    FailureRecord { url: url.to_string(), fails, epoch }
}

fn rows_of(ledger: &FailureLedger) -> Vec<(String, i64, i64)> {
    ledger.records().into_iter().map(|r| (r.url, r.fails, r.epoch)).collect()
}

#[test]
fn test_complete_workflow() {
    let mut conn = FailureLedger::new();
    let url1 = "https://example.com".to_string();
    let url2 = "https://frequen-fai.com".to_string();
    let epoch1 = 1000;
    let epoch2 = 2000;

    domain_expired(&mut conn, &url1, epoch1);
    domain_expired(&mut conn, &url2, epoch1);
    domain_expired(&mut conn, &url2, epoch1);

    let domains_1_fail = get_domains_past_threshold(&conn, 1);
    assert_eq!(domains_1_fail.len(), 2);
    assert!(domains_1_fail.contains(&url1));
    assert!(domains_1_fail.contains(&url2));

    let domains_3_fails = get_domains_past_threshold(&conn, 2);
    assert_eq!(domains_3_fails.len(), 1);
    assert_eq!(domains_3_fails[0], url2);

    domain_expired(&mut conn, &url2, epoch2);

    remove_good_domains_from_table(&mut conn, epoch2);

    assert_eq!(get_domains_past_threshold(&conn, 1).len(), 1);
    assert_eq!(get_domains_past_threshold(&conn, 3).len(), 1);

    remove_domains_from_table(&mut conn, vec![url2]);
    let final_domains = get_domains_past_threshold(&conn, 0);
    assert_eq!(final_domains.len(), 0);
}

#[test]
fn first_failure_creates_a_row_with_count_one() {
    let mut ledger = FailureLedger::new();
    domain_expired(&mut ledger, &"a.example".to_string(), 7);
    assert_eq!(rows_of(&ledger), vec![("a.example".to_string(), 1, 7)]);
}

#[test]
fn consecutive_failures_are_counted() {
    let mut ledger = FailureLedger::new();
    let url = "wiki.example.org".to_string();
    for (k, epoch) in [10i64, 11, 12, 13, 14].iter().enumerate() {
        domain_expired(&mut ledger, &url, *epoch);
        remove_good_domains_from_table(&mut ledger, *epoch);
        assert_eq!(rows_of(&ledger), vec![(url.clone(), k as i64 + 1, *epoch)]);
    }
}

#[test]
fn recording_leaves_other_rows_alone() {
    let mut ledger = FailureLedger::from_records(vec![row("a", 2, 5), row("b", 4, 5)]).unwrap();
    domain_expired(&mut ledger, &"b".to_string(), 6);
    assert_eq!(
        rows_of(&ledger),
        vec![("a".to_string(), 2, 5), ("b".to_string(), 5, 6)]
    );
}

#[test]
fn count_stays_at_the_largest_value() {
    let mut ledger = FailureLedger::from_records(vec![row("a", i64::MAX, 1)]).unwrap();
    domain_expired(&mut ledger, &"a".to_string(), 2);
    assert_eq!(rows_of(&ledger), vec![("a".to_string(), i64::MAX, 2)]);
}

#[test]
fn prune_keeps_exactly_the_rows_of_the_run() {
    let mut ledger = FailureLedger::from_records(vec![
        row("a", 1, 1),
        row("b", 2, 2),
        row("c", 3, 1),
        row("d", 4, 3),
        row("e", 5, 2),
    ])
    .unwrap();
    remove_good_domains_from_table(&mut ledger, 2);
    assert_eq!(
        rows_of(&ledger),
        vec![("b".to_string(), 2, 2), ("e".to_string(), 5, 2)]
    );
    remove_good_domains_from_table(&mut ledger, 2);
    assert_eq!(ledger.len(), 2);
    remove_good_domains_from_table(&mut ledger, 9);
    assert_eq!(ledger.len(), 0);
}

#[test]
fn threshold_query_is_exact_and_monotonic() {
    let ledger = FailureLedger::from_records(vec![
        row("a", 1, 1),
        row("b", 3, 1),
        row("c", 2, 1),
        row("d", 5, 1),
    ])
    .unwrap();
    assert_eq!(get_domains_past_threshold(&ledger, 0), vec!["a", "b", "c", "d"]);
    assert_eq!(get_domains_past_threshold(&ledger, 2), vec!["b", "c", "d"]);
    assert_eq!(get_domains_past_threshold(&ledger, 3), vec!["b", "d"]);
    assert_eq!(get_domains_past_threshold(&ledger, 4), vec!["d"]);
    assert_eq!(get_domains_past_threshold(&ledger, 6), Vec::<String>::new());
    assert_eq!(get_domains_past_threshold(&ledger, -4), vec!["a", "b", "c", "d"]);
    for t in 0..7 {
        let lower = get_domains_past_threshold(&ledger, t);
        for d in get_domains_past_threshold(&ledger, t + 1) {
            assert!(lower.contains(&d));
        }
    }
}

#[test]
fn delete_removes_only_the_named_rows() {
    let mut ledger =
        FailureLedger::from_records(vec![row("a", 1, 1), row("b", 3, 1), row("c", 2, 1)]).unwrap();
    remove_domains_from_table(&mut ledger, vec!["b".to_string(), "zzz".to_string()]);
    assert_eq!(
        rows_of(&ledger),
        vec![("a".to_string(), 1, 1), ("c".to_string(), 2, 1)]
    );
    remove_domains_from_table(&mut ledger, vec![]);
    assert_eq!(ledger.len(), 2);
}

#[test]
fn restore_refuses_rows_that_break_the_invariant() {
    assert!(FailureLedger::from_records(vec![row("a", 1, 1), row("a", 2, 1)]).is_none());
    assert!(FailureLedger::from_records(vec![row("a", -1, 1)]).is_none());
    assert!(FailureLedger::from_records(vec![]).is_some());
    let ledger = FailureLedger::from_records(vec![row("a", 0, -3), row("b", 2, 1)]).unwrap();
    assert_eq!(ledger.find(&"b".to_string()), Some(1));
    assert_eq!(ledger.find(&"c".to_string()), None);
}

#[test]
fn contains_text_finds_whole_names_only() {
    let names = vec!["a.example".to_string(), "b.example".to_string()];
    assert!(contains_text(&names, &"b.example".to_string()));
    assert!(!contains_text(&names, &"example".to_string()));
    assert!(!contains_text(&vec![], &"a".to_string()));
}
