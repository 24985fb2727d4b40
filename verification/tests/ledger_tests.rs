use ledger_tui::ledger::Ledger;

#[test]
fn totals_aggregates_per_recipient() {
    let mut ledger = Ledger::new();
    ledger.add_entry("Alice", 1000);
    ledger.add_entry("Bob", -100);
    ledger.add_entry("Alice", 50);
    let totals = ledger.totals();
    assert_eq!(totals.len(), 2);
    assert_eq!(totals[0].0.as_str(), "Alice");
    assert_eq!(totals[0].1, 1050);
    assert_eq!(totals[1].0.as_str(), "Bob");
    assert_eq!(totals[1].1, -100);
}

#[test]
fn totals_are_order_independent_as_a_mapping() {
    let mut first = Ledger::new();
    first.add_entry("Alice", 1000);
    first.add_entry("Bob", -100);
    first.add_entry("Alice", 50);
    let mut second = Ledger::new();
    second.add_entry("Bob", -100);
    second.add_entry("Alice", 50);
    second.add_entry("Alice", 1000);
    let mut a: Vec<(String, i64)> = first.totals();
    let mut b: Vec<(String, i64)> = second.totals();
    a.sort();
    b.sort();
    assert_eq!(a, b);
    assert_eq!(a, vec![("Alice".to_string(), 1050), ("Bob".to_string(), -100)]);
}

#[test]
fn totals_of_empty_ledger_is_empty() {
    let ledger = Ledger::new();
    assert_eq!(ledger.totals().len(), 0);
    assert_eq!(ledger.len(), 0);
}

#[test]
fn total_sums_one_recipient() {
    let mut ledger = Ledger::new();
    ledger.add_entry("Alice", 7);
    ledger.add_entry("Bob", 100);
    ledger.add_entry("Alice", -3);
    assert_eq!(ledger.total("Alice"), 4);
    assert_eq!(ledger.total("Bob"), 100);
    assert_eq!(ledger.total("Carol"), 0);
}

#[test]
fn entries_snapshot_matches_ledger() {
    let mut ledger = Ledger::new();
    ledger.add_entry("Alice", 1);
    ledger.add_entry("Bob", 2);
    let entries = ledger.entries();
    assert_eq!(entries.len(), 2);
    assert_eq!(entries[0].name(), "Alice");
    assert_eq!(entries[0].amount(), 1);
    assert_eq!(entries[1].name(), "Bob");
    assert_eq!(entries[1].amount(), 2);
}

#[test]
fn ledger_equality_is_by_record_identity() {
    let mut a = Ledger::new();
    a.add_entry("Alice", 1);
    let b = {
        let mut b = Ledger::new();
        for rec in a.entries() {
            b.add_record(rec);
        }
        b
    };
    assert!(a == b);
    let mut c = Ledger::new();
    c.add_entry("Alice", 1);
    // A fresh record gets a fresh identifier, so the ledgers differ.
    assert!(a != c);
}

#[test]
fn record_equality_is_by_identifier() {
    let rec = ledger_tui::record::Record::from_parts(42, "Alice", 5, 0);
    let same_id = ledger_tui::record::Record::from_parts(42, "Bob", -9, 100);
    let other_id = ledger_tui::record::Record::from_parts(43, "Alice", 5, 0);
    assert!(rec == same_id);
    assert!(rec != other_id);
    assert_eq!(rec.id(), 42);
    assert_eq!(rec.name(), "Alice");
    assert_eq!(rec.amount(), 5);
    assert_eq!(rec.time(), 0);
    let copy = rec.duplicate();
    assert!(copy == rec);
    assert_eq!(copy.name(), "Alice");
}

#[test]
fn totals_order_is_stable_across_calls() {
    let mut ledger = Ledger::new();
    ledger.add_entry("Alice", 1);
    ledger.add_entry("Bob", 2);
    ledger.add_entry("Alice", 3);
    assert_eq!(ledger.totals(), ledger.totals());
}
