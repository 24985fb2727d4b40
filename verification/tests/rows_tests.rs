use ledger_tui::record::Record;
use ledger_tui::rows::{build_record, build_total_item};

#[test]
fn total_row_has_fixed_fields() {
    let row = build_total_item(&("Alice".to_string(), 1050i64), 80);
    assert_eq!(row, format!("{:<30}: {:>10}/-", "Alice", 1050));
    assert_eq!(row, "Alice                         :       1050/-");
}

#[test]
fn total_row_handles_negative_amounts_and_long_names() {
    let row = build_total_item(&("Bob".to_string(), -100i64), 80);
    assert_eq!(row, format!("{:<30}: {:>10}/-", "Bob", -100));
    let long = "a recipient with a rather long name";
    let row = build_total_item(&(long.to_string(), 3i64), 80);
    assert_eq!(row, format!("{}: {:>10}/-", long, 3));
}

#[test]
fn record_row_spaces_the_timestamp_to_the_width() {
    let rec = Record::from_parts(1, "Bob", -5, 0);
    let row = build_record(&rec, 100);
    let time = "1970-01-01 00:00:00 UTC";
    let gap = 100 - 46 - time.len();
    assert_eq!(
        row,
        format!("{:<30}{}{:>10}/-  {}", "Bob", " ".repeat(gap), -5, time)
    );
}

#[test]
fn record_row_survives_a_narrow_width() {
    let rec = Record::from_parts(1, "Bob", 12345, 0);
    let row = build_record(&rec, 10);
    assert_eq!(
        row,
        format!("{:<30}{:>10}/-  {}", "Bob", 12345, "1970-01-01 00:00:00 UTC")
    );
}
