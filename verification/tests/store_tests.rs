use ledger_tui::ledger::Ledger;
use ledger_tui::record::Record;
use ledger_tui::store::{parse_ledger, render_ledger, LoadError};

const HEADER: &str = "transaction_id,recipient,transaction_amount,transaction_time\n";

fn to_string(text: Vec<char>) -> String {
    text.into_iter().collect()
}

fn to_chars(text: &str) -> Vec<char> {
    text.chars().collect()
}

#[test]
fn test_ledger_write_path() {
    let mut ledger = Ledger::new();
    ledger.add_entry("Alice", 1000);
    ledger.add_entry("Bob", -100);
    let text = render_ledger(&ledger);
    let (new_ledger, skipped) = parse_ledger(&text).unwrap();
    assert_eq!(skipped, 0);
    assert!(ledger == new_ledger);
}

#[test]
fn round_trip_for_several_sizes() {
    for k in [0usize, 1, 50] {
        let mut ledger = Ledger::new();
        for i in 0..k {
            ledger.add_entry(&format!("name{}", i), (i as i32) * 7 - 3);
        }
        let text = render_ledger(&ledger);
        let (back, skipped) = parse_ledger(&text).unwrap();
        assert_eq!(skipped, 0);
        assert!(ledger == back);
        assert_eq!(back.len(), k);
    }
}

#[test]
fn round_trip_keeps_awkward_names_and_extremes() {
    let mut ledger = Ledger::new();
    let name = "Doe, John \"JD\"\nsecond line";
    ledger.add_record(Record::from_parts(7, name, i32::MIN, 0));
    ledger.add_record(Record::from_parts(8, "plain", i32::MAX, 253_402_300_799));
    let text = render_ledger(&ledger);
    let (back, skipped) = parse_ledger(&text).unwrap();
    assert_eq!(skipped, 0);
    let entries = back.entries();
    assert_eq!(entries.len(), 2);
    assert_eq!(entries[0].id(), 7);
    assert_eq!(entries[0].name(), name);
    assert_eq!(entries[0].amount(), i32::MIN);
    assert_eq!(entries[0].time(), 0);
    assert_eq!(entries[1].id(), 8);
    assert_eq!(entries[1].amount(), i32::MAX);
    assert_eq!(entries[1].time(), 253_402_300_799);
}

#[test]
fn rendered_text_has_canonical_field_forms() {
    let mut ledger = Ledger::new();
    ledger.add_record(Record::from_parts(
        0x550e_8400_e29b_41d4_a716_4466_5544_0000u128,
        "Alice",
        25,
        10,
    ));
    let text = to_string(render_ledger(&ledger));
    assert_eq!(
        text,
        format!(
            "{}550e8400-e29b-41d4-a716-446655440000,\"Alice\",25,1970-01-01T00:00:10Z\n",
            HEADER
        )
    );
}

#[test]
fn parse_reads_a_handwritten_row() {
    let text = format!(
        "{}550e8400-e29b-41d4-a716-446655440000,\"Bob\",-42,1999-12-31T23:59:59Z\n",
        HEADER
    );
    let (ledger, skipped) = parse_ledger(&to_chars(&text)).unwrap();
    assert_eq!(skipped, 0);
    let entries = ledger.entries();
    assert_eq!(entries.len(), 1);
    assert_eq!(entries[0].id(), 0x550e_8400_e29b_41d4_a716_4466_5544_0000u128);
    assert_eq!(entries[0].name(), "Bob");
    assert_eq!(entries[0].amount(), -42);
    assert_eq!(entries[0].time(), 946_684_799);
}

#[test]
fn parse_accepts_an_unquoted_recipient() {
    let text = format!(
        "{}550e8400-e29b-41d4-a716-446655440000,Carol,5,1970-01-01T00:00:00Z\n",
        HEADER
    );
    let (ledger, skipped) = parse_ledger(&to_chars(&text)).unwrap();
    assert_eq!(skipped, 0);
    let entries = ledger.entries();
    assert_eq!(entries.len(), 1);
    assert_eq!(entries[0].name(), "Carol");
}

#[test]
fn bad_header_is_fatal() {
    let r = parse_ledger(&to_chars("id,name,amount,time\nwhatever\n"));
    assert!(matches!(r, Err(LoadError::BadHeader)));
    let r = parse_ledger(&to_chars("tra"));
    assert!(matches!(r, Err(LoadError::BadHeader)));
}

#[test]
fn malformed_rows_are_dropped_and_counted() {
    let text = format!(
        "{}not a row at all\n550e8400-e29b-41d4-a716-446655440000,\"Ok\",1,1970-01-01T00:00:00Z\nbad-uuid,\"X\",2,1970-01-01T00:00:00Z\n",
        HEADER
    );
    let (ledger, skipped) = parse_ledger(&to_chars(&text)).unwrap();
    assert_eq!(skipped, 2);
    let entries = ledger.entries();
    assert_eq!(entries.len(), 1);
    assert_eq!(entries[0].name(), "Ok");
}

#[test]
fn rendered_text_reads_back_through_a_csv_reader() {
    let mut ledger = Ledger::new();
    ledger.add_record(Record::from_parts(9, "Doe, John \"JD\"", -7, 90_000));
    let text = to_string(render_ledger(&ledger));
    let mut reader = csv::Reader::from_reader(text.as_bytes());
    let headers = reader.headers().unwrap().clone();
    assert_eq!(&headers[0], "transaction_id");
    assert_eq!(&headers[1], "recipient");
    assert_eq!(&headers[2], "transaction_amount");
    assert_eq!(&headers[3], "transaction_time");
    let rows: Vec<csv::StringRecord> = reader.records().map(|r| r.unwrap()).collect();
    assert_eq!(rows.len(), 1);
    assert_eq!(
        uuid::Uuid::parse_str(&rows[0][0]).unwrap().as_u128(),
        9
    );
    assert_eq!(&rows[0][1], "Doe, John \"JD\"");
    assert_eq!(&rows[0][2], "-7");
    let parsed = chrono::DateTime::parse_from_rfc3339(&rows[0][3]).unwrap();
    assert_eq!(parsed.timestamp(), 90_000);
}

#[test]
fn csv_written_rows_load_back() {
    let mut writer = csv::Writer::from_writer(Vec::new());
    writer
        .write_record(&[
            "transaction_id",
            "recipient",
            "transaction_amount",
            "transaction_time",
        ])
        .unwrap();
    writer
        .write_record(&[
            "550e8400-e29b-41d4-a716-446655440000",
            "Alice",
            "25",
            "1970-01-01T00:00:10Z",
        ])
        .unwrap();
    let data = String::from_utf8(writer.into_inner().unwrap()).unwrap();
    let (ledger, skipped) = parse_ledger(&to_chars(&data)).unwrap();
    assert_eq!(skipped, 0);
    let entries = ledger.entries();
    assert_eq!(entries.len(), 1);
    assert_eq!(entries[0].name(), "Alice");
    assert_eq!(entries[0].amount(), 25);
    assert_eq!(entries[0].time(), 10);
}

#[test]
fn fresh_records_round_trip_through_the_store() {
    // `Record::new` stamps the clock and a random identifier; both must
    // survive a save and reload.
    let mut ledger = Ledger::new();
    ledger.add_entry("Now", 1);
    let text = render_ledger(&ledger);
    let (back, skipped) = parse_ledger(&text).unwrap();
    assert_eq!(skipped, 0);
    assert!(ledger == back);
    assert_eq!(ledger.entries()[0].time(), back.entries()[0].time());
    assert_eq!(ledger.entries()[0].amount(), back.entries()[0].amount());
}

#[test]
fn fractional_seconds_in_a_stored_row_are_truncated() {
    let text = format!(
        "{}550e8400-e29b-41d4-a716-446655440000,\"Alice\",1,1970-01-01T00:00:10.500Z\n",
        HEADER
    );
    let (ledger, skipped) = parse_ledger(&to_chars(&text)).unwrap();
    assert_eq!(skipped, 0);
    assert_eq!(ledger.entries()[0].time(), 10);
}

#[test]
fn rendered_ledger_reloads_in_one_call() {
    let mut ledger = Ledger::new();
    ledger.add_entry("Alice", 3);
    ledger.add_entry("Bob", 4);
    let (back, skipped) = ledger_tui::store::rendered_ledger_reloads(&ledger);
    assert_eq!(skipped, 0);
    assert!(ledger == back);
}
