use tlsproxy::accounting::{
    compression_candidates, csv_field, enabled, format_rfc3339_ms, init, plan_rotation, rotated_files, shutdown, submit,
    Accounting, CdrRecord, ConnStatus, ListenerType, RotatingWriter, CSV_HEADER, QUEUE_CAPACITY,
};
use tlsproxy::config::{AccountingConfig, Compression, ListenerMode};

fn names(list: &[&str]) -> Vec<String> {
    list.iter().map(|s| s.to_string()).collect()
}

#[test]
fn csv_field_quotes_and_sanitizes() {
    assert_eq!(csv_field("plain"), "plain");
    assert_eq!(csv_field("has,comma"), "\"has,comma\"");
    assert_eq!(csv_field("has\"quote"), "\"has\"\"quote\"");
    assert_eq!(csv_field("line\r\nbreak"), "linebreak");
    assert_eq!(csv_field("tab\tchar"), "tabchar");
    assert_eq!(csv_field(""), "");
}

#[test]
fn timestamps_format_as_rfc3339_utc_with_milliseconds() {
    assert_eq!(format_rfc3339_ms(0), "1970-01-01T00:00:00.000Z");
    assert_eq!(format_rfc3339_ms(86_400_000), "1970-01-02T00:00:00.000Z");
    assert_eq!(format_rfc3339_ms(1_000_000_000_123), "2001-09-09T01:46:40.123Z");
}

#[test]
fn listener_type_and_status_strings_match_spec() {
    assert_eq!(ListenerType::from_mode(ListenerMode::Passthrough).as_str(), "TLS_PASSTHROUGH");
    assert_eq!(ListenerType::from_mode(ListenerMode::Terminate).as_str(), "TLS_TERMINATE");
    assert_eq!(ListenerType::from_mode(ListenerMode::Forward).as_str(), "PORT_FORWARD");
    assert_eq!(ConnStatus::Success.as_str(), "OK");
    assert_eq!(ConnStatus::Denied.as_str(), "DENIED");
    assert_eq!(ConnStatus::ConnectFailed.as_str(), "CONNECT_FAILED");
    assert_eq!(ConnStatus::default(), ConnStatus::ConnectFailed);
}

#[test]
fn record_renders_one_csv_line_matching_header_column_count() {
    let record = CdrRecord {
        listener_type: ListenerType::TlsPassthrough,
        connection_id: "jdsaffwefaef(45)".into(),
        listener_name: "HTTPS".into(),
        sni: "asdf.dev.com".into(),
        target_host: "asdf.dev.com".into(),
        target_endpoint: "32.11.23.4:443".into(),
        remote_address: "10.0.0.9:51234".into(),
        status: ConnStatus::Success,
        uploaded_bytes: 452_333,
        downloaded_bytes: 2_323_123,
        start_unix_ms: 0,
        end_unix_ms: 1_000,
    };
    let line = record.to_csv_line();
    assert_eq!(
        line,
        "TLS_PASSTHROUGH,jdsaffwefaef(45),HTTPS,asdf.dev.com,asdf.dev.com,32.11.23.4:443,10.0.0.9:51234,OK,452333,2323123,1970-01-01T00:00:00.000Z,1970-01-01T00:00:01.000Z"
    );
    assert_eq!(
        line.split(',').count(),
        CSV_HEADER.split(',').count(),
        "line and header column counts must match"
    );
}

fn denied() -> CdrRecord {
    CdrRecord {
        listener_type: ListenerType::PortForward,
        connection_id: "id(1)".into(),
        listener_name: "a,b".into(),
        sni: String::new(),
        target_host: String::new(),
        target_endpoint: String::new(),
        remote_address: "1.2.3.4:1".into(),
        status: ConnStatus::Denied,
        uploaded_bytes: 0,
        downloaded_bytes: 0,
        start_unix_ms: 0,
        end_unix_ms: 0,
    }
}

#[test]
fn record_with_commas_in_fields_stays_one_logical_row() {
    let line = denied().to_csv_line();
    assert!(line.contains("\"a,b\""));
    assert!(!line.contains('\n'));
}

#[test]
fn an_empty_file_gets_a_header_and_a_full_one_rotates() {
    let header = CSV_HEADER.len() as u64 + 1;
    let (mut writer, needs_header) = RotatingWriter::open(0, 1_000_000, 3);
    assert!(needs_header);
    assert_eq!(writer.current_size, header);
    assert!(!writer.write_record("row1"));
    assert_eq!(writer.current_size, header + 5);
    let (writer, needs_header) = RotatingWriter::open(header + 5, 1_000_000, 3);
    assert!(!needs_header);
    assert_eq!(writer.current_size, header + 5);

    let (mut tiny, _) = RotatingWriter::open(0, 10, 3);
    assert!(tiny.write_record("a-full-row"), "should rotate");
    assert_eq!(tiny.current_size, header);
}

#[test]
fn rotation_waits_while_compression_is_in_flight() {
    let (mut writer, _) = RotatingWriter::open(0, 10, 3);
    writer.compress_in_flight = true;
    assert!(writer.compress_gate());
    assert!(!writer.write_record("row-a"), "gate held: no rotation");
    assert!(!writer.write_record("row-b"), "still barred, keeps appending");
    writer.compress_in_flight = false;
    assert!(writer.write_record("row-c"), "gate released: rotates");
}

#[test]
fn rotation_shifts_files_up_and_keeps_their_suffix() {
    let files = rotated_files("cdr.log", &names(&["cdr.log", "cdr.log.1", "cdr.log.2.zst", "cdr.log.x", "other"]));
    assert_eq!(files.len(), 2);
    let plan = plan_rotation("cdr.log", files, 5);
    assert!(plan.removals.is_empty());
    let moves: Vec<(String, String)> = plan.renames.into_iter().map(|r| (r.from, r.to)).collect();
    assert_eq!(
        moves,
        vec![
            ("cdr.log.2.zst".to_string(), "cdr.log.3.zst".to_string()),
            ("cdr.log.1".to_string(), "cdr.log.2".to_string()),
            ("cdr.log".to_string(), "cdr.log.1".to_string()),
        ]
    );
}

#[test]
fn rotation_prunes_what_would_pass_the_limit() {
    let files = rotated_files("cdr.log", &names(&["cdr.log.1", "cdr.log.2.zst", "cdr.log.7"]));
    let plan = plan_rotation("cdr.log", files, 2);
    let mut removed = plan.removals;
    removed.sort();
    assert_eq!(removed, vec!["cdr.log.2.zst", "cdr.log.7"]);
    let moves: Vec<(String, String)> = plan.renames.into_iter().map(|r| (r.from, r.to)).collect();
    assert_eq!(
        moves,
        vec![
            ("cdr.log.1".to_string(), "cdr.log.2".to_string()),
            ("cdr.log".to_string(), "cdr.log.1".to_string()),
        ]
    );
}

#[test]
fn only_raw_files_past_the_boundary_are_compressed() {
    let all = names(&["cdr.log.1", "cdr.log.3", "cdr.log.7", "cdr.log.5.zst", "cdr.log.6.gz", "cdr.log.4"]);
    let found = compression_candidates(rotated_files("cdr.log", &all), 3, Compression::Zstd);
    assert_eq!(found, vec!["cdr.log.4", "cdr.log.7"]);
    assert!(compression_candidates(rotated_files("cdr.log", &all), 3, Compression::Plain).is_empty());
    assert!(compression_candidates(rotated_files("cdr.log", &all), 10, Compression::Zstd).is_empty());
}

#[test]
fn records_are_queued_only_while_accounting_runs() {
    let cfg = AccountingConfig {
        enabled: true,
        log_file: "cdr.log".into(),
        rotate_size: "1MiB".into(),
        max_keep: 3,
        compress_after: 3,
        compression: Compression::Plain,
    };
    let mut state = Accounting::new();
    assert!(!enabled(&state));
    assert!(!submit(&mut state, denied()), "silently ignored before the start");
    assert_eq!(init(&mut state, &cfg), Ok(Some(1_048_576)));
    assert!(enabled(&state));
    assert!(!submit(&mut state, denied()), "written, not dropped");
    state.writer_gone = true;
    assert!(submit(&mut state, denied()), "the writer is gone");
    assert_eq!(shutdown(&mut state).len(), 1);
    assert!(submit(&mut state, denied()), "the writer has stopped");
    assert_eq!(QUEUE_CAPACITY, 100000);

    let mut off = Accounting::new();
    let disabled = AccountingConfig { enabled: false, ..AccountingConfig::default() };
    assert_eq!(init(&mut off, &disabled), Ok(None));
    assert!(!enabled(&off));
    let broken = AccountingConfig { enabled: true, log_file: String::new(), ..AccountingConfig::default() };
    assert!(init(&mut off, &broken).is_err());
}
