use gateway::capacity::{capacity_snapshot, parse_df, StorageCapacitySnapshot, MAX_DF_OUTPUT_BYTES};

#[test]
fn parse_capacity_never_invents_space_on_full_or_invalid_filesystems() {
    assert_eq!(
        parse_df(
            "Filesystem 1024-blocks Used Available Capacity Mounted\n/dev/test 1000 800 200 80% /\n"
        ),
        Some((1_024_000, 204_800))
    );
    assert_eq!(parse_df("header\n/dev/test 1000 1001 -1 100% /\n"), Some((1_024_000, 0)));
    assert_eq!(
        parse_df("header\nvolume with spaces 1000 800 200 80% /mount with spaces\n"),
        Some((1_024_000, 204_800))
    );
    assert_eq!(parse_df("header\nbroken"), None);
    assert_eq!(parse_df("header\n/dev/test 0 0 0 0% /\n"), None);
}

#[test]
fn a_capacity_snapshot_carries_the_parsed_report_and_refuses_oversized_output() {
    let report = "header\n/dev/test 1000 800 200 80% /\n";
    assert_eq!(
        capacity_snapshot(9, 0, report, 1_700_000_000_000),
        Some(StorageCapacitySnapshot {
            observed_at_ms: 1_700_000_000_000,
            database_bytes: 9,
            wal_bytes: 0,
            available_bytes: 204_800,
            total_bytes: 1_024_000,
        })
    );
    let oversized = format!("{report}{}", " ".repeat(MAX_DF_OUTPUT_BYTES));
    assert_eq!(capacity_snapshot(9, 0, &oversized, 1), None);
    assert_eq!(capacity_snapshot(9, 0, "only one line", 1), None);
}

#[test]
fn df_rows_without_a_capacity_column_or_with_overflow_yield_nothing() {
    assert_eq!(parse_df("header\n/dev/test 1000 800 200 /\n"), None);
    assert_eq!(parse_df("header\n80% /\n"), None);
    assert_eq!(
        parse_df("header\n/dev/test 18446744073709551615 1 1 1% /\n"),
        None
    );
    assert_eq!(parse_df("header\r\n/dev/test 4 2 2 50% /\r\n"), Some((4096, 2048)));
}
