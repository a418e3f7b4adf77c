use cyberscope::searches::{
    parse_search_id, uuid_text, SearchRecord, SearchRow, SearchStatus,
};

#[test]
fn search_status_round_trips_to_storage_value() {
    for (status, value) in [
        (SearchStatus::Queued, "queued"),
        (SearchStatus::Running, "running"),
        (SearchStatus::Cancelling, "cancelling"),
        (SearchStatus::Completed, "completed"),
        (SearchStatus::Failed, "failed"),
        (SearchStatus::Cancelled, "cancelled"),
    ] {
        assert_eq!(status.as_str(), value);
        assert_eq!(SearchStatus::try_from(value), Ok(status));
    }
}

#[test]
fn unknown_search_status_is_rejected() {
    assert_eq!(SearchStatus::try_from("unknown"), Err(()));
}

fn row() -> SearchRow {
    SearchRow {
        id: "67e55044-10b1-426f-9247-bb680e5fe0c8".to_owned(),
        query: "title=\"x\"".to_owned(),
        fields_json: r#"["ip","port"]"#.to_owned(),
        format: "csv".to_owned(),
        max_results: 100,
        full: 1,
        status: "completed".to_owned(),
        matched_size: Some(7),
        written_rows: 2,
        upstream_attempts: 1,
        retries: 0,
        possible_duplicate_charge: 0,
        error_code: None,
        error_message: None,
        created_at: "2026-01-01T08:00:00+08:00".to_owned(),
        started_at: None,
        completed_at: Some("2026-01-01T00:00:01Z".to_owned()),
        updated_at: "2026-01-01T00:00:01+00:00".to_owned(),
    }
}

#[test]
fn stored_rows_are_read_into_records() {
    let record = SearchRecord::try_from(row()).unwrap();
    assert_eq!(record.id, 0x67e55044_10b1_426f_9247_bb680e5fe0c8);
    assert_eq!(record.fields, vec!["ip".to_owned(), "port".to_owned()]);
    assert!(record.full);
    assert_eq!(record.status, SearchStatus::Completed);
    assert_eq!(record.matched_size, Some(7));
    assert_eq!(record.created_at, "2026-01-01T00:00:00+00:00");
    assert_eq!(record.completed_at.as_deref(), Some("2026-01-01T00:00:01+00:00"));
}

#[test]
fn unreadable_rows_are_refused() {
    let mut bad = row();
    bad.written_rows = -1;
    assert!(SearchRecord::try_from(bad).is_err());
    let mut bad = row();
    bad.status = "paused".to_owned();
    assert!(SearchRecord::try_from(bad).is_err());
    let mut bad = row();
    bad.fields_json = "ip".to_owned();
    assert!(SearchRecord::try_from(bad).is_err());
    let mut bad = row();
    bad.id = "not-a-uuid".to_owned();
    assert!(SearchRecord::try_from(bad).is_err());
}

#[test]
fn search_ids_are_spelled_as_the_uuid_crate_spells_them() {
    let ids = [
        0u128,
        1,
        u128::MAX,
        0x67e5_5044_10b1_426f_9247_bb68_0e5f_e0c8,
        0x0123_4567_89ab_cdef_fedc_ba98_7654_3210,
        0xf000_0000_0000_0000_0000_0000_0000_000f,
    ];
    for id in ids {
        let text = uuid_text(id);
        assert_eq!(text, uuid::Uuid::from_u128(id).to_string());
        assert_eq!(parse_search_id(&text), Some(id));
    }
    assert_eq!(uuid_text(1), "00000000-0000-0000-0000-000000000001");
    assert_eq!(parse_search_id("not-a-uuid"), None);
}
