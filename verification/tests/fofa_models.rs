use cyberscope::fofa::models::{
    normalize_results, FieldState, FlexibleTime, JsonValue, QuotaInfo, ReturnField,
    UserInfoEnvelope,
};

fn fields(names: &[&str]) -> Vec<ReturnField> {
    names.iter().copied().map(ReturnField::api).collect()
}

fn s(text: &str) -> JsonValue {
    JsonValue::Str(text.to_owned())
}

fn n(text: &str) -> JsonValue {
    JsonValue::Number(text.to_owned())
}

fn arr(items: Vec<JsonValue>) -> JsonValue {
    JsonValue::Array(items)
}

fn obj(members: Vec<(&str, JsonValue)>) -> JsonValue {
    JsonValue::Object(members.into_iter().map(|(k, v)| (k.to_owned(), v)).collect())
}

#[test]
fn normalizes_all_three_documented_result_shapes() {
    assert_eq!(
        normalize_results(arr(vec![s("1.1.1.1"), s("8.8.8.8")]), &fields(&["ip"])).unwrap(),
        vec![vec![s("1.1.1.1")], vec![s("8.8.8.8")]]
    );
    assert_eq!(
        normalize_results(
            arr(vec![
                arr(vec![s("1.1.1.1"), n("443")]),
                arr(vec![s("8.8.8.8"), n("53")])
            ]),
            &fields(&["ip", "port"]),
        )
        .unwrap(),
        vec![vec![s("1.1.1.1"), n("443")], vec![s("8.8.8.8"), n("53")]]
    );
    assert_eq!(
        normalize_results(
            arr(vec![
                obj(vec![
                    ("extra", JsonValue::Bool(true)),
                    ("ip", s("1.1.1.1")),
                    ("port", n("443"))
                ]),
                obj(vec![("ip", s("2.2.2.2"))]),
            ]),
            &fields(&["ip", "port"]),
        )
        .unwrap(),
        vec![vec![s("1.1.1.1"), n("443")], vec![s("2.2.2.2"), JsonValue::Null]]
    );
}

#[test]
fn rejects_mixed_and_wrong_width_results() {
    assert!(normalize_results(arr(vec![s("ip"), arr(vec![s("ip")])]), &fields(&["ip"])).is_err());
    assert!(normalize_results(arr(vec![arr(vec![s("ip")])]), &fields(&["ip", "port"])).is_err());
    assert!(normalize_results(arr(vec![s("ip")]), &fields(&["ip", "port"])).is_err());
}

#[test]
fn field_state_distinguishes_missing_null_and_value() {
    // `data` holds `status`, a null `expire_at`, `activate_time` and
    // `remaining_api_calls`; `remaining_item_count` is absent.
    let envelope = UserInfoEnvelope {
        success: None,
        key_type: None,
        data: Some(QuotaInfo {
            status: FieldState::Value(1),
            status_text: None,
            activate_time: FieldState::Value(FlexibleTime::Unix(1_800_000_000)),
            expire_at: FieldState::Null,
            expire_seconds: FieldState::Missing,
            remaining_api_calls: FieldState::Value(-1),
            remaining_item_count: FieldState::Missing,
        }),
    };
    let quota = envelope.data.as_ref().unwrap();

    assert_eq!(quota.status, FieldState::Value(1));
    assert_eq!(quota.expire_at, FieldState::Null);
    assert_eq!(
        quota.activate_time,
        FieldState::Value(FlexibleTime::Unix(1_800_000_000))
    );
    assert_eq!(quota.remaining_api_calls, FieldState::Value(-1));
    assert_eq!(quota.remaining_item_count, FieldState::Missing);
    assert!(!quota.protocol_compatible());
    assert!(!envelope.protocol_compatible());
}

#[test]
fn maps_location_display_names_to_api_names() {
    let field = ReturnField::from_name("location.country_name");
    assert_eq!(field.output_name, "location.country_name");
    assert_eq!(field.api_name, "country_name");
}

#[test]
fn missing_quota_fields_are_listed_in_field_order() {
    let quota = QuotaInfo {
        status: FieldState::Value(1),
        status_text: None,
        activate_time: FieldState::Null,
        expire_at: FieldState::Missing,
        expire_seconds: FieldState::Value(1),
        remaining_api_calls: FieldState::Missing,
        remaining_item_count: FieldState::Value(3),
    };
    assert_eq!(quota.missing_fields(), vec!["expire_at", "remaining_api_calls"]);
}

#[test]
fn flexible_time_is_shown_as_text_or_seconds() {
    assert_eq!(FlexibleTime::Text("2026-01-01".to_owned()).text(), "2026-01-01");
    assert_eq!(FlexibleTime::Unix(-42).text(), "-42");
    assert_eq!(FlexibleTime::Unix(i64::MIN).text(), "-9223372036854775808");
}
