use base64::Engine as _;
use cyberscope::fofa::client::{prepare_search_all, prepare_search_next};
use cyberscope::fofa::models::SearchQuery;
use cyberscope::fofa::validator::{ApiMode, QueryValidator};
use cyberscope::fofa::client::{
    classify_business_error, extract_business_code, is_quota_exhausted, parse_retry_after,
    parse_u64, BusinessError, RetryPolicy, SearchAction, SearchAttempts, SearchEvent,
};
use cyberscope::fofa::error::FofaError;
use cyberscope::fofa::models::{JsonValue, RawSearchResponse, ReturnField};

#[test]
fn retry_after_is_honored_separately_from_backoff_ceiling() {
    // Delays are in milliseconds: base 10 ms, ceiling 1 s.
    let policy = RetryPolicy {
        max_retries: 3,
        base_delay: 10,
        max_delay: 1_000,
    };
    assert_eq!(policy.delay(0, Some(60_000)), 60_000);
    assert_eq!(policy.delay(0, Some(600_000)), 300_000);
}

#[test]
fn backoff_doubles_up_to_the_ceiling() {
    let policy = RetryPolicy::default();
    assert_eq!(policy.delay(0, None), 500);
    assert_eq!(policy.delay(1, None), 1_000);
    assert_eq!(policy.delay(3, None), 4_000);
    assert_eq!(policy.delay(4, None), 8_000);
    assert_eq!(policy.delay(40, None), 8_000);
    let huge = RetryPolicy {
        max_retries: 1,
        base_delay: u64::MAX,
        max_delay: u64::MAX,
    };
    assert_eq!(huge.delay(31, None), u64::MAX);
}

#[test]
fn business_errors_are_classified_in_priority_order() {
    assert_eq!(
        classify_business_error(Some("[-101] Key 不存在")),
        BusinessError::Authentication
    );
    assert_eq!(
        classify_business_error(Some("[45012] rate limit")),
        BusinessError::RateLimited
    );
    assert_eq!(
        classify_business_error(Some("Insufficient Quota")),
        BusinessError::QuotaExhausted
    );
    assert_eq!(
        classify_business_error(Some("查询语法错误")),
        BusinessError::InvalidQuery
    );
    assert_eq!(
        classify_business_error(Some("[820001] 其他")),
        BusinessError::Other("820001".to_owned())
    );
    assert_eq!(
        classify_business_error(None),
        BusinessError::Other("unknown".to_owned())
    );
    assert!(matches!(
        BusinessError::InvalidQuery.into_fofa_error(),
        FofaError::InvalidQuery { .. }
    ));
}

#[test]
fn business_codes_are_short_signed_numbers() {
    assert_eq!(extract_business_code("[-700] x"), "-700");
    assert_eq!(extract_business_code("no code"), "unknown");
    assert_eq!(extract_business_code("[abc]"), "unknown");
    assert_eq!(extract_business_code("[]"), "unknown");
    assert_eq!(extract_business_code("[12345678901234567]"), "unknown");
    assert_eq!(extract_business_code("[1"), "unknown");
    assert!(is_quota_exhausted("今日额度已用完"));
    assert!(!is_quota_exhausted("ok"));
}

#[test]
fn retry_after_reads_seconds() {
    assert_eq!(parse_retry_after(Some("120")), Some(120_000));
    assert_eq!(parse_retry_after(Some("+3")), Some(3_000));
    assert_eq!(parse_retry_after(Some("soon")), None);
    assert_eq!(parse_retry_after(None), None);
    assert_eq!(parse_retry_after(Some("Mon, 01 Jan 2001 00:00:00 GMT")), None);
    assert_eq!(parse_u64("18446744073709551615"), Some(u64::MAX));
    assert_eq!(parse_u64("18446744073709551616"), None);
    assert_eq!(parse_u64("+"), None);
    assert_eq!(parse_u64(""), None);
}

fn raw(results: JsonValue, next: Option<&str>) -> RawSearchResponse {
    RawSearchResponse {
        error: false,
        errmsg: None,
        query: None,
        mode: None,
        size: Some(123),
        page: None,
        results: Some(results),
        next: next.map(str::to_owned),
        tip: None,
    }
}

#[test]
fn a_503_is_retried_and_marks_a_possible_duplicate_charge() {
    let policy = RetryPolicy {
        max_retries: 1,
        base_delay: 0,
        max_delay: 0,
    };
    let fields = vec![ReturnField::api("ip")];
    let mut attempts = SearchAttempts::new();
    let first = attempts.step(
        &policy,
        SearchEvent::Responded {
            status: 503,
            retry_after: None,
            content_length: None,
        },
        &fields,
        None,
    );
    assert!(matches!(first, SearchAction::Retry { delay: 0 }));
    let second = attempts.step(
        &policy,
        SearchEvent::Responded {
            status: 200,
            retry_after: None,
            content_length: Some(10),
        },
        &fields,
        None,
    );
    assert!(matches!(second, SearchAction::ReadBody));
    let done = attempts.step(
        &policy,
        SearchEvent::BodyRead(Some(raw(
            JsonValue::Array(vec![JsonValue::Str("1.1.1.1".to_owned())]),
            None,
        ))),
        &fields,
        None,
    );
    match done {
        SearchAction::Finish(Ok(response)) => {
            assert_eq!(response.retry.attempts, 2);
            assert_eq!(response.retry.retries, 1);
            assert!(response.retry.possible_duplicate_charge);
            assert_eq!(response.matched_size, Some(123));
        }
        _ => panic!("the page should be accepted"),
    }
}

#[test]
fn a_stalled_cursor_is_a_protocol_error() {
    let policy = RetryPolicy::default();
    let fields = vec![ReturnField::api("ip")];
    let mut attempts = SearchAttempts::new();
    let done = attempts.step(
        &policy,
        SearchEvent::BodyRead(Some(raw(
            JsonValue::Array(vec![JsonValue::Str("1.1.1.1".to_owned())]),
            Some("same"),
        ))),
        &fields,
        Some("same"),
    );
    assert!(matches!(
        done,
        SearchAction::Finish(Err(FofaError::UpstreamProtocol { .. }))
    ));
}

#[test]
fn statuses_map_to_errors() {
    let policy = RetryPolicy {
        max_retries: 0,
        base_delay: 0,
        max_delay: 0,
    };
    let fields = vec![ReturnField::api("ip")];
    let outcome = |status: u16| {
        let mut attempts = SearchAttempts::new();
        attempts.step(
            &policy,
            SearchEvent::Responded {
                status,
                retry_after: Some(5_000),
                content_length: None,
            },
            &fields,
            None,
        )
    };
    assert!(matches!(
        outcome(429),
        SearchAction::Finish(Err(FofaError::RateLimited {
            retry_after: Some(5_000)
        }))
    ));
    assert!(matches!(
        outcome(401),
        SearchAction::Finish(Err(FofaError::AuthenticationRejected))
    ));
    assert!(matches!(
        outcome(402),
        SearchAction::Finish(Err(FofaError::QuotaExhausted))
    ));
    assert!(matches!(
        outcome(408),
        SearchAction::Finish(Err(FofaError::UpstreamUnavailable {
            status: Some(408),
            possible_duplicate_charge: true
        }))
    ));
    match outcome(400) {
        SearchAction::Finish(Err(FofaError::UpstreamProtocol { reason })) => {
            assert_eq!(reason, "上游返回 HTTP 400")
        }
        _ => panic!("400 is a protocol error"),
    }
    let mut attempts = SearchAttempts::new();
    assert!(matches!(
        attempts.step(
            &policy,
            SearchEvent::Responded {
                status: 200,
                retry_after: None,
                content_length: Some(64 * 1024 * 1024 + 1),
            },
            &fields,
            None,
        ),
        SearchAction::Finish(Err(FofaError::UpstreamProtocol { .. }))
    ));
}

#[test]
fn rate_limiting_is_retried_at_most_max_retries_times() {
    let policy = RetryPolicy {
        max_retries: 2,
        base_delay: 100,
        max_delay: 1_000,
    };
    let fields = vec![ReturnField::api("ip")];
    let mut attempts = SearchAttempts::new();
    let mut delays = Vec::new();
    loop {
        let action = attempts.step(
            &policy,
            SearchEvent::Responded {
                status: 429,
                retry_after: None,
                content_length: None,
            },
            &fields,
            None,
        );
        match action {
            SearchAction::Retry { delay } => delays.push(delay),
            SearchAction::Finish(Err(FofaError::RateLimited { retry_after: None })) => break,
            _ => panic!("a rate limit is retried or reported"),
        }
        assert!(delays.len() <= 2);
    }
    assert_eq!(delays, vec![100, 200]);
    assert_eq!(attempts.retries, 2);
}

#[test]
fn search_parameters_carry_the_standard_base64_of_the_query() {
    let validator = QueryValidator::new(ApiMode::Official);
    for query in [r#"ip="192.0.2.1""#, r#"title="管理后台""#, r#"a="1" || b="22""#] {
        let search = SearchQuery::new(query.to_owned(), vec![ReturnField::api("ip")], 10);
        let expected = base64::engine::general_purpose::STANDARD.encode(query.as_bytes());
        let params = prepare_search_all(&validator, &search, Some(2)).unwrap();
        assert_eq!(params.qbase64, expected);
        assert_eq!(params.fields, "ip");
        assert_eq!(params.page, Some(2));
        let next = prepare_search_next(&validator, &search, Some("cursor")).unwrap();
        assert_eq!(next.qbase64, expected);
        assert_eq!(next.next.as_deref(), Some("cursor"));
    }
    assert_eq!(
        prepare_search_all(
            &validator,
            &SearchQuery::new("Man".to_owned(), vec![ReturnField::api("ip")], 10),
            None
        )
        .unwrap()
        .qbase64,
        "TWFu"
    );
}
