use cyberscope::fofa::auth::{
    check_auth_body_growth, check_auth_content_length, check_login_status, check_login_token,
    check_quota_success, clear_if_current, judge_quota_status, on_quota_unauthorized,
    relay_transport_error, reuse_after_refusal, QuotaAttempt, QuotaNext, QuotaStatus,
    MAX_AUTH_RESPONSE_BYTES,
};
use cyberscope::fofa::error::FofaError;

fn protocol_reason(result: Result<(), FofaError>) -> String {
    match result {
        Err(FofaError::UpstreamProtocol { reason }) => reason,
        _ => panic!("a protocol error was expected"),
    }
}

#[test]
fn login_statuses_map_to_errors() {
    for status in [401, 403, 404] {
        assert!(matches!(
            check_login_status(status),
            Err(FofaError::AuthenticationRejected)
        ));
    }
    assert!(matches!(
        check_login_status(429),
        Err(FofaError::RateLimited { retry_after: None })
    ));
    assert_eq!(
        protocol_reason(check_login_status(422)),
        "中转登录请求被拒绝（HTTP 422）"
    );
    assert!(matches!(
        check_login_status(503),
        Err(FofaError::UpstreamUnavailable {
            status: Some(503),
            possible_duplicate_charge: false
        })
    ));
    assert_eq!(protocol_reason(check_login_status(302)), "中转登录返回 HTTP 302");
    assert!(check_login_status(200).is_ok());
}

#[test]
fn a_blank_login_token_is_refused() {
    assert_eq!(
        protocol_reason(check_login_token(" \t ")),
        "中转登录响应缺少 Token"
    );
    assert!(check_login_token(" token ").is_ok());
}

#[test]
fn a_401_from_userinfo_asks_for_one_refresh_only() {
    assert!(matches!(judge_quota_status(401), QuotaStatus::Unauthorized));
    assert!(matches!(
        on_quota_unauthorized(QuotaAttempt::First),
        QuotaNext::Refresh
    ));
    assert!(matches!(
        on_quota_unauthorized(QuotaAttempt::AfterRefresh),
        QuotaNext::Expired
    ));
}

#[test]
fn userinfo_statuses_map_to_errors() {
    assert!(matches!(
        judge_quota_status(403),
        QuotaStatus::Failed(FofaError::AuthenticationRejected)
    ));
    assert!(matches!(
        judge_quota_status(429),
        QuotaStatus::Failed(FofaError::RateLimited { retry_after: None })
    ));
    assert!(matches!(
        judge_quota_status(500),
        QuotaStatus::Failed(FofaError::UpstreamUnavailable {
            status: Some(500),
            possible_duplicate_charge: false
        })
    ));
    match judge_quota_status(404) {
        QuotaStatus::Failed(FofaError::UpstreamProtocol { reason }) => {
            assert_eq!(reason, "中转额度接口返回 HTTP 404")
        }
        _ => panic!("a protocol error was expected"),
    }
    assert!(matches!(judge_quota_status(200), QuotaStatus::ReadBody));
}

#[test]
fn an_explicit_unsuccessful_envelope_is_refused() {
    assert_eq!(
        protocol_reason(check_quota_success(Some(false))),
        "中转额度响应标记 success=false"
    );
    assert!(check_quota_success(Some(true)).is_ok());
    assert!(check_quota_success(None).is_ok());
}

#[test]
fn transport_errors_never_keep_the_request() {
    assert_eq!(
        protocol_reason(Err(relay_transport_error(true, false, None))),
        "无法编码中转认证请求"
    );
    assert!(matches!(
        relay_transport_error(false, true, None),
        FofaError::UpstreamUnavailable {
            status: None,
            possible_duplicate_charge: false
        }
    ));
    assert!(matches!(
        relay_transport_error(false, false, Some(504)),
        FofaError::UpstreamUnavailable {
            status: Some(504),
            possible_duplicate_charge: true
        }
    ));
}

#[test]
fn auth_bodies_are_capped_at_one_mebibyte() {
    assert!(check_auth_content_length(Some(MAX_AUTH_RESPONSE_BYTES)).is_ok());
    assert!(check_auth_content_length(None).is_ok());
    assert_eq!(
        protocol_reason(check_auth_content_length(Some(MAX_AUTH_RESPONSE_BYTES + 1))),
        "中转认证响应超过 1 MiB 安全上限"
    );
    assert_eq!(check_auth_body_growth(10, 20).unwrap(), 30);
    assert!(check_auth_body_growth(1_048_576, 1).is_err());
    match check_auth_body_growth(usize::MAX, 1) {
        Err(FofaError::UpstreamProtocol { reason }) => assert_eq!(reason, "中转认证响应大小溢出"),
        _ => panic!("an overflow must be refused"),
    }
}

#[test]
fn a_refreshed_token_is_reused_and_only_the_rejected_one_is_cleared() {
    assert!(reuse_after_refusal(Some("new"), "old"));
    assert!(!reuse_after_refusal(Some("old"), "old"));
    assert!(!reuse_after_refusal(None, "old"));
    assert!(clear_if_current(Some("old"), "old"));
    assert!(!clear_if_current(Some("new"), "old"));
    assert!(!clear_if_current(None, "old"));
}
