//! Errors of FOFA validation, transport and relay quota operations.
use vstd::prelude::*;

use crate::text::push_str;

verus! {

/// Errors from FOFA transport, validation, and relay quota operations.
///
/// Response bodies and request URLs are never stored here.
#[derive(Debug)]
pub enum FofaError {
    InvalidQuery { reason: String },
    UnsupportedField { field: String, reason: String },
    AuthenticationRejected,
    AuthenticationExpired,
    QuotaExhausted,
    /// `retry_after` is the upstream `Retry-After` hint in milliseconds.
    RateLimited { retry_after: Option<u64> },
    UpstreamUnavailable { status: Option<u16>, possible_duplicate_charge: bool },
    UpstreamBusiness { code: String },
    UpstreamProtocol { reason: String },
    Cancelled,
}

/// The mathematical value of a [`FofaError`]: its variant and the characters
/// of its text fields.
pub enum FofaErrorView {
    InvalidQuery { reason: Seq<char> },
    UnsupportedField { field: Seq<char>, reason: Seq<char> },
    AuthenticationRejected,
    AuthenticationExpired,
    QuotaExhausted,
    RateLimited { retry_after: Option<u64> },
    UpstreamUnavailable { status: Option<u16>, possible_duplicate_charge: bool },
    UpstreamBusiness { code: Seq<char> },
    UpstreamProtocol { reason: Seq<char> },
    Cancelled,
}

impl View for FofaError {
    type V = FofaErrorView;

    open spec fn view(&self) -> FofaErrorView {
        match self {
            FofaError::InvalidQuery { reason } => FofaErrorView::InvalidQuery { reason: reason@ },
            FofaError::UnsupportedField { field, reason } => FofaErrorView::UnsupportedField {
                field: field@,
                reason: reason@,
            },
            FofaError::AuthenticationRejected => FofaErrorView::AuthenticationRejected,
            FofaError::AuthenticationExpired => FofaErrorView::AuthenticationExpired,
            FofaError::QuotaExhausted => FofaErrorView::QuotaExhausted,
            FofaError::RateLimited { retry_after } => FofaErrorView::RateLimited {
                retry_after: *retry_after,
            },
            FofaError::UpstreamUnavailable { status, possible_duplicate_charge } =>
                FofaErrorView::UpstreamUnavailable {
                status: *status,
                possible_duplicate_charge: *possible_duplicate_charge,
            },
            FofaError::UpstreamBusiness { code } => FofaErrorView::UpstreamBusiness {
                code: code@,
            },
            FofaError::UpstreamProtocol { reason } => FofaErrorView::UpstreamProtocol {
                reason: reason@,
            },
            FofaError::Cancelled => FofaErrorView::Cancelled,
        }
    }
}

impl FofaError {
    pub fn invalid(reason: &str) -> (e: FofaError)
        ensures
            e@ == (FofaErrorView::InvalidQuery { reason: reason@ }),
    {
        FofaError::InvalidQuery { reason: reason.to_owned() }
    }

    pub fn protocol(reason: &str) -> (e: FofaError)
        ensures
            e@ == (FofaErrorView::UpstreamProtocol { reason: reason@ }),
    {
        FofaError::UpstreamProtocol { reason: reason.to_owned() }
    }

    pub fn unsupported(field: &str, reason: &str) -> (e: FofaError)
        ensures
            e@ == (FofaErrorView::UnsupportedField { field: field@, reason: reason@ }),
    {
        FofaError::UnsupportedField { field: field.to_owned(), reason: reason.to_owned() }
    }

    /// Whether the failed request may have consumed upstream quota.
    pub fn possible_duplicate_charge(&self) -> (b: bool)
        ensures
            b == (self@ matches FofaErrorView::UpstreamUnavailable {
                possible_duplicate_charge: true,
                ..
            }),
    {
        match self {
            FofaError::UpstreamUnavailable { possible_duplicate_charge, .. } =>
                *possible_duplicate_charge,
            _ => false,
        }
    }
}

/// The message shown for an error.
pub open spec fn error_message(e: FofaErrorView) -> Seq<char> {
    match e {
        FofaErrorView::InvalidQuery { reason } => "查询无效："@ + reason,
        FofaErrorView::UnsupportedField { field, reason } => "不支持字段 `"@ + field + "`："@
            + reason,
        FofaErrorView::AuthenticationRejected => "FOFA API Key 被拒绝"@,
        FofaErrorView::AuthenticationExpired => "中转额度认证已失效，刷新后仍无法使用"@,
        FofaErrorView::QuotaExhausted => "FOFA 查询额度已用尽"@,
        FofaErrorView::RateLimited { .. } => "FOFA 请求受到限流"@,
        FofaErrorView::UpstreamUnavailable { .. } => "上游服务暂不可用"@,
        FofaErrorView::UpstreamBusiness { code } => "上游返回业务错误（"@ + code + "）"@,
        FofaErrorView::UpstreamProtocol { reason } => "上游响应不符合协议："@ + reason,
        FofaErrorView::Cancelled => "任务已取消"@,
    }
}

impl FofaError {
    /// The message shown for the error. Response bodies and request URLs
    /// never appear in it.
    pub fn message(&self) -> (s: String)
        ensures
            s@ == error_message(self@),
    {
        let mut s = String::new();
        match self {
            FofaError::InvalidQuery { reason } => {
                push_str(&mut s, "查询无效：");
                push_str(&mut s, reason.as_str());
            },
            FofaError::UnsupportedField { field, reason } => {
                push_str(&mut s, "不支持字段 `");
                push_str(&mut s, field.as_str());
                push_str(&mut s, "`：");
                push_str(&mut s, reason.as_str());
            },
            FofaError::AuthenticationRejected => push_str(&mut s, "FOFA API Key 被拒绝"),
            FofaError::AuthenticationExpired => push_str(
                &mut s,
                "中转额度认证已失效，刷新后仍无法使用",
            ),
            FofaError::QuotaExhausted => push_str(&mut s, "FOFA 查询额度已用尽"),
            FofaError::RateLimited { .. } => push_str(&mut s, "FOFA 请求受到限流"),
            FofaError::UpstreamUnavailable { .. } => push_str(&mut s, "上游服务暂不可用"),
            FofaError::UpstreamBusiness { code } => {
                push_str(&mut s, "上游返回业务错误（");
                push_str(&mut s, code.as_str());
                push_str(&mut s, "）");
            },
            FofaError::UpstreamProtocol { reason } => {
                push_str(&mut s, "上游响应不符合协议：");
                push_str(&mut s, reason.as_str());
            },
            FofaError::Cancelled => push_str(&mut s, "任务已取消"),
        }
        assert(s@ =~= error_message(self@));
        s
    }
}

} // verus!
