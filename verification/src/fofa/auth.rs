//! The rules of the optional relay quota API: how its sign-in and quota
//! answers are judged, when a cached token is refreshed, and the size cap of
//! its responses. The HTTP exchange and the token cache belong to the caller.
use vstd::prelude::*;

use crate::fofa::error::{FofaError, FofaErrorView};
use crate::fofa::models::protocol_error;
use crate::text::{chars_of, decimal, push_decimal, push_str, str_eq, trim_bounds, trimmed};

verus! {

/// Cap of one relay authentication or quota response.
pub const MAX_AUTH_RESPONSE_BYTES: u64 = 1048576;

pub open spec fn is_server_error(status: u16) -> bool {
    500 <= status <= 599
}

pub open spec fn is_success(status: u16) -> bool {
    200 <= status <= 299
}

/// How a relay sign-in status is judged: `None` means read the body.
pub open spec fn login_status_error(status: u16) -> Option<FofaErrorView> {
    if status == 401 || status == 403 || status == 404 {
        Some(FofaErrorView::AuthenticationRejected)
    } else if status == 429 {
        Some(FofaErrorView::RateLimited { retry_after: None })
    } else if status == 422 {
        Some(protocol_error("中转登录请求被拒绝（HTTP 422）"@))
    } else if is_server_error(status) {
        Some(
            FofaErrorView::UpstreamUnavailable {
                status: Some(status),
                possible_duplicate_charge: false,
            },
        )
    } else if !is_success(status) {
        Some(protocol_error("中转登录返回 HTTP "@ + decimal(status as nat)))
    } else {
        None
    }
}

pub fn check_login_status(status: u16) -> (r: Result<(), FofaError>)
    ensures
        match login_status_error(status) {
            Some(e) => r matches Err(x) && x@ == e,
            None => r is Ok,
        },
{
    if status == 401 || status == 403 || status == 404 {
        return Err(FofaError::AuthenticationRejected);
    }
    if status == 429 {
        return Err(FofaError::RateLimited { retry_after: None });
    }
    if status == 422 {
        return Err(FofaError::protocol("中转登录请求被拒绝（HTTP 422）"));
    }
    if 500 <= status && status <= 599 {
        return Err(
            FofaError::UpstreamUnavailable { status: Some(status), possible_duplicate_charge: false },
        );
    }
    if !(200 <= status && status <= 299) {
        let mut reason = String::new();
        push_str(&mut reason, "中转登录返回 HTTP ");
        push_decimal(&mut reason, status as u64);
        return Err(FofaError::UpstreamProtocol { reason });
    }
    Ok(())
}

/// A sign-in answer must carry a token that is not blank.
pub fn check_login_token(token: &str) -> (r: Result<(), FofaError>)
    ensures
        trimmed(token@).len() == 0 ==> (r matches Err(e) && e@ == protocol_error(
            "中转登录响应缺少 Token"@,
        )),
        trimmed(token@).len() > 0 ==> r is Ok,
{
    let v = chars_of(token);
    let (a, b) = trim_bounds(v.as_slice());
    if a == b {
        return Err(FofaError::protocol("中转登录响应缺少 Token"));
    }
    Ok(())
}

/// What a quota answer's status means.
pub enum QuotaStatus {
    /// The token was refused: refresh it once.
    Unauthorized,
    /// Read the body.
    ReadBody,
    Failed(FofaError),
}

pub open spec fn quota_status_error(status: u16) -> Option<FofaErrorView> {
    if status == 403 {
        Some(FofaErrorView::AuthenticationRejected)
    } else if status == 429 {
        Some(FofaErrorView::RateLimited { retry_after: None })
    } else if is_server_error(status) {
        Some(
            FofaErrorView::UpstreamUnavailable {
                status: Some(status),
                possible_duplicate_charge: false,
            },
        )
    } else if !is_success(status) {
        Some(protocol_error("中转额度接口返回 HTTP "@ + decimal(status as nat)))
    } else {
        None
    }
}

/// Judges a quota answer's status: 401 asks for a refresh, other failures
/// are errors, a success is read.
pub fn judge_quota_status(status: u16) -> (r: QuotaStatus)
    ensures
        status == 401 ==> r is Unauthorized,
        status != 401 ==> match quota_status_error(status) {
            Some(e) => r matches QuotaStatus::Failed(x) && x@ == e,
            None => r is ReadBody,
        },
{
    if status == 401 {
        return QuotaStatus::Unauthorized;
    }
    if status == 403 {
        return QuotaStatus::Failed(FofaError::AuthenticationRejected);
    }
    if status == 429 {
        return QuotaStatus::Failed(FofaError::RateLimited { retry_after: None });
    }
    if 500 <= status && status <= 599 {
        return QuotaStatus::Failed(
            FofaError::UpstreamUnavailable { status: Some(status), possible_duplicate_charge: false },
        );
    }
    if !(200 <= status && status <= 299) {
        let mut reason = String::new();
        push_str(&mut reason, "中转额度接口返回 HTTP ");
        push_decimal(&mut reason, status as u64);
        return QuotaStatus::Failed(FofaError::UpstreamProtocol { reason });
    }
    QuotaStatus::ReadBody
}

/// A quota answer that says `success: false` is refused.
pub fn check_quota_success(success: Option<bool>) -> (r: Result<(), FofaError>)
    ensures
        success == Some(false) ==> (r matches Err(e) && e@ == protocol_error(
            "中转额度响应标记 success=false"@,
        )),
        success != Some(false) ==> r is Ok,
{
    match success {
        Some(false) => Err(FofaError::protocol("中转额度响应标记 success=false")),
        _ => Ok(()),
    }
}

/// A relay transport failure: an encoding failure is a protocol error;
/// anything else is an unavailable upstream that may have been reached
/// unless the connection failed.
pub fn relay_transport_error(builder: bool, connect: bool, status: Option<u16>) -> (e: FofaError)
    ensures
        builder ==> e@ == protocol_error("无法编码中转认证请求"@),
        !builder ==> e@ == (FofaErrorView::UpstreamUnavailable {
            status,
            possible_duplicate_charge: !connect,
        }),
{
    if builder {
        return FofaError::protocol("无法编码中转认证请求");
    }
    FofaError::UpstreamUnavailable { status, possible_duplicate_charge: !connect }
}

/// Refuses a relay answer whose declared length passes the 1 MiB cap.
pub fn check_auth_content_length(length: Option<u64>) -> (r: Result<(), FofaError>)
    ensures
        match length {
            Some(n) if n > MAX_AUTH_RESPONSE_BYTES => r matches Err(e) && e@ == protocol_error(
                "中转认证响应超过 1 MiB 安全上限"@,
            ),
            _ => r is Ok,
        },
{
    match length {
        Some(n) => if n > MAX_AUTH_RESPONSE_BYTES {
            Err(FofaError::protocol("中转认证响应超过 1 MiB 安全上限"))
        } else {
            Ok(())
        },
        None => Ok(()),
    }
}

/// The body length after appending a chunk of a relay answer, unless that
/// overflows or passes the 1 MiB cap.
pub fn check_auth_body_growth(current: usize, chunk: usize) -> (r: Result<usize, FofaError>)
    ensures
        current + chunk > usize::MAX ==> (r matches Err(e) && e@ == protocol_error(
            "中转认证响应大小溢出"@,
        )),
        current + chunk <= usize::MAX && current + chunk > MAX_AUTH_RESPONSE_BYTES ==> (r matches Err(
            e,
        ) && e@ == protocol_error("中转认证响应超过 1 MiB 安全上限"@)),
        current + chunk <= usize::MAX && current + chunk <= MAX_AUTH_RESPONSE_BYTES ==> r == Ok::<
            usize,
            FofaError,
        >((current + chunk) as usize),
{
    let new_len = match current.checked_add(chunk) {
        Some(n) => n,
        None => return Err(FofaError::protocol("中转认证响应大小溢出")),
    };
    if new_len as u64 > MAX_AUTH_RESPONSE_BYTES {
        return Err(FofaError::protocol("中转认证响应超过 1 MiB 安全上限"));
    }
    Ok(new_len)
}

/// After a token was refused, the cached token is reused when another
/// caller already replaced the refused one; otherwise a new sign-in is
/// needed.
pub fn reuse_after_refusal(current: Option<&str>, rejected: &str) -> (reuse: bool)
    ensures
        reuse == (current matches Some(c) && c@ != rejected@),
{
    match current {
        Some(c) => !str_eq(c, rejected),
        None => false,
    }
}

/// A refused token is cleared from the cache only while it is still the
/// cached one.
pub fn clear_if_current(current: Option<&str>, rejected: &str) -> (clear: bool)
    ensures
        clear == (current matches Some(c) && c@ == rejected@),
{
    match current {
        Some(c) => str_eq(c, rejected),
        None => false,
    }
}

/// Where a quota request stands: the first answer, or the answer after the
/// single refresh a refused token gets.
#[derive(Clone, Copy, Debug, PartialEq, Eq, Structural)]
pub enum QuotaAttempt {
    First,
    AfterRefresh,
}

/// What follows a refused token: refresh once, then give up.
pub enum QuotaNext {
    /// Refresh the token and ask again.
    Refresh,
    /// Clear the refreshed token if still cached; the session has expired.
    Expired,
}

/// The attempt that follows a 401 on `attempt`: the first answer earns one
/// refresh; after it, a 401 ends the call.
pub open spec fn refreshed(attempt: QuotaAttempt) -> Option<QuotaAttempt> {
    match attempt {
        QuotaAttempt::First => Some(QuotaAttempt::AfterRefresh),
        QuotaAttempt::AfterRefresh => None,
    }
}

/// The userinfo requests of one quota call from `attempt` on, when the
/// relay answers its k-th request with 401 exactly when `unauthorized[k]`
/// (and answers beyond the sequence otherwise).
pub open spec fn quota_fetches(attempt: QuotaAttempt, unauthorized: Seq<bool>) -> nat
    decreases unauthorized.len(),
{
    if unauthorized.len() > 0 && unauthorized[0] && refreshed(attempt) is Some {
        1 + quota_fetches(refreshed(attempt)->Some_0, unauthorized.drop_first())
    } else {
        1
    }
}

/// The logins of one quota call: one when no token is cached, and one for
/// each refresh.
pub open spec fn quota_logins(cached: bool, unauthorized: Seq<bool>) -> nat {
    (if cached {
        0nat
    } else {
        1nat
    }) + (quota_fetches(QuotaAttempt::First, unauthorized) - 1) as nat
}

/// Whatever the relay answers, one quota call sends at most two userinfo
/// requests and at most two logins; a cached token is used without a login
/// unless the relay refuses it.
pub proof fn lemma_quota_call_bounded(cached: bool, unauthorized: Seq<bool>)
    ensures
        1 <= quota_fetches(QuotaAttempt::First, unauthorized) <= 2,
        quota_fetches(QuotaAttempt::AfterRefresh, unauthorized) == 1,
        quota_logins(cached, unauthorized) <= 2,
        cached && (unauthorized.len() == 0 || !unauthorized[0]) ==> quota_logins(
            cached,
            unauthorized,
        ) == 0,
{
    if unauthorized.len() > 0 && unauthorized[0] {
        assert(quota_fetches(QuotaAttempt::AfterRefresh, unauthorized.drop_first()) == 1);
    }
}

pub fn on_quota_unauthorized(attempt: QuotaAttempt) -> (n: QuotaNext)
    ensures
        n is Refresh <==> refreshed(attempt) is Some,
        attempt == QuotaAttempt::First ==> n is Refresh,
        attempt == QuotaAttempt::AfterRefresh ==> n is Expired,
{
    match attempt {
        QuotaAttempt::First => QuotaNext::Refresh,
        QuotaAttempt::AfterRefresh => QuotaNext::Expired,
    }
}

} // verus!
